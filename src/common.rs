use vstd::prelude::*;

verus! {

/// A pair of values, one per axis.
#[derive(Debug, Clone, Copy, Default, PartialEq, Eq)]
pub struct Vec2<T> {
    pub x: T,
    pub y: T,
}

} // verus!
