use vstd::prelude::*;

use crate::cell::Cell;
use crate::gof::{
    lemma_interior_rule, lemma_next_view, lemma_next_view_at, lemma_ring_kept, next_state, GofView,
};

verus! {

/// A cell whose eight neighbours all live counts eight of them.
pub proof fn lemma_full_block_counts_eight(v: GofView, x: int, y: int)
    requires
        v.wf(),
        v.is_interior(x, y),
        forall|a: int, b: int|
            x - 1 <= a <= x + 1 && y - 1 <= b <= y + 1 ==> #[trigger] v.at(a, b) == Cell::Alive,
    ensures
        v.neighbor_count(x, y) == 8,
{
    assert(v.at(x - 1, y - 1) == Cell::Alive);
    assert(v.at(x, y - 1) == Cell::Alive);
    assert(v.at(x + 1, y - 1) == Cell::Alive);
    assert(v.at(x - 1, y) == Cell::Alive);
    assert(v.at(x + 1, y) == Cell::Alive);
    assert(v.at(x - 1, y + 1) == Cell::Alive);
    assert(v.at(x, y + 1) == Cell::Alive);
    assert(v.at(x + 1, y + 1) == Cell::Alive);
}

/// Birth: a dead interior cell with exactly three living neighbours lives
/// one generation later.
pub proof fn lemma_birth(v: GofView, x: int, y: int)
    requires
        v.wf(),
        v.is_interior(x, y),
        v.at(x, y) == Cell::Dead,
        v.neighbor_count(x, y) == 3,
    ensures
        v.next_view().at(x, y) == Cell::Alive,
{
    lemma_next_view_at(v, x, y);
    lemma_interior_rule(v, x, y);
}

/// Survival: a living interior cell with two or three living neighbours
/// still lives one generation later.
pub proof fn lemma_survival(v: GofView, x: int, y: int)
    requires
        v.wf(),
        v.is_interior(x, y),
        v.at(x, y) == Cell::Alive,
        2 <= v.neighbor_count(x, y) <= 3,
    ensures
        v.next_view().at(x, y) == Cell::Alive,
{
    lemma_next_view_at(v, x, y);
    lemma_interior_rule(v, x, y);
}

/// Death: a living interior cell with fewer than two or more than three
/// living neighbours is dead one generation later.
pub proof fn lemma_death(v: GofView, x: int, y: int)
    requires
        v.wf(),
        v.is_interior(x, y),
        v.at(x, y) == Cell::Alive,
        v.neighbor_count(x, y) < 2 || v.neighbor_count(x, y) > 3,
    ensures
        v.next_view().at(x, y) == Cell::Dead,
{
    lemma_next_view_at(v, x, y);
    lemma_interior_rule(v, x, y);
}

/// The outer ring is left exactly as it was by a generation, whatever its
/// neighbours hold.
pub proof fn lemma_border_unchanged(v: GofView, x: int, y: int)
    requires
        v.wf(),
        v.in_bounds(x, y),
        !v.is_interior(x, y),
    ensures
        v.next_view().at(x, y) == v.at(x, y),
{
    lemma_next_view_at(v, x, y);
    lemma_ring_kept(v, x, y);
}

/// Whether `(x, y)` is one of the four cells of the two by two block whose
/// top-left cell is `(bx, by)`.
pub open spec fn in_square(bx: int, by: int, x: int, y: int) -> bool {
    bx <= x <= bx + 1 && by <= y <= by + 1
}

/// Still life: a two by two block of living cells with every other cell
/// dead is left as it is by any number of generations.
pub proof fn lemma_block_still_life(v: GofView, bx: int, by: int, n: nat)
    requires
        v.wf(),
        v.in_bounds(bx, by),
        v.in_bounds(bx + 1, by + 1),
        forall|x: int, y: int|
            v.in_bounds(x, y) ==> #[trigger] v.at(x, y) == if in_square(bx, by, x, y) {
                Cell::Alive
            } else {
                Cell::Dead
            },
    ensures
        v.next_view() == v,
        v.generations(n) == v,
    decreases n,
{
    assert forall|x: int, y: int| #![trigger v.at(x, y)] v.in_bounds(x, y) implies v.at(x, y)
        == v.next_at(x, y) by {
        if v.is_interior(x, y) {
            lemma_interior_rule(v, x, y);
            assert(v.at(x - 1, y - 1) == if in_square(bx, by, x - 1, y - 1) { Cell::Alive } else { Cell::Dead });
            assert(v.at(x, y - 1) == if in_square(bx, by, x, y - 1) { Cell::Alive } else { Cell::Dead });
            assert(v.at(x + 1, y - 1) == if in_square(bx, by, x + 1, y - 1) { Cell::Alive } else { Cell::Dead });
            assert(v.at(x - 1, y) == if in_square(bx, by, x - 1, y) { Cell::Alive } else { Cell::Dead });
            assert(v.at(x + 1, y) == if in_square(bx, by, x + 1, y) { Cell::Alive } else { Cell::Dead });
            assert(v.at(x - 1, y + 1) == if in_square(bx, by, x - 1, y + 1) { Cell::Alive } else { Cell::Dead });
            assert(v.at(x, y + 1) == if in_square(bx, by, x, y + 1) { Cell::Alive } else { Cell::Dead });
            assert(v.at(x + 1, y + 1) == if in_square(bx, by, x + 1, y + 1) { Cell::Alive } else { Cell::Dead });
            if in_square(bx, by, x, y) {
                assert(v.neighbor_count(x, y) == 3);
            } else {
                assert(v.neighbor_count(x, y) <= 2);
            }
        } else {
            lemma_ring_kept(v, x, y);
        }
    }
    lemma_next_view(v, v);
    if n > 0 {
        lemma_block_still_life(v, bx, by, (n - 1) as nat);
    }
}

} // verus!
