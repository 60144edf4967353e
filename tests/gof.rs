use game_of_life::cell::Cell;
use game_of_life::common::Vec2;
use game_of_life::gof::{FrameKeys, Gof};

fn board_with(width: usize, height: usize, alive: &[(usize, usize)]) -> Gof {
    let mut gof = Gof::new(width, height);
    for &(x, y) in alive {
        gof.set_cell(x, y, Cell::Alive);
    }
    gof
}

fn living(gof: &Gof) -> Vec<(usize, usize)> {
    let mut r = Vec::new();
    for y in 0..gof.height() {
        for x in 0..gof.width() {
            if gof.get_cell(x, y).is_alive() {
                r.push((x, y));
            }
        }
    }
    r
}

#[test]
fn test_neighbors() {
    let mut gof = Gof::new(1920, 1080);
    for x in 0..3 {
        for y in 0..3 {
            gof.set_cell(x, y, Cell::Alive);
        }
    }
    let result = gof.cell_neighbors(1, 1);
    assert_eq!(result, 8);

    for x in 0..3 {
        for y in 0..3 {
            gof.set_cell(x, y, Cell::Dead);
        }
    }
    for y in 0..3 {
        gof.set_cell(0, y, Cell::Alive);
    }
    let result = gof.cell_neighbors(1, 1);
    assert_eq!(result, 3);
}

#[test]
fn new_board_is_dead_and_running() {
    let gof = Gof::new(4, 3);
    assert_eq!(gof.width(), 4);
    assert_eq!(gof.height(), 3);
    assert_eq!(gof.zoom(), 1);
    assert!(gof.is_running());
    assert!(living(&gof).is_empty());
}

#[test]
fn set_and_get_cell_use_row_major_positions() {
    let mut gof = Gof::new(5, 4);
    gof.set_cell(3, 2, Cell::Alive);
    assert_eq!(gof.get_cell(3, 2), Cell::Alive);
    assert_eq!(gof.get_cell(2, 3), Cell::Dead);
    assert_eq!(living(&gof), vec![(3, 2)]);
}

#[test]
fn dead_cell_with_three_neighbours_is_born() {
    let mut gof = board_with(6, 6, &[(1, 2), (2, 2), (3, 2)]);
    gof.advance_generation();
    assert_eq!(gof.get_cell(2, 1), Cell::Alive);
    assert_eq!(gof.get_cell(2, 3), Cell::Alive);
}

#[test]
fn living_cell_with_two_or_three_neighbours_survives() {
    let mut gof = board_with(6, 6, &[(1, 2), (2, 2), (3, 2)]);
    gof.advance_generation();
    assert_eq!(gof.get_cell(2, 2), Cell::Alive);

    let mut gof = board_with(6, 6, &[(2, 2), (3, 2), (2, 3), (4, 4)]);
    assert_eq!(gof.cell_neighbors(3, 3), 4);
    assert_eq!(gof.cell_neighbors(2, 2), 2);
    gof.advance_generation();
    assert_eq!(gof.get_cell(2, 2), Cell::Alive);
}

#[test]
fn living_cell_with_too_few_or_too_many_neighbours_dies() {
    let mut gof = board_with(6, 6, &[(1, 2), (2, 2), (3, 2)]);
    gof.advance_generation();
    assert_eq!(gof.get_cell(1, 2), Cell::Dead);
    assert_eq!(gof.get_cell(3, 2), Cell::Dead);

    let mut gof = board_with(7, 7, &[(2, 2), (3, 2), (4, 2), (2, 3), (3, 3), (4, 3)]);
    assert_eq!(gof.cell_neighbors(3, 3), 5);
    gof.advance_generation();
    assert_eq!(gof.get_cell(3, 3), Cell::Dead);
}

#[test]
fn blinker_turns_upright() {
    let mut gof = board_with(5, 5, &[(1, 2), (2, 2), (3, 2)]);
    gof.advance_generation();
    assert_eq!(living(&gof), vec![(2, 1), (2, 2), (2, 3)]);
    gof.advance_generation();
    assert_eq!(living(&gof), vec![(1, 2), (2, 2), (3, 2)]);
}

#[test]
fn outer_ring_is_left_as_it_was() {
    let ring = [(0, 0), (1, 0), (2, 0), (4, 4), (0, 3), (4, 1)];
    let mut gof = board_with(5, 5, &ring);
    gof.set_cell(1, 1, Cell::Alive);
    let before = gof.clone();
    gof.advance_generation();
    for y in 0..5 {
        for x in 0..5 {
            if x == 0 || y == 0 || x == 4 || y == 4 {
                assert_eq!(gof.get_cell(x, y), before.get_cell(x, y));
            }
        }
    }
    // Lone on the ring with no neighbours, and still alive.
    assert_eq!(gof.get_cell(4, 1), Cell::Alive);
}

#[test]
fn block_is_a_still_life() {
    let block = [(3, 3), (4, 3), (3, 4), (4, 4)];
    let mut gof = board_with(8, 8, &block);
    for _ in 0..5 {
        gof.advance_generation();
        assert_eq!(living(&gof), vec![(3, 3), (4, 3), (3, 4), (4, 4)]);
    }
}

#[test]
fn one_row_board_does_not_change() {
    let mut gof = board_with(4, 1, &[(1, 0), (2, 0)]);
    gof.advance_generation();
    assert_eq!(living(&gof), vec![(1, 0), (2, 0)]);
}

#[test]
fn fill_cells_sets_every_cell() {
    let mut gof = Gof::new(3, 2);
    gof.fill_cells(Cell::Alive);
    assert_eq!(living(&gof).len(), 6);
    gof.fill_cells(Cell::Dead);
    assert!(living(&gof).is_empty());
}

#[test]
fn set_cells_from_bits_maps_each_flip() {
    let mut gof = Gof::new(3, 2);
    gof.set_cells_from_bits(&vec![1, 0, 0, 0, 1, 1]);
    assert_eq!(living(&gof), vec![(0, 0), (1, 1), (2, 1)]);
}

#[test]
fn randomize_keeps_shape_and_is_fair() {
    let mut gof = Gof::new(200, 100);
    gof.randomize_cells();
    assert_eq!(gof.width(), 200);
    assert_eq!(gof.height(), 100);
    assert_eq!(gof.zoom(), 1);
    assert!(gof.is_running());
    let alive = living(&gof).len() as f64;
    let fraction = alive / 20000.0;
    assert!(fraction > 0.45 && fraction < 0.55, "fraction alive {}", fraction);
}

#[test]
fn intersects_checks_both_axes() {
    let gof = Gof::new(4, 3);
    assert!(gof.intersects(0, 0));
    assert!(gof.intersects(3, 2));
    assert!(!gof.intersects(4, 0));
    assert!(!gof.intersects(0, 3));
}

#[test]
fn update_steps_only_while_running() {
    let mut gof = board_with(5, 5, &[(1, 2), (2, 2), (3, 2)]);
    gof.toggle_running();
    assert!(!gof.is_running());
    gof.update();
    assert_eq!(living(&gof), vec![(1, 2), (2, 2), (3, 2)]);
    gof.toggle_running();
    gof.update();
    assert_eq!(living(&gof), vec![(2, 1), (2, 2), (2, 3)]);
}

#[test]
fn apply_keys_toggles_clears_and_steps() {
    let mut gof = board_with(5, 5, &[(1, 2), (2, 2), (3, 2)]);
    let keys = FrameKeys { toggle_running: true, randomize: false, clear: false, step: true };
    gof.apply_keys(keys);
    assert!(!gof.is_running());
    assert_eq!(living(&gof), vec![(2, 1), (2, 2), (2, 3)]);

    let keys = FrameKeys { toggle_running: false, randomize: true, clear: true, step: false };
    gof.apply_keys(keys);
    assert!(living(&gof).is_empty());
    assert!(!gof.is_running());
}

#[test]
fn screen_to_world_divides_then_subtracts_offset() {
    let gof = Gof::new(10, 10);
    let p = gof.screen_to_world_point(7, 3, Vec2 { x: 2, y: -1 });
    assert_eq!((p.x, p.y), (5, 4));
}

#[test]
fn screen_to_world_rounds_down() {
    let mut gof = Gof::new(10, 10);
    gof.zoom_at_cursor(2, Vec2 { x: 0, y: 0 });
    assert_eq!(gof.zoom(), 2);
    let p = gof.screen_to_world_point(7, -3, Vec2 { x: 0, y: 0 });
    assert_eq!((p.x, p.y), (3, -2));
}

#[test]
fn world_to_screen_round_trips_at_zoom_one() {
    let gof = Gof::new(10, 10);
    let offset = Vec2 { x: -3, y: 4 };
    for &(x, y) in &[(0, 0), (5, 9), (-7, 2)] {
        let s = gof.world_to_screen_point(x, y, offset);
        let w = gof.screen_to_world_point(s.x, s.y, offset);
        assert_eq!((w.x, w.y), (x, y));
    }
}

#[test]
fn every_pixel_of_a_block_maps_back_to_its_cell() {
    let mut gof = Gof::new(10, 10);
    for _ in 0..2 {
        gof.zoom_at_cursor(5, Vec2 { x: 0, y: 0 });
    }
    assert_eq!(gof.zoom(), 3);
    let offset = Vec2 { x: 1, y: 2 };
    let s = gof.world_to_screen_point(4, 6, offset);
    assert_eq!((s.x, s.y), (15, 24));
    for dx in 0..3 {
        for dy in 0..3 {
            let w = gof.screen_to_world_point(s.x + dx, s.y + dy, offset);
            assert_eq!((w.x, w.y), (4, 6));
        }
    }
}

#[test]
fn blocks_left_of_and_above_the_origin_map_back() {
    let mut gof = Gof::new(10, 10);
    gof.zoom_at_cursor(2, Vec2 { x: 0, y: 0 });
    assert_eq!(gof.zoom(), 2);
    let offset = Vec2 { x: 0, y: 1 };
    let s = gof.world_to_screen_point(-1, -3, offset);
    assert_eq!((s.x, s.y), (-2, -4));
    for dx in 0..2 {
        for dy in 0..2 {
            let w = gof.screen_to_world_point(s.x + dx, s.y + dy, offset);
            assert_eq!((w.x, w.y), (-1, -3));
        }
    }
    let a = gof.screen_to_world_point(-1, 0, Vec2 { x: 0, y: 0 });
    let b = gof.screen_to_world_point(1, 0, Vec2 { x: 0, y: 0 });
    assert_eq!(b.x, a.x + 1);
}

#[test]
fn zoom_clamps_at_one_and_ignores_small_scrolls() {
    let mut gof = Gof::new(10, 10);
    gof.zoom_at_cursor(-5, Vec2 { x: 3, y: 3 });
    assert_eq!(gof.zoom(), 1);
    gof.zoom_at_cursor(1, Vec2 { x: 3, y: 3 });
    assert_eq!(gof.zoom(), 1);
    gof.zoom_at_cursor(3, Vec2 { x: 3, y: 3 });
    assert_eq!(gof.zoom(), 2);
    gof.zoom_at_cursor(-1, Vec2 { x: 3, y: 3 });
    assert_eq!(gof.zoom(), 2);
    gof.zoom_at_cursor(-2, Vec2 { x: 3, y: 3 });
    assert_eq!(gof.zoom(), 1);
}

#[test]
fn zoom_keeps_the_point_under_the_cursor() {
    let mut gof = Gof::new(10, 10);
    let cursor = Vec2 { x: 101, y: 57 };
    let offset = Vec2 { x: 4, y: -2 };
    let before = gof.screen_to_world_point(cursor.x, cursor.y, offset);
    let shift = gof.zoom_at_cursor(2, cursor);
    assert_eq!((shift.x, shift.y), (51, 29));
    let moved = Vec2 { x: offset.x - shift.x, y: offset.y - shift.y };
    let after = gof.screen_to_world_point(cursor.x, cursor.y, moved);
    assert_eq!((after.x, after.y), (before.x, before.y));
}

#[test]
fn paint_at_brings_the_cell_under_the_cursor_to_life() {
    let mut gof = Gof::new(6, 6);
    gof.paint_at(Vec2 { x: 4, y: 1 }, Vec2 { x: 1, y: -2 });
    assert_eq!(living(&gof), vec![(3, 3)]);
    gof.paint_at(Vec2 { x: 0, y: 0 }, Vec2 { x: 1, y: 0 });
    gof.paint_at(Vec2 { x: 20, y: 0 }, Vec2 { x: 0, y: 0 });
    assert_eq!(living(&gof), vec![(3, 3)]);
}
