use blockfall::board::GAME_WIDTH;
use blockfall::game::{FinalStats, Game, GameEnd};
use blockfall::piece::{Mask, MaskMap};

fn mk(rows: [[i32; 4]; 4]) -> Mask {
    let mut out = [[false; 4]; 4];
    for y in 0..4 {
        for x in 0..4 {
            out[y][x] = rows[y][x] != 0;
        }
    }
    out
}

fn o_mask() -> Mask {
    mk([[0, 0, 0, 0], [0, 1, 1, 0], [0, 1, 1, 0], [0, 0, 0, 0]])
}

fn i_mask_flat() -> Mask {
    mk([[0, 0, 0, 0], [1, 1, 1, 1], [0, 0, 0, 0], [0, 0, 0, 0]])
}

fn i_mask_tall() -> Mask {
    mk([[0, 0, 1, 0], [0, 0, 1, 0], [0, 0, 1, 0], [0, 0, 1, 0]])
}

/// A table that gives every kind the same four rotation masks, so a scenario
/// controls the shape regardless of which kind the random bag draws.
fn uniform_map(masks: [Mask; 4]) -> MaskMap {
    MaskMap { masks: [masks; 7] }
}

fn o_map() -> MaskMap {
    uniform_map([o_mask(); 4])
}

fn i_map() -> MaskMap {
    uniform_map([i_mask_flat(), i_mask_tall(), i_mask_flat(), i_mask_tall()])
}

fn cell(cells: &[bool], x: usize, y: usize) -> bool {
    cells[y * GAME_WIDTH + x]
}

#[test]
fn test_spawn_state() {
    let g = Game::new(o_map(), 7);
    assert_eq!(g.points, 0);
    assert_eq!(g.level, 1);
    assert_eq!(g.cleared, 0);
    assert_eq!(g.tick, 0);
    assert!(g.hold.is_none());
    assert!(g.can_switch);
    let fp = g.falling.as_ref().unwrap();
    assert_eq!(fp.pos, (3, 0));
    assert_eq!(fp.mask_idx, 0);
    assert_eq!(fp.lock_delay, 5);
}

#[test]
fn test_move_down_seventeen_then_lock() {
    // An O piece (relative cells (1,1)-(2,2)) on an empty board: 17 downward
    // moves bring its top-left y to 17; the gravity ticks at level 1 come
    // every 59 ticks, and five lock-delay countdowns later it locks into the
    // bottom two rows.
    let mut g = Game::new(o_map(), 1);
    for _ in 0..17 {
        g.move_falling_piece(0, 1);
    }
    assert_eq!(g.falling.as_ref().unwrap().pos, (3, 17));
    // One more downward move is blocked by the floor: a silent no-op.
    g.move_falling_piece(0, 1);
    assert_eq!(g.falling.as_ref().unwrap().pos, (3, 17));
    // Gravity ticks at t = 0, 59, ..., 295: five countdowns, then the lock.
    for _ in 0..296 {
        g.iterate().unwrap();
    }
    let cells = g.get_cells();
    assert!(cell(&cells, 4, 18) && cell(&cells, 5, 18));
    assert!(cell(&cells, 4, 19) && cell(&cells, 5, 19));
    assert_eq!(g.points, 0);
    assert_eq!(g.cleared, 0);
    // The next piece has respawned at the top.
    assert_eq!(g.falling.as_ref().unwrap().pos, (3, 0));
    assert_eq!(g.tick, 296);
}

#[test]
fn test_hard_drop_distance_points() {
    // An O piece with 17 free rows beneath it drops exactly 17 rows and the
    // drop awards 17 + 1 points.
    let mut g = Game::new(o_map(), 2);
    g.hard_drop().unwrap();
    let cells = g.get_cells();
    assert!(cell(&cells, 4, 19) && cell(&cells, 5, 19));
    assert!(cell(&cells, 4, 18) && cell(&cells, 5, 18));
    assert_eq!(g.points, 18);
    assert_eq!(g.cleared, 0);
}

#[test]
fn test_single_line_clear() {
    // Fill the bottom row with two flat I pieces and two upright ones in the
    // last columns; compaction then clears exactly one row, the cleared-line
    // counter goes to 1, and the level stays 1 (lines / 10 + 1).
    let mut g = Game::new(i_map(), 3);
    g.move_falling_piece(-3, 0); // columns 0..=3
    g.hard_drop().unwrap(); // 18 rows down: 19 points
    g.move_falling_piece(1, 0); // columns 4..=7
    g.hard_drop().unwrap(); // 19 points
    g.rotate_falling_piece(1); // upright: column 5, rows 0..=3
    g.move_falling_piece(3, 0); // column 8
    g.hard_drop().unwrap(); // 16 rows down: 17 points
    g.rotate_falling_piece(1);
    g.move_falling_piece(4, 0); // column 9
    g.hard_drop().unwrap(); // 17 points
    assert_eq!(g.points, 19 + 19 + 17 + 17);
    assert_eq!(g.cleared, 0); // not yet compacted
    g.iterate().unwrap(); // compaction clears the bottom row: +40 * level 1
    assert_eq!(g.cleared, 1);
    assert_eq!(g.level, 1);
    assert_eq!(g.points, 19 + 19 + 17 + 17 + 40);
    let cells = g.get_cells();
    // The leftover upright-piece cells shifted one row toward the ground.
    assert!(cell(&cells, 8, 19) && cell(&cells, 9, 19));
    assert!(!cell(&cells, 0, 19) && !cell(&cells, 7, 19));
    // Compacting again without a lock changes nothing (idempotence).
    let points_before = g.points;
    let cleared_before = g.cleared;
    g.iterate().unwrap();
    assert_eq!(g.points, points_before);
    assert_eq!(g.cleared, cleared_before);
}

#[test]
fn test_double_line_clear_scoring() {
    // Five O pieces fill the bottom two rows; clearing 2 rows at level 1
    // awards exactly 100 points.
    let mut g = Game::new(o_map(), 4);
    let moves: [isize; 5] = [-4, -2, 0, 2, 4];
    for dx in moves {
        g.move_falling_piece(dx, 0);
        g.hard_drop().unwrap(); // each drop: 17 rows, 18 points
    }
    assert_eq!(g.points, 5 * 18);
    g.iterate().unwrap();
    assert_eq!(g.cleared, 2);
    assert_eq!(g.level, 1);
    assert_eq!(g.points, 5 * 18 + 100);
    let cells = g.get_cells();
    for x in 0..10 {
        assert!(!cell(&cells, x, 19));
    }
}

#[test]
fn test_level_two_scoring() {
    // A two-cell-wide bar fills the bottom row in five drops with no residue,
    // so rows can be cleared one at a time indefinitely. The level is derived
    // from the cleared-line count before the award, so the tenth clear is
    // already worth 40 * 2, and so is every clear at level 2.
    let bar = mk([[0, 0, 0, 0], [0, 1, 1, 0], [0, 0, 0, 0], [0, 0, 0, 0]]);
    let mut g = Game::new(uniform_map([bar; 4]), 10);
    let moves: [isize; 5] = [-4, -2, 0, 2, 4];
    for round in 1..=11usize {
        for dx in moves {
            g.move_falling_piece(dx, 0);
            g.hard_drop().unwrap();
        }
        let before = g.points;
        g.iterate().unwrap();
        assert_eq!(g.cleared, round);
        if round < 10 {
            assert_eq!(g.level, 1);
            assert_eq!(g.points, before + 40);
        } else {
            assert_eq!(g.level, 2);
            assert_eq!(g.points, before + 80);
        }
    }
}

#[test]
fn test_wall_kick_plus_one() {
    // The rotated mask has its only cell one column outside the left wall;
    // every kick except the one-cell shift to the right fails, so the piece
    // ends up shifted by exactly (+1, 0) — not by any other offset.
    let narrow_right = mk([[0, 0, 0, 1], [0, 0, 0, 0], [0, 0, 0, 0], [0, 0, 0, 0]]);
    let narrow_mid = mk([[0, 0, 1, 0], [0, 0, 0, 0], [0, 0, 0, 0], [0, 0, 0, 0]]);
    let map = uniform_map([narrow_right, narrow_mid, narrow_right, narrow_mid]);
    let mut g = Game::new(map, 5);
    g.move_falling_piece(-6, 5); // to (-3, 5): the cell sits at column 0
    assert_eq!(g.falling.as_ref().unwrap().pos, (-3, 5));
    g.rotate_falling_piece(1);
    let fp = g.falling.as_ref().unwrap();
    assert_eq!(fp.mask_idx, 1);
    assert_eq!(fp.pos, (-2, 5));
}

#[test]
fn test_rotation_blocked_is_noop() {
    // At the left wall with no workable kick (the rotated mask reaches more
    // than two cells past the wall), rotation is silently rejected.
    let narrow_right = mk([[0, 0, 0, 1], [0, 0, 0, 0], [0, 0, 0, 0], [0, 0, 0, 0]]);
    let wide = mk([[1, 0, 0, 1], [0, 0, 0, 0], [0, 0, 0, 0], [0, 0, 0, 0]]);
    let map = uniform_map([narrow_right, wide, narrow_right, wide]);
    let mut g = Game::new(map, 5);
    g.move_falling_piece(-6, 5);
    g.rotate_falling_piece(1);
    let fp = g.falling.as_ref().unwrap();
    assert_eq!(fp.mask_idx, 0);
    assert_eq!(fp.pos, (-3, 5));
}

#[test]
fn test_hold_swap_single_use() {
    // Two consecutive hold swaps without an intervening lock: the second one
    // is a no-op.
    let mut g = Game::new(o_map(), 6);
    let first_kind = g.falling.as_ref().unwrap().id;
    assert_eq!(g.switch_hold(), Ok(()));
    assert_eq!(g.hold, Some(first_kind));
    assert!(!g.can_switch);
    let pos = g.falling.as_ref().unwrap().pos;
    let kind = g.falling.as_ref().unwrap().id;
    let (points, tick, cleared) = (g.points, g.tick, g.cleared);
    assert_eq!(g.switch_hold(), Ok(()));
    assert_eq!(g.hold, Some(first_kind));
    assert!(!g.can_switch);
    assert_eq!(g.falling.as_ref().unwrap().pos, pos);
    assert_eq!(g.falling.as_ref().unwrap().id, kind);
    assert_eq!((g.points, g.tick, g.cleared), (points, tick, cleared));
}

#[test]
fn test_hold_swap_returns_held_piece() {
    // After a lock re-arms the hold, swapping brings the stashed kind back.
    let mut g = Game::new(o_map(), 8);
    let first_kind = g.falling.as_ref().unwrap().id;
    g.switch_hold().unwrap();
    g.hard_drop().unwrap(); // lock re-arms the hold switch
    assert!(g.can_switch);
    let second_held = g.falling.as_ref().unwrap().id;
    g.switch_hold().unwrap();
    assert_eq!(g.falling.as_ref().unwrap().id, first_kind);
    assert_eq!(g.hold, Some(second_held));
}

#[test]
fn test_lock_conflict_after_shift_into_piece() {
    // Compaction can shift an overhang down into a piece tucked beneath it;
    // the piece then rests, overlapped, until its lock delay runs out, and
    // the lock finds its cells occupied and reports the conflict instead of
    // corrupting the board.
    let single = mk([[1, 0, 0, 0], [0, 0, 0, 0], [0, 0, 0, 0], [0, 0, 0, 0]]);
    // A two-cell leg with a two-cell shelf hanging to its right.
    let leg2_shelf = mk([[1, 0, 0, 0], [1, 0, 0, 0], [0, 0, 0, 1], [0, 0, 0, 1]]);
    let tall = mk([[1, 0, 0, 0], [1, 0, 0, 0], [1, 0, 0, 0], [1, 0, 0, 0]]);
    // A four-cell leg with a two-cell shelf hanging to its left.
    let leg4_shelf = mk([[0, 0, 0, 1], [1, 0, 0, 1], [1, 0, 0, 1], [0, 0, 0, 1]]);
    let map = uniform_map([single, leg2_shelf, tall, leg4_shelf]);
    let mut g = Game::new(map, 13);

    // Nine tall pieces fill columns 0..=8 of rows 16..=19 (17 points each).
    for c in 0..9 {
        g.rotate_falling_piece(1);
        g.rotate_falling_piece(1);
        g.move_falling_piece(c - 3, 0);
        g.hard_drop().unwrap();
    }
    // A leg on column 3 leaves a shelf at (0,13)-(0,14), with a one-cell gap
    // at (0,15) above the stack top (13 points).
    g.rotate_falling_piece(1);
    g.rotate_falling_piece(1);
    g.rotate_falling_piece(1);
    g.move_falling_piece(-3, 0);
    g.hard_drop().unwrap();
    // A leg on column 6 drops its shelf into (9,16)-(9,17), completing rows
    // 16 and 17 (15 points).
    g.rotate_falling_piece(1);
    g.move_falling_piece(3, 0);
    g.hard_drop().unwrap();
    assert_eq!(g.points, 9 * 17 + 13 + 15);
    // Tuck the fresh piece into the gap under the shelf before any tick.
    g.move_falling_piece(-3, 15);
    assert_eq!(g.falling.as_ref().unwrap().pos, (0, 15));
    // The first tick clears rows 16 and 17 (+100 at level 1) and shifts the
    // shelf down onto the tucked piece; five gravity countdowns later the
    // lock finds the cell occupied.
    for _ in 0..295 {
        g.iterate().unwrap();
    }
    assert_eq!(g.points, 9 * 17 + 13 + 15 + 100);
    assert_eq!(g.cleared, 2);
    let r = g.iterate();
    assert_eq!(r, Err(GameEnd::LockConflict));
    assert!(g.falling.is_some());
    assert_eq!(g.tick, 295);
}

#[test]
fn test_stacking_until_loss() {
    // Hard-dropping O pieces onto one column stacks two rows per piece; the
    // ninth lock leaves the spawn cells occupied, so its respawn reports the
    // loss with the final counters (the ninth drop's points are never
    // awarded, as the game ends inside the lock step).
    let mut g = Game::new(o_map(), 9);
    let mut awarded = 0usize;
    for i in 0..8 {
        let r = g.hard_drop();
        assert_eq!(r, Ok(()));
        awarded += 18 - 2 * i;
        assert_eq!(g.points, awarded);
    }
    assert_eq!(awarded, 88);
    let r = g.hard_drop();
    assert_eq!(
        r,
        Err(GameEnd::Lost(FinalStats { points: 88, level: 1, cleared: 0 }))
    );
    assert!(g.falling.is_none());
    assert_eq!(g.points, 88);
}
