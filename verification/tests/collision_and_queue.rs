use blockfall::board::{Board, GAME_WIDTH, Pixel, intersects_with};
use blockfall::game::{Game, gravity_interval};
use blockfall::piece::{Mask, MaskMap, PieceId, Rgb};
use blockfall::queue::PieceQueue;

fn mk(rows: [[i32; 4]; 4]) -> Mask {
    let mut out = [[false; 4]; 4];
    for y in 0..4 {
        for x in 0..4 {
            out[y][x] = rows[y][x] != 0;
        }
    }
    out
}

fn o_mask() -> Mask {
    mk([[0, 0, 0, 0], [0, 1, 1, 0], [0, 1, 1, 0], [0, 0, 0, 0]])
}

fn o_map() -> MaskMap {
    MaskMap { masks: [[o_mask(); 4]; 7] }
}

fn empty_board() -> Board {
    [[Pixel::Empty; 10]; 20]
}

#[test]
fn test_intersects_out_of_bounds() {
    let board = empty_board();
    let single = mk([[1, 0, 0, 0], [0, 0, 0, 0], [0, 0, 0, 0], [0, 0, 0, 0]]);
    assert!(intersects_with(&single, (-1, 0), &board)); // left of the wall
    assert!(intersects_with(&single, (10, 0), &board)); // right of the wall
    assert!(intersects_with(&single, (0, -1), &board)); // above the top
    assert!(intersects_with(&single, (0, 20), &board)); // below the ground
    assert!(!intersects_with(&single, (0, 0), &board));
    assert!(!intersects_with(&single, (9, 19), &board));
}

#[test]
fn test_intersects_occupied_cell() {
    let mut board = empty_board();
    board[19][4] = Pixel::Full(PieceId::TBlock);
    let single = mk([[1, 0, 0, 0], [0, 0, 0, 0], [0, 0, 0, 0], [0, 0, 0, 0]]);
    assert!(intersects_with(&single, (4, 19), &board));
    assert!(!intersects_with(&single, (4, 18), &board));
    assert!(!intersects_with(&single, (5, 19), &board));
    // A mask cell away from the origin: only the covered cell counts.
    let offset = mk([[0, 0, 0, 0], [0, 1, 0, 0], [0, 0, 0, 0], [0, 0, 0, 0]]);
    assert!(intersects_with(&offset, (3, 18), &board)); // covers (4, 19)
    assert!(!intersects_with(&offset, (3, 17), &board)); // covers (4, 18)
}

#[test]
fn test_intersects_empty_mask_never_hits() {
    let board = empty_board();
    let none = mk([[0; 4]; 4]);
    assert!(!intersects_with(&none, (-100, -100), &board));
}

#[test]
fn test_pixel_is_empty() {
    assert!(Pixel::Empty.is_empty());
    assert!(!Pixel::Full(PieceId::SBlock).is_empty());
}

#[test]
fn test_color_values() {
    assert_eq!(PieceId::IBlock.color(), Rgb { r: 88, g: 176, b: 188 });
    assert_eq!(PieceId::JBlock.color(), Rgb { r: 22, g: 101, b: 167 });
    assert_eq!(PieceId::LBlock.color(), Rgb { r: 217, g: 133, b: 1 });
    assert_eq!(PieceId::OBlock.color(), Rgb { r: 235, g: 214, b: 1 });
    assert_eq!(PieceId::SBlock.color(), Rgb { r: 55, g: 154, b: 48 });
    assert_eq!(PieceId::TBlock.color(), Rgb { r: 137, g: 64, b: 135 });
    assert_eq!(PieceId::ZBlock.color(), Rgb { r: 205, g: 12, b: 17 });
}

#[test]
fn test_gravity_intervals() {
    // Whole-tick intervals derived from the rows-per-frame table at 60
    // ticks per second, clamped below at one tick and at level 15.
    assert_eq!(gravity_interval(1), 59);
    assert_eq!(gravity_interval(2), 47);
    assert_eq!(gravity_interval(5), 21);
    assert_eq!(gravity_interval(10), 3);
    assert_eq!(gravity_interval(11), 2);
    assert_eq!(gravity_interval(12), 1);
    assert_eq!(gravity_interval(15), 1);
    assert_eq!(gravity_interval(100), 1);
}

#[test]
fn test_queue_fairness_window() {
    // The first seven bag draws (three fill the lookahead buffer, four more
    // follow the first four pops) form one full bag: each kind exactly once.
    for seed in 0..20u64 {
        let mut q = PieceQueue::new(seed);
        let mut counts = [0usize; 7];
        for _ in 0..7 {
            counts[q.pop().index()] += 1;
        }
        assert_eq!(counts, [1; 7]);
    }
}

#[test]
fn test_queue_pop_order() {
    let mut q = PieceQueue::new(11);
    let before = q.iter();
    assert_eq!(before.len(), 3);
    let popped = q.pop();
    assert_eq!(popped, before[0]);
    let after = q.iter();
    assert_eq!(after.len(), 3);
    assert_eq!(after[0], before[1]);
    assert_eq!(after[1], before[2]);
}

#[test]
fn test_get_cells_snapshot() {
    // A fresh game: the only occupied snapshot cells are the active piece's
    // mask burned in at the spawn position.
    let g = Game::new(o_map(), 12);
    let cells = g.get_cells();
    assert_eq!(cells.len(), 200);
    let mut occupied = Vec::new();
    for y in 0..20 {
        for x in 0..10 {
            if cells[y * GAME_WIDTH + x] {
                occupied.push((x, y));
            }
        }
    }
    assert_eq!(occupied, vec![(4, 1), (5, 1), (4, 2), (5, 2)]);
}

#[test]
fn test_mask_map_get() {
    let tall = mk([[0, 0, 1, 0], [0, 0, 1, 0], [0, 0, 1, 0], [0, 0, 1, 0]]);
    let map = MaskMap { masks: [[o_mask(), tall, o_mask(), tall]; 7] };
    assert_eq!(map.get(PieceId::ZBlock, 1), tall);
    assert_eq!(map.get(PieceId::IBlock, 0), o_mask());
}
