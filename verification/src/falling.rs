//! The falling piece: the active piece's identity, position, rotation and
//! lock-delay counters, and the operation that stamps it onto the board.

use vstd::prelude::*;

use crate::board::{Board, Pixel, board_seq, in_bounds, intersects_spec};
use crate::piece::{Mask, MaskMap, PieceId, mask_cell};

verus! {

broadcast use vstd::array::group_array_axioms;

/// Ticks a grounded piece may rest before it locks.
pub const LOCK_DELAY: u8 = 5;

/// How many times the lock-delay countdown may be reset by a successful
/// move or rotation during one piece's lifetime.
pub const LOCK_DELAY_RESETS: u8 = 10;

/// The column of a freshly spawned piece's top-left corner (the board's
/// center, less half of the 4-cell mask width).
pub const SPAWN_X: isize = 3;

/// The row of a freshly spawned piece's top-left corner.
pub const SPAWN_Y: isize = 0;

/// The active piece: its kind, the board position of its mask's top-left
/// corner (possibly negative while the mask's occupied cells stay on the
/// board), its rotation index, the cached mask of that rotation, and the
/// lock-delay counters.
#[derive(Copy, Clone)]
pub struct FallingPiece {
    pub id: PieceId,
    pub pos: (isize, isize),
    pub mask_idx: usize,
    pub mask: Mask,
    pub lock_delay: u8,
    pub lock_delay_resets: u8,
}

/// Every occupied cell of the mask placed at `(x, y)` lies on the board.
pub open spec fn piece_in_bounds(m: Mask, x: int, y: int) -> bool {
    forall|rx: int, ry: int|
        0 <= rx < 4 && 0 <= ry < 4 && mask_cell(m, rx, ry) ==> in_bounds(x + rx, y + ry)
}

/// The piece a spawn produces: kind `id` at the spawn position, rotation 0,
/// with a full lock-delay countdown and reset budget.
pub open spec fn spawn_piece(id: PieceId, map: MaskMap) -> FallingPiece {
    FallingPiece {
        id,
        pos: (SPAWN_X, SPAWN_Y),
        mask_idx: 0,
        mask: map.mask_of(id, 0),
        lock_delay: LOCK_DELAY,
        lock_delay_resets: LOCK_DELAY_RESETS,
    }
}

/// The lock-delay reset rule: a countdown that has already started, while
/// resets remain in the budget, goes back to its initial value and costs one
/// reset; otherwise nothing changes.
pub open spec fn reset_delay(fp: FallingPiece) -> FallingPiece {
    if fp.lock_delay < LOCK_DELAY && fp.lock_delay_resets > 0 {
        FallingPiece {
            id: fp.id,
            pos: fp.pos,
            mask_idx: fp.mask_idx,
            mask: fp.mask,
            lock_delay: LOCK_DELAY,
            lock_delay_resets: (fp.lock_delay_resets - 1) as u8,
        }
    } else {
        fp
    }
}

/// A piece that occupies at least one cell, all of them on the board, has
/// its top-left corner close to the board.
pub proof fn lemma_piece_pos_bounds(m: Mask, x: int, y: int)
    requires
        crate::piece::mask_nonempty(m),
        piece_in_bounds(m, x, y),
    ensures
        -3 <= x <= 9,
        -3 <= y <= 19,
{
    let (rx, ry): (int, int) = choose|rx: int, ry: int|
        0 <= rx < 4 && 0 <= ry < 4 && mask_cell(m, rx, ry);
    assert(in_bounds(x + rx, y + ry));
}

/// A mask that does not intersect the board has all its occupied cells on
/// the board.
pub proof fn lemma_fits_in_bounds(m: Mask, x: int, y: int, b: Seq<Seq<Pixel>>)
    requires
        !intersects_spec(m, x, y, b),
    ensures
        piece_in_bounds(m, x, y),
{
    assert forall|rx: int, ry: int|
        0 <= rx < 4 && 0 <= ry < 4 && mask_cell(m, rx, ry) implies in_bounds(x + rx, y + ry) by {
        assert(!(mask_cell(m, rx, ry) && crate::board::cell_blocked(b, x + rx, y + ry)));
    }
}

/// Whether the absolute cell `(ax, ay)` is occupied by the mask placed at
/// `(x, y)`.
pub open spec fn covered(m: Mask, x: int, y: int, ax: int, ay: int) -> bool {
    0 <= ax - x < 4 && 0 <= ay - y < 4 && mask_cell(m, ax - x, ay - y)
}

/// The board after the mask placed at `(x, y)` is stamped onto it as cells
/// of kind `id`; all other cells keep their contents.
pub open spec fn printed(b: Seq<Seq<Pixel>>, m: Mask, x: int, y: int, id: PieceId) -> Seq<
    Seq<Pixel>,
> {
    Seq::new(
        20,
        |ay: int|
            Seq::new(
                10,
                |ax: int|
                    if covered(m, x, y, ax, ay) {
                        Pixel::Full(id)
                    } else {
                        b[ay][ax]
                    },
            ),
    )
}

/// Stamping a piece onto a board with no full row completes at most the four
/// rows the mask spans.
pub proof fn lemma_printed_full_bound(b: Seq<Seq<Pixel>>, m: Mask, x: int, y: int, id: PieceId)
    requires
        b.len() == 20,
        forall|i: int| 0 <= i < 20 ==> (#[trigger] b[i]).len() == 10,
        forall|i: int| 0 <= i < 20 ==> !crate::board::row_full(#[trigger] b[i]),
    ensures
        crate::board::full_count(printed(b, m, x, y, id)) <= 4,
{
    let p = printed(b, m, x, y, id);
    let lo: int = if y < 0 {
        0
    } else if y > 20 {
        20
    } else {
        y
    };
    let hi: int = if y + 4 < lo {
        lo
    } else if y + 4 > 20 {
        20
    } else {
        y + 4
    };
    assert forall|ay: int|
        0 <= ay < 20 && crate::board::row_full(#[trigger] p[ay]) implies lo <= ay < hi by {
        if ay < y || ay >= y + 4 {
            assert forall|ax: int| 0 <= ax < 10 implies p[ay][ax] == b[ay][ax] by {
                assert(!covered(m, x, y, ax, ay));
            }
            assert(p[ay] =~= b[ay]);
            assert(!crate::board::row_full(b[ay]));
        }
    }
    crate::board::lemma_full_count_window(p, lo, hi);
}

/// Like `covered`, but only by the first `k` mask cells in the stamping
/// order (columns outer, rows inner).
pub open spec fn covered_upto(m: Mask, x: int, y: int, ax: int, ay: int, k: int) -> bool {
    exists|rx: int, ry: int|
        0 <= rx < 4 && 0 <= ry < 4 && 4 * rx + ry < k && mask_cell(m, rx, ry) && ax == x + rx && ay
            == y + ry
}

impl FallingPiece {
    /// Whether the piece rests on something: one row further down, its mask
    /// would hit the border or an occupied cell.
    pub fn is_touching_ground(&self, board: &Board) -> (r: bool)
        requires
            self.pos.0 + 3 <= isize::MAX,
            self.pos.1 + 4 <= isize::MAX,
        ensures
            r == intersects_spec(
                self.mask,
                self.pos.0 as int,
                self.pos.1 + 1,
                board_seq(*board),
            ),
    {
        crate::board::intersects_with(&self.mask, (self.pos.0, self.pos.1 + 1), board)
    }

    /// Reset the lock-delay countdown if it has started and the budget
    /// allows, spending one reset.
    pub fn checked_reset_lock_delay(&mut self)
        ensures
            *final(self) == reset_delay(*old(self)),
    {
        if self.lock_delay < LOCK_DELAY && self.lock_delay_resets > 0 {
            self.lock_delay = LOCK_DELAY;
            self.lock_delay_resets = self.lock_delay_resets - 1;
        }
    }

    /// Stamp the piece's mask onto the board as occupied cells of its kind.
    /// The caller has already ruled out (through the collision oracle) that
    /// any target cell is occupied.
    pub fn print_onto(&self, board: &mut Board)
        requires
            piece_in_bounds(self.mask, self.pos.0 as int, self.pos.1 as int),
            !intersects_spec(
                self.mask,
                self.pos.0 as int,
                self.pos.1 as int,
                board_seq(*old(board)),
            ),
        ensures
            board_seq(*final(board)) == printed(
                board_seq(*old(board)),
                self.mask,
                self.pos.0 as int,
                self.pos.1 as int,
                self.id,
            ),
    {
        let ghost orig = board_seq(*old(board));
        let ghost x = self.pos.0 as int;
        let ghost y = self.pos.1 as int;
        let mut k: usize = 0;
        while k < 16
            invariant
                k <= 16,
                piece_in_bounds(self.mask, x, y),
                x == self.pos.0 as int,
                y == self.pos.1 as int,
                forall|ax: int, ay: int|
                    0 <= ax < 10 && 0 <= ay < 20 ==> board_seq(*board)[ay][ax] == (if covered_upto(
                        self.mask,
                        x,
                        y,
                        ax,
                        ay,
                        k as int,
                    ) {
                        Pixel::Full(self.id)
                    } else {
                        orig[ay][ax]
                    }),
            decreases 16 - k,
        {
            let rx = k / 4;
            let ry = k % 4;
            if self.mask[ry][rx] {
                proof {
                    assert(mask_cell(self.mask, rx as int, ry as int));
                    assert(in_bounds(x + rx, y + ry));
                }
                let ax = self.pos.0 + rx as isize;
                let ay = self.pos.1 + ry as isize;
                let ghost prev = *board;
                let mut row = board[ay as usize];
                row[ax as usize] = Pixel::Full(self.id);
                board[ay as usize] = row;
                proof {
                    assert(board@ == prev@.update(ay as int, row));
                    assert(row@ == prev@[ay as int]@.update(ax as int, Pixel::Full(self.id)));
                    assert forall|ax2: int, ay2: int| 0 <= ax2 < 10 && 0 <= ay2 < 20 implies
                        board_seq(*board)[ay2][ax2] == (if covered_upto(
                        self.mask,
                        x,
                        y,
                        ax2,
                        ay2,
                        k + 1,
                    ) {
                        Pixel::Full(self.id)
                    } else {
                        orig[ay2][ax2]
                    }) by {
                        lemma_upto_step(self.mask, x, y, ax2, ay2, k as int, rx as int, ry as int);
                        if ax2 == x + rx && ay2 == y + ry {
                            assert(covered_upto(self.mask, x, y, ax2, ay2, k + 1));
                        } else {
                            if ay2 == ay {
                                assert(board_seq(*board)[ay2][ax2] == board_seq(prev)[ay2][ax2]);
                            } else {
                                assert(board@[ay2] == prev@[ay2]);
                                assert(board_seq(*board)[ay2][ax2] == board_seq(prev)[ay2][ax2]);
                            }
                        }
                    }
                }
            } else {
                proof {
                    assert(!mask_cell(self.mask, rx as int, ry as int));
                    assert forall|ax2: int, ay2: int| 0 <= ax2 < 10 && 0 <= ay2 < 20 implies
                        board_seq(*board)[ay2][ax2] == (if covered_upto(
                        self.mask,
                        x,
                        y,
                        ax2,
                        ay2,
                        k + 1,
                    ) {
                        Pixel::Full(self.id)
                    } else {
                        orig[ay2][ax2]
                    }) by {
                        lemma_upto_step(self.mask, x, y, ax2, ay2, k as int, rx as int, ry as int);
                    }
                }
            }
            k += 1;
        }
        proof {
            assert forall|ay: int| 0 <= ay < 20 implies board_seq(*board)[ay] == printed(
                orig,
                self.mask,
                x,
                y,
                self.id,
            )[ay] by {
                assert forall|ax: int| 0 <= ax < 10 implies board_seq(*board)[ay][ax] == printed(
                    orig,
                    self.mask,
                    x,
                    y,
                    self.id,
                )[ay][ax] by {
                    if covered(self.mask, x, y, ax, ay) {
                        let (rx, ry) = ((ax - x), (ay - y));
                        assert(4 * rx + ry < 16);
                        assert(covered_upto(self.mask, x, y, ax, ay, 16));
                    } else {
                        assert(!covered_upto(self.mask, x, y, ax, ay, 16));
                    }
                }
                assert(board_seq(*board)[ay] =~= printed(orig, self.mask, x, y, self.id)[ay]);
            }
            assert(board_seq(*board) =~= printed(orig, self.mask, x, y, self.id));
        }
    }
}

/// One stamping step extends the set of covered cells by exactly the cell of
/// mask index `k` (when that mask cell is occupied).
proof fn lemma_upto_step(m: Mask, x: int, y: int, ax: int, ay: int, k: int, rx: int, ry: int)
    requires
        0 <= k < 16,
        rx == k / 4,
        ry == k % 4,
    ensures
        covered_upto(m, x, y, ax, ay, k + 1) <==> (covered_upto(m, x, y, ax, ay, k) || (mask_cell(
            m,
            rx,
            ry,
        ) && ax == x + rx && ay == y + ry)),
{
    assert(0 <= rx < 4 && 0 <= ry < 4 && 4 * rx + ry == k) by (nonlinear_arith)
        requires
            0 <= k < 16,
            rx == k / 4,
            ry == k % 4,
    ;
    if covered_upto(m, x, y, ax, ay, k + 1) {
        let (rx2, ry2): (int, int) = choose|rx2: int, ry2: int|
            0 <= rx2 < 4 && 0 <= ry2 < 4 && 4 * rx2 + ry2 < k + 1 && mask_cell(m, rx2, ry2) && ax
                == x + rx2 && ay == y + ry2;
        if 4 * rx2 + ry2 == k {
            assert(rx2 == rx && ry2 == ry) by (nonlinear_arith)
                requires
                    0 <= rx2 < 4,
                    0 <= ry2 < 4,
                    0 <= rx < 4,
                    0 <= ry < 4,
                    4 * rx2 + ry2 == 4 * rx + ry,
            ;
        } else {
            assert(covered_upto(m, x, y, ax, ay, k));
        }
    }
    if covered_upto(m, x, y, ax, ay, k) {
        assert(covered_upto(m, x, y, ax, ay, k + 1));
    }
    if mask_cell(m, rx, ry) && ax == x + rx && ay == y + ry {
        assert(covered_upto(m, x, y, ax, ay, k + 1));
    }
}

} // verus!
