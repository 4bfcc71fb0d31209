//! The game engine: spawning, per-tick gravity, lock delay, line clearing and
//! scoring, and the control operations (move, rotate, hard drop, hold swap).

use vstd::prelude::*;

use crate::board::{
    Board, Pixel, board_seq, compact_seq, empty_board, full_count, intersects_spec,
    intersects_with,
};
use crate::falling::{
    FallingPiece, LOCK_DELAY, LOCK_DELAY_RESETS, SPAWN_X, SPAWN_Y, covered, piece_in_bounds,
    printed, reset_delay, spawn_piece,
};
use crate::piece::{Mask, MaskMap, PieceId, mask_cell, mask_nonempty};
use crate::queue::{PieceQueue, draw_step};

verus! {

broadcast use vstd::array::group_array_axioms;

/// The final score sheet of a finished game.
#[derive(Copy, Clone, PartialEq, Eq, Structural, Debug)]
pub struct FinalStats {
    pub points: usize,
    pub level: usize,
    pub cleared: usize,
}

/// Why an operation could not complete normally: the game was lost (a fresh
/// piece could not spawn), or a lock found one of its target cells already
/// occupied, which the design treats as an internal-invariant violation and
/// surfaces instead of corrupting the board.
#[derive(Copy, Clone, PartialEq, Eq, Structural, Debug)]
pub enum GameEnd {
    Lost(FinalStats),
    LockConflict,
}

/// The engine state: the board, the piece queue, the active piece (absent
/// only after a loss), the hold slot, and the tick/score counters.
pub struct Game {
    pub mask_map: MaskMap,
    pub tick: usize,
    pub points: usize,
    pub level: usize,
    pub cleared: usize,
    pub board: Board,
    pub piece_queue: PieceQueue,
    pub falling: Option<FallingPiece>,
    pub hold: Option<PieceId>,
    pub can_switch: bool,
}

/// Points for clearing `n` rows at once, before the level multiplier.
pub open spec fn score_of(n: int) -> int
    recommends
        0 <= n <= 4,
{
    if n == 0 {
        0
    } else if n == 1 {
        40
    } else if n == 2 {
        100
    } else if n == 3 {
        300
    } else {
        1200
    }
}

/// Ticks between two gravity steps at the given level: the level-indexed
/// rows-per-frame gravity table at 60 ticks per second, converted to a whole
/// tick interval of at least 1, and clamped at level 15.
pub open spec fn gravity_interval_spec(level: int) -> int
    recommends
        level >= 1,
{
    if level <= 1 {
        59
    } else if level == 2 {
        47
    } else if level == 3 {
        37
    } else if level == 4 {
        28
    } else if level == 5 {
        21
    } else if level == 6 {
        15
    } else if level == 7 {
        11
    } else if level == 8 {
        8
    } else if level == 9 {
        5
    } else if level == 10 {
        3
    } else if level == 11 {
        2
    } else {
        1
    }
}

/// Ticks between two gravity steps at the given level.
pub fn gravity_interval(level: usize) -> (r: usize)
    requires
        level >= 1,
    ensures
        r == gravity_interval_spec(level as int),
        1 <= r <= 59,
{
    match level {
        1 => 59,
        2 => 47,
        3 => 37,
        4 => 28,
        5 => 21,
        6 => 15,
        7 => 11,
        8 => 8,
        9 => 5,
        10 => 3,
        11 => 2,
        _ => 1,
    }
}

/// The wall-kick offset at position `j` of the kick order.
fn kick_offset(j: usize) -> (r: (isize, isize))
    requires
        j < 9,
    ensures
        r.0 as int == kicks()[j as int].0,
        r.1 as int == kicks()[j as int].1,
        -2 <= r.0 <= 2,
        -2 <= r.1 <= 2,
{
    match j {
        0 => (0, 0),
        1 => (0, -1),
        2 => (0, -2),
        3 => (0, 1),
        4 => (0, 2),
        5 => (-1, 0),
        6 => (-2, 0),
        7 => (1, 0),
        _ => (2, 0),
    }
}

/// The score sheet a loss reports: the counters at the moment of the loss.
pub open spec fn stats_of(g: Game) -> FinalStats {
    FinalStats { points: g.points, level: g.level, cleared: g.cleared }
}

impl Game {
    /// The engine's invariant: a well-formed mask table, a full lookahead
    /// buffer, the level derived from the cleared-line count, at most four
    /// full rows on the board (a lock can complete at most four rows, and
    /// compaction runs before every lock), and an active piece whose cached
    /// mask matches the table and whose occupied cells lie on the board.
    pub open spec fn wf(self) -> bool {
        &&& self.mask_map.wf()
        &&& self.piece_queue.wf()
        &&& self.level as int == self.cleared as int / 10 + 1
        &&& full_count(board_seq(self.board)) <= 4
        &&& (self.falling matches Some(fp) ==> {
            &&& fp.mask_idx < 4
            &&& fp.mask == self.mask_map.mask_of(fp.id, fp.mask_idx as int)
            &&& piece_in_bounds(fp.mask, fp.pos.0 as int, fp.pos.1 as int)
            &&& fp.lock_delay <= LOCK_DELAY
        })
    }
}

/// The two states agree on everything but the falling piece.
pub open spec fn same_but_falling(pre: Game, post: Game) -> bool {
    &&& post.mask_map == pre.mask_map
    &&& post.tick == pre.tick
    &&& post.points == pre.points
    &&& post.level == pre.level
    &&& post.cleared == pre.cleared
    &&& post.board == pre.board
    &&& post.piece_queue == pre.piece_queue
    &&& post.hold == pre.hold
    &&& post.can_switch == pre.can_switch
}

/// What one board compaction does: the board is compacted, the cleared-line
/// counter grows by the number of full rows, the level is re-derived, the
/// score grows by the level-multiplied award for that many rows, and nothing
/// else changes.
pub open spec fn compact_post(pre: Game, post: Game) -> bool {
    let fc = full_count(board_seq(pre.board));
    &&& board_seq(post.board) == compact_seq(board_seq(pre.board))
    &&& post.cleared == pre.cleared + fc
    &&& post.level as int == post.cleared as int / 10 + 1
    &&& post.points == pre.points + post.level * score_of(fc)
    &&& post.mask_map == pre.mask_map
    &&& post.tick == pre.tick
    &&& post.piece_queue == pre.piece_queue
    &&& post.falling == pre.falling
    &&& post.hold == pre.hold
    &&& post.can_switch == pre.can_switch
}

/// What one queue pop does: the front piece leaves the lookahead buffer and
/// one fresh bag draw joins at the back.
pub open spec fn queue_pop_rel(q0: PieceQueue, q1: PieceQueue) -> bool {
    &&& q1.queue@.len() == 3
    &&& q1.queue@ == q0.queue@.subrange(1, 3).push(q1.queue@[2])
    &&& draw_step(q0.bag@, q1.queue@[2], q1.bag@)
}

/// What spawning a piece of kind `id` does: at the fixed spawn position with
/// rotation 0, either the mask is blocked there and the game is lost (the
/// state is left as it was), or the piece becomes the active piece.
pub open spec fn spawn_with_id_post(pre: Game, post: Game, id: PieceId, r: Result<
    (),
    GameEnd,
>) -> bool {
    let m = pre.mask_map.mask_of(id, 0);
    if intersects_spec(m, SPAWN_X as int, SPAWN_Y as int, board_seq(pre.board)) {
        post == pre && r == Err::<(), GameEnd>(GameEnd::Lost(stats_of(pre)))
    } else {
        &&& same_but_falling(pre, post)
        &&& post.falling == Some(spawn_piece(id, pre.mask_map))
        &&& r == Ok::<(), GameEnd>(())
    }
}

/// What drawing the next piece and spawning it does.
pub open spec fn spawn_post(pre: Game, post: Game, r: Result<(), GameEnd>) -> bool {
    let k = pre.piece_queue.queue@[0];
    let m = pre.mask_map.mask_of(k, 0);
    &&& queue_pop_rel(pre.piece_queue, post.piece_queue)
    &&& post.mask_map == pre.mask_map
    &&& post.tick == pre.tick
    &&& post.points == pre.points
    &&& post.level == pre.level
    &&& post.cleared == pre.cleared
    &&& post.board == pre.board
    &&& post.hold == pre.hold
    &&& post.can_switch == pre.can_switch
    &&& if intersects_spec(m, SPAWN_X as int, SPAWN_Y as int, board_seq(pre.board)) {
        post.falling == pre.falling && r == Err::<(), GameEnd>(GameEnd::Lost(stats_of(pre)))
    } else {
        post.falling == Some(spawn_piece(k, pre.mask_map)) && r == Ok::<(), GameEnd>(())
    }
}

/// What locking the active piece and spawning its successor does: if the
/// piece's cells are no longer free (the board shifted under it), the state
/// is left untouched and the conflict is reported; otherwise the piece is
/// stamped onto the board, the hold lock is released, and the next queued
/// piece spawns — or, if its spawn position is blocked, the game is lost.
pub open spec fn lock_respawn_post(pre: Game, post: Game, r: Result<(), GameEnd>) -> bool {
    pre.falling matches Some(fp) && {
        let b = board_seq(pre.board);
        if intersects_spec(fp.mask, fp.pos.0 as int, fp.pos.1 as int, b) {
            post == pre && r == Err::<(), GameEnd>(GameEnd::LockConflict)
        } else {
            let b2 = printed(b, fp.mask, fp.pos.0 as int, fp.pos.1 as int, fp.id);
            let k = pre.piece_queue.queue@[0];
            let m = pre.mask_map.mask_of(k, 0);
            &&& board_seq(post.board) == b2
            &&& post.can_switch == true
            &&& queue_pop_rel(pre.piece_queue, post.piece_queue)
            &&& post.mask_map == pre.mask_map
            &&& post.tick == pre.tick
            &&& post.points == pre.points
            &&& post.level == pre.level
            &&& post.cleared == pre.cleared
            &&& post.hold == pre.hold
            &&& if intersects_spec(m, SPAWN_X as int, SPAWN_Y as int, b2) {
                post.falling is None && r == Err::<(), GameEnd>(GameEnd::Lost(stats_of(pre)))
            } else {
                post.falling == Some(spawn_piece(k, pre.mask_map)) && r == Ok::<(), GameEnd>(())
            }
        }
    }
}

/// The state `g` with its falling-piece slot replaced.
pub open spec fn with_falling(g: Game, f: Option<FallingPiece>) -> Game {
    Game { falling: f, ..g }
}

/// The state `g` with the tick counter advanced by one.
pub open spec fn tick_incr(g: Game) -> Game {
    Game { tick: (g.tick + 1) as usize, ..g }
}

/// What one movement attempt by `(dx, dy)` does: if the piece's mask fits at
/// the shifted position, the piece moves there and a started lock-delay
/// countdown is reset (within the reset budget); otherwise the attempt is
/// silently rejected and nothing changes.
pub open spec fn move_post(pre: Game, post: Game, dx: int, dy: int) -> bool {
    pre.falling matches Some(fp) && {
        let nx = fp.pos.0 + dx;
        let ny = fp.pos.1 + dy;
        if !intersects_spec(fp.mask, nx, ny, board_seq(pre.board)) {
            post == with_falling(
                pre,
                Some(reset_delay(FallingPiece { pos: (nx as isize, ny as isize), ..fp })),
            )
        } else {
            post == pre
        }
    }
}

/// The wall-kick offsets tried during rotation, in order: in place, then one
/// and two cells up, down, left, and right.
pub open spec fn kicks() -> Seq<(int, int)> {
    seq![(0, 0), (0, -1), (0, -2), (0, 1), (0, 2), (-1, 0), (-2, 0), (1, 0), (2, 0)]
}

/// Whether the rotated mask fits at the position shifted by kick offset `j`.
pub open spec fn kick_fits(m: Mask, x: int, y: int, b: Seq<Seq<Pixel>>, j: int) -> bool
    recommends
        0 <= j < 9,
{
    !intersects_spec(m, x + kicks()[j].0, y + kicks()[j].1, b)
}

/// What one rotation attempt does: the rotation index steps by `di` (mod 4)
/// and the offsets of `kicks()` are tried in order against the new mask; the
/// piece commits to the first offset that fits — never a later one — and a
/// started lock-delay countdown is reset (within the reset budget). If no
/// offset fits, the attempt is silently rejected and nothing changes.
pub open spec fn rotate_post(pre: Game, post: Game, di: int) -> bool {
    pre.falling matches Some(fp) && {
        let ni = (fp.mask_idx + di + 4) % 4;
        let nm = pre.mask_map.mask_of(fp.id, ni);
        let x = fp.pos.0 as int;
        let y = fp.pos.1 as int;
        let b = board_seq(pre.board);
        if exists|j: int| 0 <= j < 9 && kick_fits(nm, x, y, b, j) {
            exists|j: int|
                {
                    &&& 0 <= j < 9
                    &&& kick_fits(nm, x, y, b, j)
                    &&& (forall|i: int| 0 <= i < j ==> !kick_fits(nm, x, y, b, i))
                    &&& post == with_falling(
                        pre,
                        Some(
                            reset_delay(
                                FallingPiece {
                                    id: fp.id,
                                    pos: (
                                        (x + kicks()[j].0) as isize,
                                        (y + kicks()[j].1) as isize,
                                    ),
                                    mask_idx: ni as usize,
                                    mask: nm,
                                    lock_delay: fp.lock_delay,
                                    lock_delay_resets: fp.lock_delay_resets,
                                },
                            ),
                        ),
                    )
                }
        } else {
            post == pre
        }
    }
}

/// What the gravity part of one tick does, starting from the compacted state
/// `mid`: on ticks divisible by the level's gravity interval, an airborne
/// piece falls one row; a grounded piece counts its lock delay down, and
/// locks (with respawn) when the countdown has run out. The tick counter
/// advances except when the lock step reports a loss or a conflict.
pub open spec fn iterate_tick_post(mid: Game, post: Game, r: Result<(), GameEnd>) -> bool {
    mid.falling matches Some(fp) && {
        let interval = gravity_interval_spec(mid.level as int);
        let b = board_seq(mid.board);
        if mid.tick as int % interval != 0 {
            post == tick_incr(mid) && r == Ok::<(), GameEnd>(())
        } else if !intersects_spec(fp.mask, fp.pos.0 as int, fp.pos.1 + 1, b) {
            &&& post == tick_incr(
                with_falling(
                    mid,
                    Some((FallingPiece { pos: (fp.pos.0, (fp.pos.1 + 1) as isize), ..fp })),
                ),
            )
            &&& r == Ok::<(), GameEnd>(())
        } else if fp.lock_delay > 0 {
            &&& post == tick_incr(
                with_falling(
                    mid,
                    Some((FallingPiece { lock_delay: (fp.lock_delay - 1) as u8, ..fp })),
                ),
            )
            &&& r == Ok::<(), GameEnd>(())
        } else {
            exists|p2: Game|
                {
                    &&& lock_respawn_post(mid, p2, r)
                    &&& (r is Ok ==> post == tick_incr(p2))
                    &&& (r is Err ==> post == p2)
                }
        }
    }
}

/// What one call of `iterate` does: the board is compacted and scored, then
/// the gravity/lock step of this tick runs on the compacted state.
pub open spec fn iterate_post(pre: Game, post: Game, r: Result<(), GameEnd>) -> bool {
    exists|mid: Game| #[trigger] compact_post(pre, mid) && iterate_tick_post(mid, post, r)
}

/// `d` is the hard-drop distance of the mask at `(x, y)`: every position up
/// to `d` rows further down is free, and the row after that is blocked.
pub open spec fn is_drop_dist(m: Mask, x: int, y: int, b: Seq<Seq<Pixel>>, d: int) -> bool {
    &&& d >= 0
    &&& (forall|i: int| 1 <= i <= d ==> !(#[trigger] intersects_spec(m, x, y + i, b)))
    &&& intersects_spec(m, x, y + d + 1, b)
}

/// What one hard drop does: the board is compacted and scored, the piece
/// falls as far as the collision oracle allows, locks there with the usual
/// respawn, and the drop awards `distance + 1` points (forfeited when the
/// lock step reports a loss or a conflict, since the session ends inside the
/// lock step and never reaches the award).
pub open spec fn drop_lock_post(mid: Game, d: int, p2: Game, r: Result<(), GameEnd>) -> bool {
    mid.falling matches Some(fp) && {
        let dropped = with_falling(
            mid,
            Some((FallingPiece { pos: (fp.pos.0, (fp.pos.1 + d) as isize), ..fp })),
        );
        &&& is_drop_dist(fp.mask, fp.pos.0 as int, fp.pos.1 as int, board_seq(mid.board), d)
        &&& lock_respawn_post(dropped, p2, r)
    }
}

pub open spec fn hard_drop_post(pre: Game, post: Game, r: Result<(), GameEnd>) -> bool {
    exists|mid: Game, d: int, p2: Game|
        {
            &&& compact_post(pre, mid)
            &&& #[trigger] drop_lock_post(mid, d, p2, r)
            &&& (r is Ok ==> post == (Game { points: (p2.points + d + 1) as usize, ..p2 }))
            &&& (r is Err ==> post == p2)
        }
}

/// What one hold swap does: nothing, if the hold was already used during
/// this piece's lifetime; otherwise the active piece's kind goes into the
/// hold slot, further swaps are barred until the next lock, and either the
/// previously held kind respawns or (with an empty hold slot) the next
/// queued piece spawns — losing the game if the spawn position is blocked.
pub open spec fn switch_post(pre: Game, post: Game, r: Result<(), GameEnd>) -> bool {
    if !pre.can_switch {
        post == pre && r == Ok::<(), GameEnd>(())
    } else {
        pre.falling matches Some(fp) && {
            &&& post.hold == Some(fp.id)
            &&& post.can_switch == false
            &&& post.board == pre.board
            &&& post.mask_map == pre.mask_map
            &&& post.tick == pre.tick
            &&& post.points == pre.points
            &&& post.level == pre.level
            &&& post.cleared == pre.cleared
            &&& match pre.hold {
                Some(id) => {
                    &&& post.piece_queue == pre.piece_queue
                    &&& if intersects_spec(
                        pre.mask_map.mask_of(id, 0),
                        SPAWN_X as int,
                        SPAWN_Y as int,
                        board_seq(pre.board),
                    ) {
                        post.falling is None && r == Err::<(), GameEnd>(
                            GameEnd::Lost(stats_of(pre)),
                        )
                    } else {
                        post.falling == Some(spawn_piece(id, pre.mask_map)) && r == Ok::<
                            (),
                            GameEnd,
                        >(())
                    }
                },
                None => {
                    let k = pre.piece_queue.queue@[0];
                    &&& queue_pop_rel(pre.piece_queue, post.piece_queue)
                    &&& if intersects_spec(
                        pre.mask_map.mask_of(k, 0),
                        SPAWN_X as int,
                        SPAWN_Y as int,
                        board_seq(pre.board),
                    ) {
                        post.falling is None && r == Err::<(), GameEnd>(
                            GameEnd::Lost(stats_of(pre)),
                        )
                    } else {
                        post.falling == Some(spawn_piece(k, pre.mask_map)) && r == Ok::<
                            (),
                            GameEnd,
                        >(())
                    }
                },
            }
        }
    }
}

impl Game {
    /// A fresh game on an empty board: counters at zero, level 1, a queue
    /// seeded with `seed`, and the first piece already spawned.
    pub fn new(mask_map: MaskMap, seed: u64) -> (g: Game)
        requires
            mask_map.wf(),
        ensures
            g.wf(),
            g.mask_map == mask_map,
            g.tick == 0,
            g.points == 0,
            g.level == 1,
            g.cleared == 0,
            board_seq(g.board) == empty_board(),
            g.hold is None,
            g.can_switch == true,
            g.falling matches Some(fp) && fp == spawn_piece(fp.id, mask_map),
    {
        let board: Board = [[Pixel::Empty; 10]; 20];
        let mut g = Game {
            mask_map,
            tick: 0,
            points: 0,
            level: 1,
            cleared: 0,
            board,
            piece_queue: PieceQueue::new(seed),
            falling: None,
            hold: None,
            can_switch: true,
        };
        proof {
            assert forall|y: int| 0 <= y < 20 implies board_seq(g.board)[y] == empty_board()[y] by {
                assert(board_seq(g.board)[y] =~= empty_board()[y]);
            }
            assert(board_seq(g.board) =~= empty_board());
            assert forall|i: int|
                0 <= i < board_seq(g.board).len() implies !crate::board::row_full(
                #[trigger] board_seq(g.board)[i],
            ) by {
                assert(board_seq(g.board)[i][0] is Empty);
            }
            crate::board::lemma_kept_all(board_seq(g.board));
            assert(full_count(board_seq(g.board)) == 0);
            let k = g.piece_queue.queue@[0];
            let m = g.mask_map.mask_of(k, 0);
            assert forall|rx: int, ry: int|
                0 <= rx < 4 && 0 <= ry < 4 && mask_cell(m, rx, ry) implies !crate::board::cell_blocked(
                board_seq(g.board),
                SPAWN_X as int + rx,
                SPAWN_Y as int + ry,
            ) by {
                assert(board_seq(g.board)[SPAWN_Y as int + ry][SPAWN_X as int + rx] is Empty);
            }
            assert(!intersects_spec(m, SPAWN_X as int, SPAWN_Y as int, board_seq(g.board)));
        }
        let r = g.spawn();
        match r {
            Ok(()) => {},
            Err(_) => {
                proof {
                    assert(false);
                }
            },
        }
        g
    }

    /// Compact the board and do the scoring for the rows this removes.
    fn compact_board(&mut self)
        requires
            old(self).cleared + 4 <= usize::MAX,
            old(self).points + 1200 * (old(self).cleared as int / 10 + 2) <= usize::MAX,
            full_count(board_seq(old(self).board)) <= 4,
        ensures
            compact_post(*old(self), *final(self)),
            final(self).points <= old(self).points + 1200 * (old(self).cleared as int / 10 + 2),
    {
        let ghost c = old(self).cleared as int;
        let cleared_now = crate::board::compact(&mut self.board);
        proof {
            assert((c + cleared_now) / 10 + 1 <= c / 10 + 2) by {
                vstd::arithmetic::div_mod::lemma_div_is_ordered(
                    c + cleared_now,
                    c + 10,
                    10,
                );
                vstd::arithmetic::div_mod::lemma_div_plus_one(c, 10);
            }
        }
        self.cleared = self.cleared + cleared_now;
        self.level = self.cleared / 10 + 1;
        let score: usize = match cleared_now {
            0 => 0,
            1 => 40,
            2 => 100,
            3 => 300,
            4 => 1200,
            _ => vstd::pervasive::unreached(),
        };
        proof {
            assert(self.level * score <= 1200 * (c / 10 + 2)) by (nonlinear_arith)
                requires
                    0 <= score <= 1200,
                    0 <= self.level as int <= c / 10 + 2,
            ;
        }
        self.points = self.points + self.level * score;
    }

    /// Spawn a piece of kind `id` at the fixed spawn position, or report the
    /// loss if that position is blocked.
    fn spawn_with_id(&mut self, id: PieceId) -> (r: Result<(), GameEnd>)
        ensures
            spawn_with_id_post(*old(self), *final(self), id, r),
    {
        let mask = self.mask_map.get(id, 0);
        if intersects_with(&mask, (SPAWN_X, SPAWN_Y), &self.board) {
            Err(
                GameEnd::Lost(
                    FinalStats { points: self.points, level: self.level, cleared: self.cleared },
                ),
            )
        } else {
            self.falling = Some(
                FallingPiece {
                    id,
                    pos: (SPAWN_X, SPAWN_Y),
                    mask_idx: 0,
                    mask,
                    lock_delay: LOCK_DELAY,
                    lock_delay_resets: LOCK_DELAY_RESETS,
                },
            );
            Ok(())
        }
    }

    /// Draw the next piece from the queue and spawn it.
    fn spawn(&mut self) -> (r: Result<(), GameEnd>)
        requires
            old(self).piece_queue.wf(),
        ensures
            spawn_post(*old(self), *final(self), r),
    {
        let id = self.piece_queue.pop();
        self.spawn_with_id(id)
    }

    /// Try to move the active piece by `(dx, dy)` cells; a blocked move is a
    /// silent no-op.
    pub fn move_falling_piece(&mut self, dx: isize, dy: isize)
        requires
            old(self).wf(),
            old(self).falling matches Some(fp) && isize::MIN <= fp.pos.0 + dx && fp.pos.0 + dx + 3
                <= isize::MAX && isize::MIN <= fp.pos.1 + dy && fp.pos.1 + dy + 3 <= isize::MAX,
        ensures
            final(self).wf(),
            move_post(*old(self), *final(self), dx as int, dy as int),
    {
        let fp = match self.falling {
            Some(fp) => fp,
            None => vstd::pervasive::unreached(),
        };
        let new_pos = (fp.pos.0 + dx, fp.pos.1 + dy);
        if !intersects_with(&fp.mask, new_pos, &self.board) {
            proof {
                crate::falling::lemma_fits_in_bounds(
                    fp.mask,
                    new_pos.0 as int,
                    new_pos.1 as int,
                    board_seq(self.board),
                );
            }
            let mut nfp = FallingPiece { pos: new_pos, ..fp };
            nfp.checked_reset_lock_delay();
            self.falling = Some(nfp);
        }
    }

    /// Try to rotate the active piece by a quarter turn (`di` is `1` for
    /// clockwise, `-1` for counterclockwise), trying the wall-kick offsets in
    /// order and committing to the first that fits; if none fits, the attempt
    /// is a silent no-op.
    pub fn rotate_falling_piece(&mut self, di: isize)
        requires
            old(self).wf(),
            old(self).falling is Some,
            di == 1 || di == -1,
        ensures
            final(self).wf(),
            rotate_post(*old(self), *final(self), di as int),
    {
        let fp = match self.falling {
            Some(fp) => fp,
            None => vstd::pervasive::unreached(),
        };
        let new_idx: usize = if di == 1 {
            (fp.mask_idx + 1) % 4
        } else {
            (fp.mask_idx + 3) % 4
        };
        proof {
            assert(new_idx == (fp.mask_idx + di + 4) % 4);
            crate::falling::lemma_piece_pos_bounds(fp.mask, fp.pos.0 as int, fp.pos.1 as int);
        }
        let new_mask = self.mask_map.get(fp.id, new_idx);
        let ghost x = fp.pos.0 as int;
        let ghost y = fp.pos.1 as int;
        let ghost b = board_seq(self.board);
        let mut j: usize = 0;
        while j < 9
            invariant
                j <= 9,
                self == old(self),
                self.falling == Some(fp),
                old(self).wf(),
                -3 <= fp.pos.0 <= 9,
                -3 <= fp.pos.1 <= 19,
                new_mask == old(self).mask_map.mask_of(fp.id, new_idx as int),
                new_idx < 4,
                new_idx == (fp.mask_idx + di + 4) % 4,
                x == fp.pos.0 as int,
                y == fp.pos.1 as int,
                b == board_seq(self.board),
                di == 1 || di == -1,
                forall|i: int| 0 <= i < j ==> !kick_fits(new_mask, x, y, b, i),
            decreases 9 - j,
        {
            let (dx, dy) = kick_offset(j);
            let pos = (fp.pos.0 + dx, fp.pos.1 + dy);
            if !intersects_with(&new_mask, pos, &self.board) {
                proof {
                    crate::falling::lemma_fits_in_bounds(new_mask, pos.0 as int, pos.1 as int, b);
                }
                let mut nfp = FallingPiece {
                    id: fp.id,
                    pos,
                    mask_idx: new_idx,
                    mask: new_mask,
                    lock_delay: fp.lock_delay,
                    lock_delay_resets: fp.lock_delay_resets,
                };
                nfp.checked_reset_lock_delay();
                self.falling = Some(nfp);
                proof {
                    assert(kick_fits(new_mask, x, y, b, j as int));
                    assert(rotate_post(*old(self), *self, di as int));
                }
                return ;
            }
            j += 1;
        }
        proof {
            assert(!(exists|i: int| 0 <= i < 9 && kick_fits(new_mask, x, y, b, i)));
        }
    }

    /// Stamp the active piece onto the board, release the hold lock, and
    /// spawn the next piece.
    fn destroy_falling_and_respawn(&mut self) -> (r: Result<(), GameEnd>)
        requires
            old(self).falling is Some,
            old(self).piece_queue.wf(),
            old(self).falling matches Some(fp) ==> piece_in_bounds(
                fp.mask,
                fp.pos.0 as int,
                fp.pos.1 as int,
            ) && mask_nonempty(fp.mask),
        ensures
            lock_respawn_post(*old(self), *final(self), r),
    {
        let fp = match self.falling {
            Some(fp) => fp,
            None => vstd::pervasive::unreached(),
        };
        proof {
            crate::falling::lemma_piece_pos_bounds(fp.mask, fp.pos.0 as int, fp.pos.1 as int);
        }
        if intersects_with(&fp.mask, fp.pos, &self.board) {
            return Err(GameEnd::LockConflict);
        }
        fp.print_onto(&mut self.board);
        self.falling = None;
        self.can_switch = true;
        self.spawn()
    }

    /// Advance one tick: compact and score the board, then, on ticks the
    /// level's gravity interval selects, let the piece fall one row, or count
    /// its lock delay down, or lock it and spawn the next piece.
    pub fn iterate(&mut self) -> (r: Result<(), GameEnd>)
        requires
            old(self).wf(),
            old(self).falling is Some,
            old(self).tick < usize::MAX,
            old(self).cleared + 4 <= usize::MAX,
            old(self).points + 1200 * (old(self).cleared as int / 10 + 2) <= usize::MAX,
        ensures
            final(self).wf(),
            iterate_post(*old(self), *final(self), r),
    {
        self.compact_board();
        let ghost mid = *self;
        proof {
            crate::board::lemma_compact_no_full(board_seq(old(self).board));
            crate::board::lemma_full_count_zero_rows(board_seq(mid.board));
        }
        let interval = gravity_interval(self.level);
        if self.tick % interval == 0 {
            let fp = match self.falling {
                Some(fp) => fp,
                None => vstd::pervasive::unreached(),
            };
            proof {
                crate::falling::lemma_piece_pos_bounds(
                    fp.mask,
                    fp.pos.0 as int,
                    fp.pos.1 as int,
                );
            }
            if !fp.is_touching_ground(&self.board) {
                proof {
                    crate::falling::lemma_fits_in_bounds(
                        fp.mask,
                        fp.pos.0 as int,
                        fp.pos.1 + 1,
                        board_seq(self.board),
                    );
                }
                self.falling = Some(FallingPiece { pos: (fp.pos.0, fp.pos.1 + 1), ..fp });
            } else if fp.lock_delay > 0 {
                self.falling = Some(FallingPiece { lock_delay: fp.lock_delay - 1, ..fp });
            } else {
                let res = self.destroy_falling_and_respawn();
                let ghost p2 = *self;
                proof {
                    lemma_lock_keeps_wf(mid, p2, res);
                }
                match res {
                    Ok(()) => {},
                    Err(e) => {
                        return Err(e);
                    },
                }
            }
        }
        self.tick = self.tick + 1;
        Ok(())
    }

    /// Drop the active piece straight down as far as it goes, lock it there,
    /// spawn the next piece, and award one point per row fallen plus one.
    pub fn hard_drop(&mut self) -> (r: Result<(), GameEnd>)
        requires
            old(self).wf(),
            old(self).falling is Some,
            old(self).cleared + 4 <= usize::MAX,
            old(self).points + 1200 * (old(self).cleared as int / 10 + 2) + 23 <= usize::MAX,
        ensures
            final(self).wf(),
            hard_drop_post(*old(self), *final(self), r),
    {
        self.compact_board();
        let ghost mid = *self;
        proof {
            crate::board::lemma_compact_no_full(board_seq(old(self).board));
            crate::board::lemma_full_count_zero_rows(board_seq(mid.board));
        }
        let fp = match self.falling {
            Some(fp) => fp,
            None => vstd::pervasive::unreached(),
        };
        let ghost x = fp.pos.0 as int;
        let ghost y = fp.pos.1 as int;
        let ghost b = board_seq(self.board);
        proof {
            assert(mask_nonempty(fp.mask));
            crate::falling::lemma_piece_pos_bounds(fp.mask, x, y);
        }
        let mut delta: usize = 0;
        loop
            invariant_except_break
                *self == mid,
                mid.falling == Some(fp),
                mid.mask_map.wf(),
                fp.mask_idx < 4,
                mask_nonempty(fp.mask),
                fp.mask == mid.mask_map.mask_of(fp.id, fp.mask_idx as int),
                -3 <= fp.pos.0 <= 9,
                -3 <= fp.pos.1 <= 19,
                x == fp.pos.0 as int,
                y == fp.pos.1 as int,
                b == board_seq(self.board),
                delta <= 22,
                y + delta <= 19,
                piece_in_bounds(fp.mask, x, y + delta),
                forall|i: int|
                    1 <= i <= delta ==> !(#[trigger] intersects_spec(fp.mask, x, y + i, b)),
            ensures
                *self == mid,
                delta <= 22,
                piece_in_bounds(fp.mask, x, y + delta),
                is_drop_dist(fp.mask, x, y, b, delta as int),
            decreases 23 - delta,
        {
            if intersects_with(&fp.mask, (fp.pos.0, fp.pos.1 + delta as isize + 1), &self.board) {
                break ;
            }
            proof {
                crate::falling::lemma_fits_in_bounds(fp.mask, x, y + delta + 1, b);
                crate::falling::lemma_piece_pos_bounds(fp.mask, x, y + delta + 1);
            }
            delta += 1;
        }
        let nfp = FallingPiece { pos: (fp.pos.0, fp.pos.1 + delta as isize), ..fp };
        self.falling = Some(nfp);
        let ghost dropped = *self;
        let res = self.destroy_falling_and_respawn();
        let ghost p2 = *self;
        proof {
            lemma_lock_keeps_wf(dropped, p2, res);
        }
        match res {
            Ok(()) => {
                self.points = self.points + delta + 1;
                proof {
                    assert(compact_post(*old(self), mid));
                    assert(drop_lock_post(mid, delta as int, p2, Ok::<(), GameEnd>(())));
                    assert(*self == (Game {
                        points: (p2.points + delta as int + 1) as usize,
                        ..p2
                    }));
                }
                Ok(())
            },
            Err(e) => {
                proof {
                    assert(compact_post(*old(self), mid));
                    assert(drop_lock_post(mid, delta as int, p2, Err::<(), GameEnd>(e)));
                }
                Err(e)
            },
        }
    }

    /// Swap the active piece into the hold slot, at most once per piece
    /// lifetime: the previously held kind (or, with an empty hold slot, the
    /// next queued piece) spawns in its place. A second swap before the next
    /// lock is a silent no-op.
    pub fn switch_hold(&mut self) -> (r: Result<(), GameEnd>)
        requires
            old(self).wf(),
            old(self).falling is Some,
        ensures
            final(self).wf(),
            switch_post(*old(self), *final(self), r),
    {
        if self.can_switch {
            self.can_switch = false;
            let old_hold = self.hold;
            let fp = match self.falling {
                Some(fp) => fp,
                None => vstd::pervasive::unreached(),
            };
            self.falling = None;
            self.hold = Some(fp.id);
            match old_hold {
                Some(id) => self.spawn_with_id(id),
                None => self.spawn(),
            }
        } else {
            Ok(())
        }
    }
}

/// Whether the driver-facing snapshot reports the cell `(x, y)` as occupied:
/// either the board holds a locked piece there, or the active piece's mask
/// covers it.
pub open spec fn cell_filled(g: Game, x: int, y: int) -> bool {
    board_seq(g.board)[y][x] is Full || (g.falling matches Some(fp) && covered(
        fp.mask,
        fp.pos.0 as int,
        fp.pos.1 as int,
        x,
        y,
    ))
}

impl Game {
    /// A flattened snapshot of the board in row-major order, one flag per
    /// cell, with the active piece's mask burned in — the state export the
    /// autoplay collaborator consumes.
    pub fn get_cells(&self) -> (cells: Vec<bool>)
        requires
            self.wf(),
        ensures
            cells@.len() == 200,
            forall|x: int, y: int|
                0 <= x < 10 && 0 <= y < 20 ==> cells@[y * 10 + x] == cell_filled(*self, x, y),
    {
        proof {
            if let Some(fp) = self.falling {
                assert(mask_nonempty(fp.mask));
                crate::falling::lemma_piece_pos_bounds(fp.mask, fp.pos.0 as int, fp.pos.1 as int);
            }
        }
        let mut cells: Vec<bool> = Vec::new();
        let mut y: usize = 0;
        while y < 20
            invariant
                self.wf(),
                self.falling matches Some(fp) ==> -3 <= fp.pos.0 <= 9 && -3 <= fp.pos.1 <= 19,
                y <= 20,
                cells@.len() == 10 * y,
                forall|xx: int, yy: int|
                    0 <= xx < 10 && 0 <= yy < y ==> cells@[yy * 10 + xx] == cell_filled(
                        *self,
                        xx,
                        yy,
                    ),
            decreases 20 - y,
        {
            let mut x: usize = 0;
            while x < 10
                invariant
                    self.wf(),
                    self.falling matches Some(fp) ==> -3 <= fp.pos.0 <= 9 && -3 <= fp.pos.1
                        <= 19,
                    y < 20,
                    x <= 10,
                    cells@.len() == 10 * y + x,
                    forall|xx: int, yy: int|
                        0 <= xx < 10 && 0 <= yy < y ==> cells@[yy * 10 + xx] == cell_filled(
                            *self,
                            xx,
                            yy,
                        ),
                    forall|xx: int|
                        0 <= xx < x ==> cells@[y * 10 + xx] == cell_filled(*self, xx, y as int),
                decreases 10 - x,
            {
                let mut v = !self.board[y][x].is_empty();
                if !v {
                    match &self.falling {
                        Some(fp) => {
                            let rx = x as isize - fp.pos.0;
                            let ry = y as isize - fp.pos.1;
                            if 0 <= rx && rx < 4 && 0 <= ry && ry < 4 {
                                if fp.mask[ry as usize][rx as usize] {
                                    v = true;
                                }
                            }
                        },
                        None => {},
                    }
                }
                proof {
                    assert(v == cell_filled(*self, x as int, y as int));
                }
                cells.push(v);
                x += 1;
            }
            y += 1;
        }
        cells
    }
}

/// Compacting the board twice in a row, with no lock in between, yields the
/// same board the second time and awards no additional points: compaction is
/// idempotent.
pub proof fn lemma_compact_twice(g0: Game, g1: Game, g2: Game)
    requires
        compact_post(g0, g1),
        compact_post(g1, g2),
    ensures
        board_seq(g2.board) == board_seq(g1.board),
        g2.points == g1.points,
        g2.cleared == g1.cleared,
        g2.level == g1.level,
{
    crate::board::lemma_compact_idempotent(board_seq(g0.board));
}

/// The hold swap is single-use: after one hold swap that left the game
/// running, a second swap with no lock in between changes nothing.
pub proof fn lemma_hold_swap_single_use(
    g0: Game,
    g1: Game,
    r1: Result<(), GameEnd>,
    g2: Game,
    r2: Result<(), GameEnd>,
)
    requires
        g0.falling is Some,
        switch_post(g0, g1, r1),
        g1.falling is Some,
        switch_post(g1, g2, r2),
    ensures
        g2 == g1,
        r2 == Ok::<(), GameEnd>(()),
{
}

/// Locking and respawning preserves the engine invariant: the pre-lock board
/// is freshly compacted, so the stamped piece can complete at most its own
/// four rows, and a spawned piece starts well-formed.
proof fn lemma_lock_keeps_wf(pre: Game, post: Game, r: Result<(), GameEnd>)
    requires
        pre.wf(),
        pre.falling is Some,
        full_count(board_seq(pre.board)) == 0,
        lock_respawn_post(pre, post, r),
    ensures
        post.wf(),
{
    let fp = pre.falling->Some_0;
    let b = board_seq(pre.board);
    if !intersects_spec(fp.mask, fp.pos.0 as int, fp.pos.1 as int, b) {
        let b2 = printed(b, fp.mask, fp.pos.0 as int, fp.pos.1 as int, fp.id);
        crate::board::lemma_full_count_zero_rows(b);
        crate::falling::lemma_printed_full_bound(
            b,
            fp.mask,
            fp.pos.0 as int,
            fp.pos.1 as int,
            fp.id,
        );
        let k = pre.piece_queue.queue@[0];
        let m = pre.mask_map.mask_of(k, 0);
        if !intersects_spec(m, SPAWN_X as int, SPAWN_Y as int, b2) {
            assert(piece_in_bounds(m, SPAWN_X as int, SPAWN_Y as int));
        }
    }
}

} // verus!
