use vstd::prelude::*;

use std::collections::VecDeque;

use crate::board::{
    board_view, board_wf, cleared_board, collides, collides_at, completes_row, does_collide,
    drop_offset, hits, merged_board, Square,
};
use crate::geom::{rot_seq_ccw, rot_seq_cw, Coord};
use crate::piece::{piece_template, piece_wf, Piece, PieceV};
use crate::rng;
use crate::{
    FRAMES_BEFORE_WE_SEAL_MOVE, FRAMES_TO_SHOW_PURGATORY, MAX_KEY_BUFF_LEN, MIN_SPEED, NUM_ROWS,
};

verus! {

/// One input token. The embedding translates raw key strings into these;
/// anything unrecognised arrives as `Other`, is buffered like any key,
/// and is a no-op at dispatch.
#[derive(Clone, Copy, Debug, PartialEq, Eq, Structural)]
pub enum Key {
    Reset,
    PauseOrRestart,
    RotateCw,
    RotateCcw,
    MoveRight,
    MoveLeft,
    HardDrop,
    Swap,
    Other,
}

/// The whole simulation state: board, pieces, input buffer, timing
/// counters and session flags. An embedding drives it by calling
/// `handle_key` for each key event and `tick` once per frame.
pub struct Inner {
    pub should_show_focus_banner: bool,
    pub is_paused: bool,
    pub is_game_over: bool,
    pub did_win: bool,
    pub score: u32,
    pub key_buff: VecDeque<Key>,
    pub current_piece: Option<Piece>,
    pub swapped_piece: Option<Piece>,
    pub board_pieces: Vec<Vec<Square>>,
    pub frames_between_updates: u32,
    pub frames_until_update: u32,
    pub frames_since_last_successful_move: u32,
    pub frames_to_wait: u32,
    pub should_send_to_bottom: bool,
    pub should_swap_piece: bool,
    pub rotations_to_perform: i32,
    pub x_to_move: i32,
    pub rng: rand::rngs::ThreadRng,
}

/// Mathematical counterpart of `Inner`. The random generator has no
/// mathematical content and is left out.
#[verifier::ext_equal]
pub struct GameV {
    pub should_show_focus_banner: bool,
    pub is_paused: bool,
    pub is_game_over: bool,
    pub did_win: bool,
    pub score: int,
    pub key_buff: Seq<Key>,
    pub current_piece: Option<PieceV>,
    pub swapped_piece: Option<PieceV>,
    pub board: Seq<Seq<crate::board::CellV>>,
    pub frames_between_updates: int,
    pub frames_until_update: int,
    pub frames_since_last_successful_move: int,
    pub frames_to_wait: int,
    pub should_send_to_bottom: bool,
    pub should_swap_piece: bool,
    pub rotations_to_perform: int,
    pub x_to_move: int,
}

impl View for Inner {
    type V = GameV;

    open spec fn view(&self) -> GameV {
        GameV {
            should_show_focus_banner: self.should_show_focus_banner,
            is_paused: self.is_paused,
            is_game_over: self.is_game_over,
            did_win: self.did_win,
            score: self.score as int,
            key_buff: self.key_buff@,
            current_piece: match self.current_piece {
                Some(p) => Some(p@),
                None => None,
            },
            swapped_piece: match self.swapped_piece {
                Some(p) => Some(p@),
                None => None,
            },
            board: board_view(self.board_pieces@),
            frames_between_updates: self.frames_between_updates as int,
            frames_until_update: self.frames_until_update as int,
            frames_since_last_successful_move: self.frames_since_last_successful_move as int,
            frames_to_wait: self.frames_to_wait as int,
            should_send_to_bottom: self.should_send_to_bottom,
            should_swap_piece: self.should_swap_piece,
            rotations_to_perform: self.rotations_to_perform as int,
            x_to_move: self.x_to_move as int,
        }
    }
}

// ---------------------------------------------------------------------
// Well-formedness
// ---------------------------------------------------------------------

/// "Effectively paused": the union condition that suppresses simulation
/// updates and input dispatch.
pub open spec fn effectively_paused_v(s: GameV) -> bool {
    s.should_show_focus_banner || s.is_paused || s.is_game_over
}

/// Structural validity of a state: a well-formed board, well-formed and
/// non-colliding pieces, a bounded input buffer, and timing counters in
/// their working ranges.
pub open spec fn wf_base(s: GameV) -> bool {
    &&& board_wf(s.board)
    &&& (s.current_piece matches Some(p) ==> piece_wf(p) && !collides(s.board, p))
    &&& (s.swapped_piece matches Some(p) ==> piece_wf(p))
    &&& s.key_buff.len() <= MAX_KEY_BUFF_LEN
    &&& 0 <= s.frames_to_wait <= FRAMES_TO_SHOW_PURGATORY
    &&& (s.current_piece is Some ==> s.frames_to_wait == 0)
    &&& 0 <= s.frames_since_last_successful_move <= FRAMES_BEFORE_WE_SEAL_MOVE + 1
    &&& s.frames_between_updates == MIN_SPEED
    &&& 0 <= s.frames_until_update <= MIN_SPEED
    &&& 0 <= s.score
}

/// Bounds on the two movement accumulators at tick boundaries. A held
/// piece can re-enter and merge at once, so a few wait cycles can pass
/// before a spawn drains the rotation accumulator; the bounds follow
/// those chains.
pub open spec fn acc_ok(s: GameV) -> bool {
    &&& (s.current_piece is Some ==> s.rotations_to_perform == 0 && s.x_to_move == 0)
    &&& (s.current_piece is None ==> -1 <= s.x_to_move <= 1)
    &&& (s.current_piece is None && s.is_game_over ==> -7 <= s.rotations_to_perform <= 7)
    &&& (s.current_piece is None && !s.is_game_over && s.swapped_piece is Some
        ==> -(3 - s.frames_to_wait) <= s.rotations_to_perform <= 3 - s.frames_to_wait)
    &&& (s.current_piece is None && !s.is_game_over && s.swapped_piece is None
        ==> -(6 - s.frames_to_wait) <= s.rotations_to_perform <= 6 - s.frames_to_wait)
}

/// Full validity: what `new` establishes and `tick` and `handle_key`
/// preserve.
pub open spec fn wf(s: GameV) -> bool {
    wf_base(s) && acc_ok(s)
}

// ---------------------------------------------------------------------
// The state transformers
// ---------------------------------------------------------------------

/// The freshly created session.
pub open spec fn initial_v() -> GameV {
    GameV {
        should_show_focus_banner: false,
        is_paused: false,
        is_game_over: false,
        did_win: false,
        score: 0,
        key_buff: Seq::empty(),
        current_piece: None,
        swapped_piece: None,
        board: Seq::empty(),
        frames_between_updates: MIN_SPEED as int,
        frames_until_update: 0,
        frames_since_last_successful_move: 0,
        frames_to_wait: 0,
        should_send_to_bottom: false,
        should_swap_piece: false,
        rotations_to_perform: 0,
        x_to_move: 0,
    }
}

/// A full session reset: score, board, pieces, pending actions and the
/// game-over flags return to their initial values. The pause and focus
/// flags and the key buffer survive, as does the movement cadence.
pub open spec fn reset_v(s: GameV) -> GameV {
    GameV {
        is_game_over: false,
        did_win: false,
        score: 0,
        frames_between_updates: MIN_SPEED as int,
        frames_until_update: MIN_SPEED as int,
        current_piece: None,
        swapped_piece: None,
        board: Seq::empty(),
        frames_to_wait: 0,
        should_send_to_bottom: false,
        should_swap_piece: false,
        rotations_to_perform: 0,
        x_to_move: 0,
        ..s
    }
}

/// A key arriving from the embedding: appended while fewer than
/// `MAX_KEY_BUFF_LEN` keys wait, dropped silently otherwise.
pub open spec fn handle_key_v(s: GameV, key: Key) -> GameV {
    if s.key_buff.len() < MAX_KEY_BUFF_LEN {
        GameV { key_buff: s.key_buff.push(key), ..s }
    } else {
        s
    }
}

/// The pre-processing pass at the top of a tick: a leading reset key
/// always resets; a leading pause key resets after a game over and
/// flips the pause flag otherwise; and while effectively paused the
/// whole buffer is dropped, which also forbids pause-buffering.
pub open spec fn pre_process_v(s: GameV) -> GameV {
    let s1 = if s.key_buff.len() > 0 && s.key_buff[0] == Key::Reset {
        reset_v(GameV { key_buff: s.key_buff.subrange(1, s.key_buff.len() as int), ..s })
    } else if s.key_buff.len() > 0 && s.key_buff[0] == Key::PauseOrRestart {
        let sp = GameV { key_buff: s.key_buff.subrange(1, s.key_buff.len() as int), ..s };
        if s.is_game_over {
            reset_v(sp)
        } else {
            GameV { is_paused: !s.is_paused, ..sp }
        }
    } else {
        s
    };
    if effectively_paused_v(s1) {
        GameV { key_buff: Seq::empty(), ..s1 }
    } else {
        s1
    }
}

/// The dispatch pass: one key leaves the buffer and becomes a pending
/// action; unrecognised keys are no-ops. A key popped while effectively
/// paused is consumed without effect.
pub open spec fn process_key_v(s: GameV) -> GameV {
    if s.key_buff.len() == 0 {
        s
    } else {
        let k = s.key_buff[0];
        let s1 = GameV { key_buff: s.key_buff.subrange(1, s.key_buff.len() as int), ..s };
        if effectively_paused_v(s) {
            s1
        } else {
            match k {
                Key::RotateCw => GameV { rotations_to_perform: s1.rotations_to_perform + 1, ..s1 },
                Key::RotateCcw => GameV { rotations_to_perform: s1.rotations_to_perform - 1, ..s1 },
                Key::MoveRight => GameV { x_to_move: 1, ..s1 },
                Key::MoveLeft => GameV { x_to_move: -1, ..s1 },
                Key::HardDrop => GameV { should_send_to_bottom: true, ..s1 },
                Key::Swap => GameV { should_swap_piece: true, ..s1 },
                _ => s1,
            }
        }
    }
}

/// The swap action: the falling piece and the held piece exchange, the
/// held piece re-entering with its row reset to 0. A piece that would
/// re-enter on top of locked cells tops the game out instead and is
/// discarded.
pub open spec fn swap_step(s: GameV) -> GameV {
    let incoming = match s.swapped_piece {
        Some(h) => Some(PieceV { y: 0, ..h }),
        None => None,
    };
    let s1 = GameV {
        should_swap_piece: false,
        swapped_piece: s.current_piece,
        current_piece: None,
        ..s
    };
    match incoming {
        Some(q) => {
            if collides(s.board, q) {
                GameV { is_game_over: true, ..s1 }
            } else {
                GameV { current_piece: Some(q), ..s1 }
            }
        },
        None => s1,
    }
}

/// The merge of the falling piece into the board, with the purgatory
/// flagging of any row it completes and the flash delay that follows.
pub open spec fn merge_step(s: GameV) -> GameV {
    let p = s.current_piece.unwrap();
    GameV {
        board: merged_board(s.board, p),
        current_piece: None,
        frames_to_wait: if completes_row(s.board, p) {
            FRAMES_TO_SHOW_PURGATORY as int
        } else {
            s.frames_to_wait
        },
        ..s
    }
}

/// The clear pass that runs before a spawn: every full row leaves the
/// board and the rows above close the gap.
pub open spec fn clear_step(s: GameV) -> GameV {
    GameV { board: cleared_board(s.board), ..s }
}

/// A spawn of the piece of shape `k`. A spawn onto locked cells is the
/// chosen top-out rule: the game ends and no piece enters play.
pub open spec fn spawn_step(s: GameV, k: int) -> GameV {
    let p = piece_template(k);
    if collides(s.board, p) {
        GameV { is_game_over: true, frames_since_last_successful_move: 0, ..s }
    } else {
        GameV {
            current_piece: Some(p),
            frames_since_last_successful_move: 0,
            ..s
        }
    }
}

/// The rotation pass: `n` quarter-turns attempted one at a time, each
/// kept only if the turned piece is collision-free.
pub open spec fn rot_phase(
    sq: Seq<Coord>,
    size: int,
    x: int,
    y: int,
    b: Seq<Seq<crate::board::CellV>>,
    n: nat,
    cw: bool,
) -> (Seq<Coord>, bool)
    decreases n,
{
    if n == 0 {
        (sq, false)
    } else {
        let cand = if cw {
            rot_seq_cw(sq, size)
        } else {
            rot_seq_ccw(sq, size)
        };
        let (next_sq, ok) = if !collides_at(b, x, y, cand) {
            (cand, true)
        } else {
            (sq, false)
        };
        let rec = rot_phase(next_sq, size, x, y, b, (n - 1) as nat, cw);
        (rec.0, ok || rec.1)
    }
}

/// The movement pass over the falling piece: the vertical move (a hard
/// drop to the interception row, or one gravity step), then the
/// horizontal move, then the rotations, each attempt checked against
/// the board and reverted on collision. A net change resets the
/// lock-delay counter; a tick without one advances it; a hard drop
/// forces it past the threshold.
pub open spec fn move_step(s: GameV) -> GameV {
    let p = s.current_piece.unwrap();
    let b = s.board;
    let vres = if s.should_send_to_bottom {
        (PieceV { y: p.y + drop_offset(b, p), ..p }, false)
    } else if !collides_at(b, p.x, p.y + 1, p.squares) {
        (PieceV { y: p.y + 1, ..p }, true)
    } else {
        (p, false)
    };
    let p1 = vres.0;
    let hres = if s.x_to_move != 0 {
        let dx: int = if s.x_to_move > 0 {
            1
        } else {
            -1
        };
        if !collides_at(b, p1.x + dx, p1.y, p1.squares) {
            (PieceV { x: p1.x + dx, ..p1 }, true)
        } else {
            (p1, false)
        }
    } else {
        (p1, false)
    };
    let p2 = hres.0;
    let n = if s.rotations_to_perform >= 0 {
        s.rotations_to_perform
    } else {
        -s.rotations_to_perform
    };
    let rres = rot_phase(p2.squares, p2.size, p2.x, p2.y, b, n as nat, s.rotations_to_perform > 0);
    let p3 = PieceV { squares: rres.0, ..p2 };
    let moved = vres.1 || hres.1 || rres.1;
    GameV {
        current_piece: Some(p3),
        should_send_to_bottom: false,
        x_to_move: 0,
        rotations_to_perform: 0,
        frames_since_last_successful_move: if moved {
            0
        } else if s.should_send_to_bottom {
            FRAMES_BEFORE_WE_SEAL_MOVE as int + 1
        } else {
            s.frames_since_last_successful_move + 1
        },
        ..s
    }
}

/// One piece update, as `update` performs it: the flash delay counts
/// down first; then a pending swap; a swap that tops out ends the tick;
/// with no piece in play the full rows clear and shape `k` spawns and
/// moves; a piece past its lock delay merges; any other piece moves.
pub open spec fn update_spec(s: GameV, k: int) -> GameV {
    if s.frames_to_wait > 0 {
        GameV { frames_to_wait: s.frames_to_wait - 1, ..s }
    } else {
        let s1 = if s.should_swap_piece {
            swap_step(s)
        } else {
            s
        };
        if s1.is_game_over {
            s1
        } else if s1.current_piece is None {
            let s2 = spawn_step(clear_step(s1), k);
            if s2.current_piece is Some {
                move_step(s2)
            } else {
                s2
            }
        } else if s1.frames_since_last_successful_move > FRAMES_BEFORE_WE_SEAL_MOVE {
            merge_step(s1)
        } else {
            move_step(s1)
        }
    }
}

/// One frame, as `tick` performs it: the pre-processing pass; then,
/// unless effectively paused, a piece update every `MIN_SPEED` frames
/// with one key dispatched first.
pub open spec fn tick_spec(s: GameV, k: int) -> GameV {
    let s1 = pre_process_v(s);
    if effectively_paused_v(s1) {
        s1
    } else if s1.frames_until_update == 0 {
        let s2 = update_spec(process_key_v(s1), k);
        GameV { frames_until_update: MIN_SPEED as int - 1, ..s2 }
    } else {
        GameV { frames_until_update: s1.frames_until_update - 1, ..s1 }
    }
}

// ---------------------------------------------------------------------
// The executable state machine
// ---------------------------------------------------------------------

impl Inner {
    /// A fresh session: empty board, empty buffer, no pieces, all
    /// counters and flags at their initial values.
    pub fn new() -> (inner: Inner)
        ensures
            inner@ == initial_v(),
            wf(inner@),
    {
        let inner = Inner {
            should_show_focus_banner: false,
            is_paused: false,
            is_game_over: false,
            did_win: false,
            score: 0,
            key_buff: VecDeque::with_capacity(MAX_KEY_BUFF_LEN),
            current_piece: None,
            swapped_piece: None,
            board_pieces: Vec::new(),
            frames_between_updates: MIN_SPEED,
            frames_until_update: 0,
            frames_since_last_successful_move: 0,
            frames_to_wait: 0,
            should_send_to_bottom: false,
            should_swap_piece: false,
            rotations_to_perform: 0,
            x_to_move: 0,
            rng: rng::new_rng(),
        };
        proof {
            assert(inner@.board =~= initial_v().board);
            assert(inner@ =~= initial_v());
        }
        inner
    }

    /// Restores the initial session values; see `reset_v` for exactly
    /// what survives.
    fn reset(&mut self)
        ensures
            final(self)@ == reset_v(old(self)@),
            wf(old(self)@) ==> wf(final(self)@),
    {
        self.is_game_over = false;
        self.did_win = false;
        self.score = 0;
        self.frames_between_updates = MIN_SPEED;
        self.frames_until_update = MIN_SPEED;
        self.current_piece = None;
        self.swapped_piece = None;
        self.board_pieces.clear();
        self.frames_to_wait = 0;
        self.should_send_to_bottom = false;
        self.should_swap_piece = false;
        self.rotations_to_perform = 0;
        self.x_to_move = 0;
        proof {
            assert(self@.board =~= reset_v(old(self)@).board);
            assert(self@ =~= reset_v(old(self)@));
        }
    }

    /// Raises the focus-lost banner; the state counts as effectively
    /// paused until it is hidden again.
    pub fn show_focus_banner(&mut self)
        ensures
            final(self)@ == (GameV { should_show_focus_banner: true, ..old(self)@ }),
            wf(old(self)@) ==> wf(final(self)@),
    {
        self.should_show_focus_banner = true;
        proof {
            assert(self@ =~= (GameV { should_show_focus_banner: true, ..old(self)@ }));
        }
    }

    /// Lowers the focus-lost banner.
    pub fn hide_focus_banner(&mut self)
        ensures
            final(self)@ == (GameV { should_show_focus_banner: false, ..old(self)@ }),
            wf(old(self)@) ==> wf(final(self)@),
    {
        self.should_show_focus_banner = false;
        proof {
            assert(self@ =~= (GameV { should_show_focus_banner: false, ..old(self)@ }));
        }
    }

    /// Whether updates and dispatch are suppressed this frame.
    pub fn effectively_paused(&self) -> (r: bool)
        ensures
            r == effectively_paused_v(self@),
    {
        self.should_show_focus_banner || self.is_paused || self.is_game_over
    }

    /// Buffers one key, dropping it if three keys already wait. The
    /// buffer never exceeds `MAX_KEY_BUFF_LEN` keys, and a key arriving
    /// at a full buffer leaves the state unchanged.
    pub fn handle_key(&mut self, key: Key)
        ensures
            final(self)@ == handle_key_v(old(self)@, key),
            final(self)@.key_buff.len() <= MAX_KEY_BUFF_LEN || final(self)@.key_buff.len() == old(
                self,
            )@.key_buff.len(),
            wf(old(self)@) ==> wf(final(self)@),
    {
        if self.key_buff.len() < MAX_KEY_BUFF_LEN {
            self.key_buff.push_back(key);
            proof {
                assert(self@ =~= handle_key_v(old(self)@, key));
            }
        } else {
            proof {
                assert(self@ =~= handle_key_v(old(self)@, key));
            }
        }
    }

    /// The pre-processing pass: immediate-effect keys at the head of
    /// the buffer act now, and an effectively paused state drops all
    /// buffered keys. While not game over, a leading pause key flips
    /// the pause flag; after a game over it resets the session.
    pub fn pre_process_keys(&mut self)
        ensures
            final(self)@ == pre_process_v(old(self)@),
            wf(old(self)@) ==> wf(final(self)@),
    {
        let mut should_reset = false;
        if self.key_buff.len() > 0 {
            let key = self.key_buff[0];
            match key {
                Key::Reset => {
                    should_reset = true;
                    let _ = self.key_buff.pop_front();
                },
                Key::PauseOrRestart => {
                    if self.is_game_over {
                        should_reset = true;
                    } else {
                        self.is_paused = !self.is_paused;
                    }
                    let _ = self.key_buff.pop_front();
                },
                _ => {},
            }
        }
        if should_reset {
            self.reset();
        }
        if self.effectively_paused() {
            self.key_buff.clear();
        }
        proof {
            assert(self@ =~= pre_process_v(old(self)@));
        }
    }

    /// The dispatch pass: pops one key and turns it into a pending
    /// action, unless the state is effectively paused, in which case
    /// the key is consumed without effect.
    pub fn process_key(&mut self)
        requires
            wf_base(old(self)@),
            old(self)@.rotations_to_perform < 8,
            old(self)@.rotations_to_perform > -8,
        ensures
            final(self)@ == process_key_v(old(self)@),
            wf_base(final(self)@),
    {
        let popped = self.key_buff.pop_front();
        match popped {
            None => {
                proof {
                    assert(self@ =~= process_key_v(old(self)@));
                }
            },
            Some(key) => {
                if self.effectively_paused() {
                    proof {
                        assert(self@ =~= process_key_v(old(self)@));
                    }
                    return;
                }
                match key {
                    Key::RotateCw => {
                        self.rotations_to_perform = self.rotations_to_perform + 1;
                    },
                    Key::RotateCcw => {
                        self.rotations_to_perform = self.rotations_to_perform - 1;
                    },
                    Key::MoveRight => {
                        self.x_to_move = 1;
                    },
                    Key::MoveLeft => {
                        self.x_to_move = -1;
                    },
                    Key::HardDrop => {
                        self.should_send_to_bottom = true;
                    },
                    Key::Swap => {
                        self.should_swap_piece = true;
                    },
                    _ => {},
                }
                proof {
                    assert(self@ =~= process_key_v(old(self)@));
                }
            },
        }
    }

    /// Performs a pending swap: the falling piece moves to the hold
    /// slot and the held piece re-enters play at row 0, unless it would
    /// re-enter on top of locked cells, which tops the game out.
    fn apply_swap(&mut self)
        requires
            wf_base(old(self)@),
            old(self)@.should_swap_piece,
            old(self)@.frames_to_wait == 0,
        ensures
            final(self)@ == swap_step(old(self)@),
            wf_base(final(self)@),
            final(self)@.frames_to_wait == old(self)@.frames_to_wait,
    {
        self.should_swap_piece = false;
        let previously_swapped = self.swapped_piece.take();
        self.swapped_piece = self.current_piece.take();
        match previously_swapped {
            Some(mut cur) => {
                cur.top_left.y = 0;
                if does_collide(&cur, &self.board_pieces) {
                    self.is_game_over = true;
                    proof {
                        assert(final(self)@ =~= swap_step(old(self)@));
                    }
                } else {
                    self.current_piece = Some(cur);
                    proof {
                        assert(final(self)@ =~= swap_step(old(self)@));
                    }
                }
            },
            None => {
                proof {
                    assert(final(self)@ =~= swap_step(old(self)@));
                }
            },
        }
    }

    /// Merges the falling piece into the board; if it completed one or
    /// more rows, their cells are flagged and the purgatory flash delay
    /// starts.
    fn merge_current(&mut self)
        requires
            wf_base(old(self)@),
            old(self)@.current_piece is Some,
            old(self)@.frames_to_wait == 0,
        ensures
            final(self)@ == merge_step(old(self)@),
            wf_base(final(self)@),
    {
        let piece_opt = self.current_piece.take();
        let piece = piece_opt.unwrap();
        let any_full = crate::board::merge_piece_into(&mut self.board_pieces, &piece);
        if any_full {
            self.frames_to_wait = FRAMES_TO_SHOW_PURGATORY;
        }
        proof {
            assert(final(self)@ =~= merge_step(old(self)@));
        }
    }

    /// The movement pass of one update: the hard drop or one gravity
    /// step, then the horizontal step, then the buffered rotations,
    /// every attempt checked against the board and reverted on
    /// collision; finally the lock-delay counter resets or advances.
    #[verifier::rlimit(60)]
    fn move_phase(&mut self)
        requires
            wf_base(old(self)@),
            old(self)@.current_piece is Some,
            -1 <= old(self)@.x_to_move <= 1,
            -7 <= old(self)@.rotations_to_perform <= 7,
            old(self)@.frames_since_last_successful_move <= FRAMES_BEFORE_WE_SEAL_MOVE,
        ensures
            final(self)@ == move_step(old(self)@),
            wf_base(final(self)@),
    {
        let ghost s0 = old(self)@;
        let ghost p0 = s0.current_piece.unwrap();
        let piece_opt = self.current_piece.take();
        let mut piece = piece_opt.unwrap();
        let mut did_move = false;
        let ghost bv = board_view(self.board_pieces@);
        let ghost vres_s = if s0.should_send_to_bottom {
            (PieceV { y: p0.y + drop_offset(bv, p0), ..p0 }, false)
        } else if !collides_at(bv, p0.x, p0.y + 1, p0.squares) {
            (PieceV { y: p0.y + 1, ..p0 }, true)
        } else {
            (p0, false)
        };

        if self.should_send_to_bottom {
            self.should_send_to_bottom = false;
            self.frames_since_last_successful_move = FRAMES_BEFORE_WE_SEAL_MOVE;
            let extra = crate::board::get_interception_point(&piece, &self.board_pieces);
            proof {
                assert(crate::board::is_drop_offset(bv, p0, extra as int));
                assert(crate::board::is_drop_offset(bv, p0, drop_offset(bv, p0)));
                crate::board::lemma_drop_offset_unique(
                    bv,
                    p0,
                    extra as int,
                    drop_offset(bv, p0),
                );
            }
            piece.top_left.y = piece.top_left.y + extra;
            proof {
                assert(!collides_at(bv, p0.x, p0.y + extra, p0.squares));
                assert(!hits(bv, p0.x + p0.squares[0].x, p0.y + extra + p0.squares[0].y));
                assert(piece@ =~= vres_s.0);
            }
        } else {
            proof {
                assert(!hits(bv, p0.x + p0.squares[0].x, p0.y + p0.squares[0].y));
            }
            piece.top_left.y = piece.top_left.y + 1;
            proof {
                assert(piece@ =~= (PieceV { y: p0.y + 1, ..p0 }));
            }
            if crate::board::does_collide(&piece, &self.board_pieces) {
                piece.top_left.y = piece.top_left.y - 1;
                proof {
                    assert(piece@ =~= vres_s.0);
                }
            } else {
                did_move = true;
                proof {
                    assert(piece@ =~= vres_s.0);
                }
            }
        }
        let ghost p1v = vres_s.0;
        proof {
            assert(piece@ == p1v);
            assert(did_move == vres_s.1);
            assert(piece_wf(p1v) && !collides(bv, p1v));
        }
        let ghost hres_s = if s0.x_to_move != 0 {
            let dxg: int = if s0.x_to_move > 0 {
                1
            } else {
                -1
            };
            if !collides_at(bv, p1v.x + dxg, p1v.y, p1v.squares) {
                (PieceV { x: p1v.x + dxg, ..p1v }, true)
            } else {
                (p1v, false)
            }
        } else {
            (p1v, false)
        };

        if self.x_to_move != 0 {
            let dx: i32 = if self.x_to_move > 0 {
                1
            } else {
                -1
            };
            self.x_to_move = 0;
            proof {
                assert(!hits(bv, p1v.x + p1v.squares[0].x, p1v.y + p1v.squares[0].y));
            }
            piece.top_left.x = piece.top_left.x + dx;
            proof {
                assert(piece@ =~= (PieceV { x: p1v.x + dx as int, ..p1v }));
            }
            if crate::board::does_collide(&piece, &self.board_pieces) {
                piece.top_left.x = piece.top_left.x - dx;
                proof {
                    assert(piece@ =~= hres_s.0);
                }
            } else {
                did_move = true;
                proof {
                    assert(piece@ =~= hres_s.0);
                }
            }
        }
        let ghost p2v = hres_s.0;
        proof {
            assert(piece@ == p2v);
            assert(did_move == (vres_s.1 || hres_s.1));
            assert(piece_wf(p2v) && !collides(bv, p2v));
        }

        let ghost n0: nat = if s0.rotations_to_perform >= 0 {
            s0.rotations_to_perform as nat
        } else {
            (-s0.rotations_to_perform) as nat
        };
        let ghost cw0 = s0.rotations_to_perform > 0;
        let ghost dm2 = did_move;
        let ghost target = rot_phase(p2v.squares, p2v.size, p2v.x, p2v.y, bv, n0, cw0);
        while self.rotations_to_perform != 0
            invariant
                piece_wf(piece@),
                !collides(bv, piece@),
                bv == board_view(self.board_pieces@),
                self@.board == s0.board,
                self@.should_show_focus_banner == s0.should_show_focus_banner,
                self@.is_paused == s0.is_paused,
                self@.is_game_over == s0.is_game_over,
                self@.did_win == s0.did_win,
                self@.score == s0.score,
                self@.key_buff == s0.key_buff,
                self@.current_piece is None,
                self@.swapped_piece == s0.swapped_piece,
                self@.frames_between_updates == s0.frames_between_updates,
                self@.frames_until_update == s0.frames_until_update,
                self@.frames_to_wait == s0.frames_to_wait,
                self@.should_send_to_bottom == false,
                self@.should_swap_piece == s0.should_swap_piece,
                self@.x_to_move == 0,
                self@.frames_since_last_successful_move == (if s0.should_send_to_bottom {
                    FRAMES_BEFORE_WE_SEAL_MOVE as int
                } else {
                    s0.frames_since_last_successful_move
                }),
                0 <= self@.frames_since_last_successful_move <= FRAMES_BEFORE_WE_SEAL_MOVE,
                piece@.x == p2v.x,
                piece@.y == p2v.y,
                piece@.size == p2v.size,
                piece@.color == p2v.color,
                -7 <= self.rotations_to_perform <= 7,
                cw0 ==> self.rotations_to_perform >= 0,
                !cw0 ==> self.rotations_to_perform <= 0,
                target == ({
                    let m: nat = if self.rotations_to_perform >= 0 {
                        self.rotations_to_perform as nat
                    } else {
                        (-self.rotations_to_perform) as nat
                    };
                    let rec = rot_phase(piece@.squares, p2v.size, p2v.x, p2v.y, bv, m, cw0);
                    (rec.0, target.1)
                }),
                ({
                    let m: nat = if self.rotations_to_perform >= 0 {
                        self.rotations_to_perform as nat
                    } else {
                        (-self.rotations_to_perform) as nat
                    };
                    let rec = rot_phase(piece@.squares, p2v.size, p2v.x, p2v.y, bv, m, cw0);
                    (did_move || rec.1) == (dm2 || target.1)
                }),
            decreases (if self.rotations_to_perform >= 0 {
                self.rotations_to_perform as int
            } else {
                -(self.rotations_to_perform as int)
            }),
        {
            let ghost sq_pre = piece@.squares;
            let ghost m_pre: nat = if self.rotations_to_perform >= 0 {
                self.rotations_to_perform as nat
            } else {
                (-self.rotations_to_perform) as nat
            };
            let cw = self.rotations_to_perform > 0;
            if cw {
                self.rotations_to_perform = self.rotations_to_perform - 1;
            } else {
                self.rotations_to_perform = self.rotations_to_perform + 1;
            }
            if cw {
                piece.rotate_clockwise();
            } else {
                piece.rotate_counter_clockwise();
            }
            let ghost cand = piece@.squares;
            proof {
                if cw {
                    assert(cand == rot_seq_cw(sq_pre, p2v.size));
                } else {
                    assert(cand == rot_seq_ccw(sq_pre, p2v.size));
                }
            }
            if crate::board::does_collide(&piece, &self.board_pieces) {
                if cw {
                    piece.rotate_counter_clockwise();
                    proof {
                        crate::geom::lemma_rot_ccw_undoes_cw(sq_pre, p2v.size);
                        assert(piece@.squares == sq_pre);
                    }
                } else {
                    piece.rotate_clockwise();
                    proof {
                        crate::geom::lemma_rot_cw_undoes_ccw(sq_pre, p2v.size);
                        assert(piece@.squares == sq_pre);
                    }
                }
                proof {
                    assert(collides_at(bv, p2v.x, p2v.y, cand));
                    assert(rot_phase(sq_pre, p2v.size, p2v.x, p2v.y, bv, m_pre, cw0) == rot_phase(
                        piece@.squares,
                        p2v.size,
                        p2v.x,
                        p2v.y,
                        bv,
                        (m_pre - 1) as nat,
                        cw0,
                    ));
                }
            } else {
                did_move = true;
                proof {
                    assert(!collides_at(bv, p2v.x, p2v.y, cand));
                    let step = rot_phase(sq_pre, p2v.size, p2v.x, p2v.y, bv, m_pre, cw0);
                    let rec = rot_phase(cand, p2v.size, p2v.x, p2v.y, bv, (m_pre - 1) as nat, cw0);
                    assert(step.0 == rec.0 && step.1 == (true || rec.1));
                }
            }
        }
        proof {
            let rec0 = rot_phase(piece@.squares, p2v.size, p2v.x, p2v.y, bv, 0, cw0);
            assert(rec0.0 == piece@.squares && rec0.1 == false);
            assert(piece@.squares == target.0);
            assert(did_move == (dm2 || target.1));
        }

        if did_move {
            self.frames_since_last_successful_move = 0;
        } else {
            self.frames_since_last_successful_move = self.frames_since_last_successful_move + 1;
        }
        self.current_piece = Some(piece);
        proof {
            assert(final(self)@ =~= move_step(s0));
        }
    }

    /// One piece update: the purgatory flash counts down; a pending
    /// swap is performed; with no piece in play the full rows clear and
    /// a random piece spawns (or the game tops out); a piece past its
    /// lock delay merges; otherwise the piece moves. The result is
    /// `update_spec` of the old state at some shape index below five.
    pub fn update(&mut self)
        requires
            wf_base(old(self)@),
            !effectively_paused_v(old(self)@),
            -1 <= old(self)@.x_to_move <= 1,
            old(self)@.current_piece is Some ==> -1 <= old(self)@.rotations_to_perform <= 1,
            old(self)@.current_piece is None ==> -7 <= old(self)@.rotations_to_perform <= 7,
        ensures
            exists|k: int| 0 <= k < 5 && final(self)@ == #[trigger] update_spec(old(self)@, k),
            wf_base(final(self)@),
    {
        let ghost s0 = old(self)@;
        if self.frames_to_wait > 0 {
            self.frames_to_wait = self.frames_to_wait - 1;
            proof {
                assert(self@ =~= update_spec(s0, 0));
            }
            return;
        }
        if self.should_swap_piece {
            self.apply_swap();
        }
        let ghost s1 = if s0.should_swap_piece {
            swap_step(s0)
        } else {
            s0
        };
        proof {
            assert(self@ == s1);
        }
        if self.is_game_over {
            proof {
                assert(self@ =~= update_spec(s0, 0));
            }
            return;
        }
        if self.current_piece.is_none() {
            crate::board::clear_full_rows(&mut self.board_pieces);
            let ghost s2pre = clear_step(s1);
            proof {
                assert(self@ =~= s2pre);
            }
            let p = self.get_random_piece();
            let ghost kk = choose|k: int| 0 <= k < 5 && p@ == piece_template(k);
            self.frames_since_last_successful_move = 0;
            if crate::board::does_collide(&p, &self.board_pieces) {
                self.is_game_over = true;
                proof {
                    assert(self@ =~= spawn_step(s2pre, kk));
                    assert(self@ =~= update_spec(s0, kk));
                }
                return;
            }
            self.current_piece = Some(p);
            proof {
                assert(self@ =~= spawn_step(s2pre, kk));
            }
            self.move_phase();
            proof {
                assert(self@ =~= update_spec(s0, kk));
            }
        } else if self.frames_since_last_successful_move > FRAMES_BEFORE_WE_SEAL_MOVE {
            self.merge_current();
            proof {
                assert(self@ =~= update_spec(s0, 0));
            }
        } else {
            self.move_phase();
            proof {
                assert(self@ =~= update_spec(s0, 0));
            }
        }
    }

    /// One frame: the pre-processing pass always runs; unless the state
    /// is effectively paused, the movement countdown advances, and on
    /// the frames where it reaches zero one key is dispatched and one
    /// piece update runs. The result is `tick_spec` of the old state at
    /// some shape index below five.
    pub fn tick(&mut self)
        requires
            wf(old(self)@),
        ensures
            exists|k: int| 0 <= k < 5 && final(self)@ == #[trigger] tick_spec(old(self)@, k),
            wf(final(self)@),
    {
        let ghost s0 = old(self)@;
        self.pre_process_keys();
        let ghost s1 = pre_process_v(s0);
        if !self.effectively_paused() {
            if self.frames_until_update == 0 {
                self.process_key();
                let ghost s2 = process_key_v(s1);
                proof {
                    assert(self@ == s2);
                    assert(!effectively_paused_v(s2));
                }
                self.update();
                let ghost after = self@;
                self.frames_until_update = MIN_SPEED;
                self.frames_until_update = self.frames_until_update - 1;
                proof {
                    let k = choose|k: int| 0 <= k < 5 && after == update_spec(s2, k);
                    lemma_update_acc(s1, k);
                    assert(self@ =~= tick_spec(s0, k));
                    assert(acc_ok(self@));
                }
            } else {
                self.frames_until_update = self.frames_until_update - 1;
                proof {
                    assert(self@ =~= tick_spec(s0, 0));
                }
            }
        } else {
            proof {
                assert(self@ =~= tick_spec(s0, 0));
            }
        }
    }

    /// A uniformly random piece at its spawn position: one of the five
    /// shape templates.
    pub fn get_random_piece(&mut self) -> (p: Piece)
        ensures
            exists|k: int| 0 <= k < 5 && p@ == piece_template(k),
            piece_wf(p@),
            final(self)@ == old(self)@,
    {
        let k = rng::next_piece_index(&mut self.rng);
        let p = crate::piece::piece_from_kind(k);
        proof {
            assert(p@ == piece_template(k as int));
        }
        p
    }
}

/// The accumulator bounds survive one dispatch-and-update round: every
/// update path either drains the accumulators (a piece moved), keeps
/// them within the loosened bound of a waiting state, or freezes them
/// behind a game over.
proof fn lemma_update_acc(s1: GameV, k: int)
    requires
        wf(s1),
        !effectively_paused_v(s1),
        0 <= k < 5,
    ensures
        acc_ok(update_spec(process_key_v(s1), k)),
{
    let s2 = process_key_v(s1);
    let u = update_spec(s2, k);
    if s2.frames_to_wait > 0 {
    } else {
        let t1 = if s2.should_swap_piece {
            swap_step(s2)
        } else {
            s2
        };
        if t1.is_game_over {
        } else if t1.current_piece is None {
            let t2 = spawn_step(clear_step(t1), k);
            if t2.current_piece is Some {
                assert(u == move_step(t2));
            }
        } else if t1.frames_since_last_successful_move > FRAMES_BEFORE_WE_SEAL_MOVE {
            assert(u == merge_step(t1));
        } else {
            assert(u == move_step(t1));
        }
    }
}

} // verus!
