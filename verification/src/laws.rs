use vstd::prelude::*;

use crate::board::{collides, collides_at, drop_offset, is_drop_offset, CellV};
use crate::piece::{piece_wf, PieceV};
use crate::state::{
    handle_key_v, move_step, pre_process_v, swap_step, GameV, Key, wf_base,
};
use crate::{FRAMES_BEFORE_WE_SEAL_MOVE, MAX_KEY_BUFF_LEN, NUM_ROWS};

verus! {

/// Every valid, collision-free piece has a hard-drop distance: some
/// number of downward steps is collision-free and one more collides.
pub proof fn lemma_drop_offset_exists(b: Seq<Seq<CellV>>, p: PieceV)
    requires
        piece_wf(p),
        !collides(b, p),
    ensures
        is_drop_offset(b, p, drop_offset(b, p)),
    decreases NUM_ROWS - p.y,
{
    assert(!crate::board::hits(b, p.x + p.squares[0].x, p.y + p.squares[0].y));
    if collides_at(b, p.x, p.y + 1, p.squares) {
        assert(is_drop_offset(b, p, 0));
        assert(exists|r: int| is_drop_offset(b, p, r));
    } else {
        let q = PieceV { y: p.y + 1, ..p };
        assert(!collides(b, q));
        lemma_drop_offset_exists(b, q);
        let r = drop_offset(b, q);
        assert(is_drop_offset(b, q, r));
        assert forall|k: int|
            0 <= k <= r + 1 implies !(#[trigger] collides_at(b, p.x, p.y + k, p.squares)) by {
            if k >= 1 {
                assert(!collides_at(b, q.x, q.y + (k - 1), q.squares));
            }
        }
        assert(collides_at(b, q.x, q.y + r + 1, q.squares));
        assert(is_drop_offset(b, p, r + 1));
        assert(exists|rr: int| is_drop_offset(b, p, rr));
    }
}

/// The hard-drop law: from any legal position, the movement pass with a
/// pending hard drop and no other pending action puts the piece exactly
/// at the row the interception calculation names, and forces the
/// lock-delay counter past its threshold at once.
pub proof fn lemma_hard_drop_matches_interception(s: GameV)
    requires
        wf_base(s),
        s.current_piece is Some,
        s.should_send_to_bottom,
        s.x_to_move == 0,
        s.rotations_to_perform == 0,
    ensures
        ({
            let p = s.current_piece.unwrap();
            let dropped = move_step(s).current_piece.unwrap();
            &&& is_drop_offset(s.board, p, drop_offset(s.board, p))
            &&& dropped == (PieceV { y: p.y + drop_offset(s.board, p), ..p })
            &&& move_step(s).frames_since_last_successful_move == FRAMES_BEFORE_WE_SEAL_MOVE + 1
        }),
{
    let p = s.current_piece.unwrap();
    lemma_drop_offset_exists(s.board, p);
    assert(move_step(s).current_piece.unwrap() =~= (PieceV {
        y: p.y + drop_offset(s.board, p),
        ..p
    }));
}

/// The key-buffer law: the buffer never exceeds its capacity, and a key
/// arriving at a full buffer changes nothing at all.
pub proof fn lemma_key_buffer_bounded(s: GameV, key: Key)
    requires
        s.key_buff.len() <= MAX_KEY_BUFF_LEN,
    ensures
        handle_key_v(s, key).key_buff.len() <= MAX_KEY_BUFF_LEN,
        s.key_buff.len() == MAX_KEY_BUFF_LEN ==> handle_key_v(s, key) == s,
{
}

/// The swap law: swapping twice in a row, with no piece placed in
/// between and no top-out on either exchange, returns the original
/// piece to play with its row reset to 0, the board untouched.
pub proof fn lemma_swap_twice(s: GameV)
    requires
        wf_base(s),
        !s.is_game_over,
        s.frames_to_wait == 0,
        s.should_swap_piece,
        (s.current_piece matches Some(p) ==> !collides(s.board, PieceV { y: 0, ..p })),
        (s.swapped_piece matches Some(h) ==> !collides(s.board, PieceV { y: 0, ..h })),
    ensures
        ({
            let twice = swap_step(GameV { should_swap_piece: true, ..swap_step(s) });
            &&& twice.current_piece == (match s.current_piece {
                Some(p) => Some(PieceV { y: 0, ..p }),
                None => None::<PieceV>,
            })
            &&& twice.board == s.board
            &&& !twice.is_game_over
        }),
{
}

/// The pause law: a leading pause key flips the pause flag while the
/// game is not over; after a game over it restores score, board, pieces
/// and the game-over flags to their initial values instead.
pub proof fn lemma_pause_toggle(s: GameV)
    requires
        s.key_buff.len() > 0,
        s.key_buff[0] == Key::PauseOrRestart,
    ensures
        !s.is_game_over ==> pre_process_v(s).is_paused == !s.is_paused,
        s.is_game_over ==> ({
            let r = pre_process_v(s);
            &&& r.score == 0
            &&& r.board == Seq::<Seq<CellV>>::empty()
            &&& r.current_piece is None
            &&& r.swapped_piece is None
            &&& !r.is_game_over
            &&& !r.did_win
            &&& r.is_paused == s.is_paused
        }),
{
}

} // verus!
