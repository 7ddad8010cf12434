use vstd::prelude::*;

use crate::geom::{rot_seq_ccw, rot_seq_cw, Coord, Vector2D};
use crate::{NUM_COLS, NUM_ROWS};

verus! {

/// Colour tag of a piece or locked cell. Mapping colours to a concrete
/// paint is the renderer's concern.
#[derive(Clone, Copy, Debug, PartialEq, Eq, Structural)]
pub enum Color {
    Blue,
    White,
    Green,
    Red,
    Orange,
}

/// A falling tetromino: a top-left anchor, a square bounding box, four
/// cell offsets relative to the anchor, and a colour.
#[derive(Debug)]
pub struct Piece {
    pub top_left: Vector2D,
    pub size: i32,
    pub squares: Vec<Vector2D>,
    pub color: Color,
}

/// Mathematical counterpart of `Piece`.
#[verifier::ext_equal]
pub struct PieceV {
    pub x: int,
    pub y: int,
    pub size: int,
    pub squares: Seq<Coord>,
    pub color: Color,
}

impl View for Piece {
    type V = PieceV;

    open spec fn view(&self) -> PieceV {
        PieceV {
            x: self.top_left.x as int,
            y: self.top_left.y as int,
            size: self.size as int,
            squares: self.squares@.map_values(|v: Vector2D| v@),
            color: self.color,
        }
    }
}

/// Validity of a piece: a bounding box of side 2 to 4, exactly four
/// offsets, each inside the bounding box, and an anchor that stays close
/// enough to the field for all cell coordinates to be small.
pub open spec fn piece_wf(p: PieceV) -> bool {
    &&& 2 <= p.size <= 4
    &&& p.squares.len() == 4
    &&& forall|k: int|
        0 <= k < p.squares.len() ==> {
            &&& 0 <= (#[trigger] p.squares[k]).x < p.size
            &&& 0 <= p.squares[k].y < p.size
        }
    &&& forall|k1: int, k2: int|
        #![trigger p.squares[k1], p.squares[k2]]
        0 <= k1 < k2 < p.squares.len() ==> p.squares[k1] != p.squares[k2]
    &&& -4 <= p.x <= NUM_COLS
    &&& 0 <= p.y <= NUM_ROWS
}

/// The number of distinct piece shapes the generator chooses from.
pub const NUM_PIECE_KINDS: u8 = 5;

/// The fixed template of shape `k`: the line, the pyramid, the squiggle,
/// the reverse squiggle and the square, in that order, each with its
/// bounding-box size, colour, initial offsets and spawn anchor.
pub open spec fn piece_template(k: int) -> PieceV {
    if k == 0 {
        PieceV {
            x: NUM_COLS as int / 2 - 2,
            y: 0,
            size: 4,
            squares: seq![
                Coord { x: 0, y: 1 },
                Coord { x: 1, y: 1 },
                Coord { x: 2, y: 1 },
                Coord { x: 3, y: 1 },
            ],
            color: Color::Blue,
        }
    } else if k == 1 {
        PieceV {
            x: NUM_COLS as int / 2 - 2,
            y: 0,
            size: 3,
            squares: seq![
                Coord { x: 1, y: 0 },
                Coord { x: 0, y: 1 },
                Coord { x: 1, y: 1 },
                Coord { x: 2, y: 1 },
            ],
            color: Color::White,
        }
    } else if k == 2 {
        PieceV {
            x: NUM_COLS as int / 2 - 2,
            y: 0,
            size: 3,
            squares: seq![
                Coord { x: 1, y: 1 },
                Coord { x: 2, y: 1 },
                Coord { x: 0, y: 2 },
                Coord { x: 1, y: 2 },
            ],
            color: Color::Green,
        }
    } else if k == 3 {
        PieceV {
            x: NUM_COLS as int / 2 - 2,
            y: 0,
            size: 3,
            squares: seq![
                Coord { x: 1, y: 1 },
                Coord { x: 0, y: 1 },
                Coord { x: 2, y: 2 },
                Coord { x: 1, y: 2 },
            ],
            color: Color::Red,
        }
    } else {
        PieceV {
            x: NUM_COLS as int / 2 - 1,
            y: 0,
            size: 2,
            squares: seq![
                Coord { x: 0, y: 0 },
                Coord { x: 0, y: 1 },
                Coord { x: 1, y: 0 },
                Coord { x: 1, y: 1 },
            ],
            color: Color::Orange,
        }
    }
}

/// Builds the piece of shape `k` at its spawn position.
pub fn piece_from_kind(k: u8) -> (p: Piece)
    requires
        k < NUM_PIECE_KINDS,
    ensures
        p@ == piece_template(k as int),
        piece_wf(p@),
{
    let p = if k == 0 {
        Piece {
            top_left: Vector2D { x: NUM_COLS / 2 - 2, y: 0 },
            size: 4,
            squares: vec![
                Vector2D { x: 0, y: 1 },
                Vector2D { x: 1, y: 1 },
                Vector2D { x: 2, y: 1 },
                Vector2D { x: 3, y: 1 },
            ],
            color: Color::Blue,
        }
    } else if k == 1 {
        Piece {
            top_left: Vector2D { x: NUM_COLS / 2 - 2, y: 0 },
            size: 3,
            squares: vec![
                Vector2D { x: 1, y: 0 },
                Vector2D { x: 0, y: 1 },
                Vector2D { x: 1, y: 1 },
                Vector2D { x: 2, y: 1 },
            ],
            color: Color::White,
        }
    } else if k == 2 {
        Piece {
            top_left: Vector2D { x: NUM_COLS / 2 - 2, y: 0 },
            size: 3,
            squares: vec![
                Vector2D { x: 1, y: 1 },
                Vector2D { x: 2, y: 1 },
                Vector2D { x: 0, y: 2 },
                Vector2D { x: 1, y: 2 },
            ],
            color: Color::Green,
        }
    } else if k == 3 {
        Piece {
            top_left: Vector2D { x: NUM_COLS / 2 - 2, y: 0 },
            size: 3,
            squares: vec![
                Vector2D { x: 1, y: 1 },
                Vector2D { x: 0, y: 1 },
                Vector2D { x: 2, y: 2 },
                Vector2D { x: 1, y: 2 },
            ],
            color: Color::Red,
        }
    } else {
        Piece {
            top_left: Vector2D { x: NUM_COLS / 2 - 1, y: 0 },
            size: 2,
            squares: vec![
                Vector2D { x: 0, y: 0 },
                Vector2D { x: 0, y: 1 },
                Vector2D { x: 1, y: 0 },
                Vector2D { x: 1, y: 1 },
            ],
            color: Color::Orange,
        }
    };
    proof {
        assert(p@.squares =~= piece_template(k as int).squares);
        assert(p@ =~= piece_template(k as int));
    }
    p
}

impl Piece {
    /// Turns the offset set one quarter-turn clockwise in place:
    /// flip about the horizontal axis, then swap the axes.
    pub fn rotate_clockwise(&mut self)
        requires
            piece_wf(old(self)@),
        ensures
            final(self)@ == (PieceV { squares: rot_seq_cw(old(self)@.squares, old(self)@.size), ..old(self)@ }),
            piece_wf(final(self)@),
    {
        let ghost orig = *old(self);
        let size = self.size;
        let n = self.squares.len();
        let mut i: usize = 0;
        while i < n
            invariant
                piece_wf(orig@),
                n == 4,
                i <= n,
                size == orig.size,
                self.top_left == orig.top_left,
                self.size == orig.size,
                self.color == orig.color,
                self.squares@.len() == 4,
                forall|k: int| 0 <= k < i ==> #[trigger] self.squares@[k]@ == crate::geom::rot_cw(orig.squares@[k]@, size as int),
                forall|k: int| i <= k < 4 ==> #[trigger] self.squares@[k] == orig.squares@[k],
            decreases n - i,
        {
            let v = self.squares[i];
            proof {
                assert(v@ == orig@.squares[i as int]);
                assert(0 <= orig@.squares[i as int].y < orig@.size);
            }
            self.squares.set(i, Vector2D { x: size - 1 - v.y, y: v.x });
            i = i + 1;
        }
        proof {
            assert(self@.squares =~= rot_seq_cw(orig@.squares, orig@.size));
            assert forall|k1: int, k2: int|
                #![trigger self@.squares[k1], self@.squares[k2]]
                0 <= k1 < k2 < 4 implies self@.squares[k1] != self@.squares[k2] by {
                assert(orig@.squares[k1] != orig@.squares[k2]);
            }
        }
    }

    /// Turns the offset set one quarter-turn counter-clockwise in place:
    /// flip about the vertical axis, then swap the axes.
    pub fn rotate_counter_clockwise(&mut self)
        requires
            piece_wf(old(self)@),
        ensures
            final(self)@ == (PieceV { squares: rot_seq_ccw(old(self)@.squares, old(self)@.size), ..old(self)@ }),
            piece_wf(final(self)@),
    {
        let ghost orig = *old(self);
        let size = self.size;
        let n = self.squares.len();
        let mut i: usize = 0;
        while i < n
            invariant
                piece_wf(orig@),
                n == 4,
                i <= n,
                size == orig.size,
                self.top_left == orig.top_left,
                self.size == orig.size,
                self.color == orig.color,
                self.squares@.len() == 4,
                forall|k: int| 0 <= k < i ==> #[trigger] self.squares@[k]@ == crate::geom::rot_ccw(orig.squares@[k]@, size as int),
                forall|k: int| i <= k < 4 ==> #[trigger] self.squares@[k] == orig.squares@[k],
            decreases n - i,
        {
            let v = self.squares[i];
            proof {
                assert(v@ == orig@.squares[i as int]);
                assert(0 <= orig@.squares[i as int].x < orig@.size);
            }
            self.squares.set(i, Vector2D { x: v.y, y: size - 1 - v.x });
            i = i + 1;
        }
        proof {
            assert(self@.squares =~= rot_seq_ccw(orig@.squares, orig@.size));
            assert forall|k1: int, k2: int|
                #![trigger self@.squares[k1], self@.squares[k2]]
                0 <= k1 < k2 < 4 implies self@.squares[k1] != self@.squares[k2] by {
                assert(orig@.squares[k1] != orig@.squares[k2]);
            }
        }
    }
}

} // verus!
