use vstd::prelude::*;

verus! {

/// A position or offset on the cell grid, in whole cells.
#[derive(Clone, Copy, Debug, PartialEq, Eq, Structural)]
pub struct Vector2D {
    pub x: i32,
    pub y: i32,
}

/// Mathematical counterpart of `Vector2D`, over unbounded integers.
pub struct Coord {
    pub x: int,
    pub y: int,
}

impl View for Vector2D {
    type V = Coord;

    open spec fn view(&self) -> Coord {
        Coord { x: self.x as int, y: self.y as int }
    }
}

/// One clockwise quarter-turn of an offset inside a bounding box of the
/// given size: flip about the horizontal axis, then swap the axes.
pub open spec fn rot_cw(v: Coord, size: int) -> Coord {
    Coord { x: size - 1 - v.y, y: v.x }
}

/// One counter-clockwise quarter-turn: flip about the vertical axis,
/// then swap the axes.
pub open spec fn rot_ccw(v: Coord, size: int) -> Coord {
    Coord { x: v.y, y: size - 1 - v.x }
}

/// All offsets of a shape turned one quarter-turn clockwise.
pub open spec fn rot_seq_cw(s: Seq<Coord>, size: int) -> Seq<Coord> {
    s.map_values(|v: Coord| rot_cw(v, size))
}

/// All offsets of a shape turned one quarter-turn counter-clockwise.
pub open spec fn rot_seq_ccw(s: Seq<Coord>, size: int) -> Seq<Coord> {
    s.map_values(|v: Coord| rot_ccw(v, size))
}

/// A counter-clockwise quarter-turn undoes a clockwise one, for any
/// offset set and any bounding-box size.
pub proof fn lemma_rot_ccw_undoes_cw(s: Seq<Coord>, size: int)
    ensures
        rot_seq_ccw(rot_seq_cw(s, size), size) == s,
{
    assert(rot_seq_ccw(rot_seq_cw(s, size), size) =~= s);
}

/// A clockwise quarter-turn undoes a counter-clockwise one, for any
/// offset set and any bounding-box size.
pub proof fn lemma_rot_cw_undoes_ccw(s: Seq<Coord>, size: int)
    ensures
        rot_seq_cw(rot_seq_ccw(s, size), size) == s,
{
    assert(rot_seq_cw(rot_seq_ccw(s, size), size) =~= s);
}

/// Four clockwise quarter-turns return every offset set to itself.
pub proof fn lemma_rot_cw_four_times_identity(s: Seq<Coord>, size: int)
    ensures
        rot_seq_cw(rot_seq_cw(rot_seq_cw(rot_seq_cw(s, size), size), size), size) == s,
{
    assert(rot_seq_cw(rot_seq_cw(rot_seq_cw(rot_seq_cw(s, size), size), size), size) =~= s);
}

/// Four counter-clockwise quarter-turns return every offset set to itself.
pub proof fn lemma_rot_ccw_four_times_identity(s: Seq<Coord>, size: int)
    ensures
        rot_seq_ccw(rot_seq_ccw(rot_seq_ccw(rot_seq_ccw(s, size), size), size), size) == s,
{
    assert(rot_seq_ccw(rot_seq_ccw(rot_seq_ccw(rot_seq_ccw(s, size), size), size), size) =~= s);
}

} // verus!
