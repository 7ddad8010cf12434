use vstd::prelude::*;

use crate::geom::{Coord, Vector2D};
use crate::piece::{piece_wf, Color, Piece, PieceV};
use crate::{NUM_COLS, NUM_ROWS};

verus! {

/// One locked cell of the board: its grid position, its colour, and the
/// purgatory flag that marks a cell of a just-completed row awaiting
/// removal.
#[derive(Clone, Copy, Debug, PartialEq, Eq, Structural)]
pub struct Square {
    pub position: Vector2D,
    pub color: Color,
    pub purgatory: bool,
}

/// Mathematical counterpart of `Square`.
pub struct CellV {
    pub x: int,
    pub y: int,
    pub color: Color,
    pub purgatory: bool,
}

impl View for Square {
    type V = CellV;

    open spec fn view(&self) -> CellV {
        CellV {
            x: self.position.x as int,
            y: self.position.y as int,
            color: self.color,
            purgatory: self.purgatory,
        }
    }
}

/// The abstract contents of one row bucket.
pub open spec fn row_view(r: Seq<Square>) -> Seq<CellV> {
    r.map_values(|s: Square| s@)
}

/// The abstract contents of the whole board. Bucket `i` holds the cells
/// of the row with true coordinate `NUM_ROWS - i`.
pub open spec fn board_view(b: Seq<Vec<Square>>) -> Seq<Seq<CellV>> {
    b.map_values(|r: Vec<Square>| row_view(r@))
}

/// The abstract offsets of a piece's squares.
pub open spec fn offsets_view(s: Seq<Vector2D>) -> Seq<Coord> {
    s.map_values(|v: Vector2D| v@)
}

/// Well-formedness of the board: at most `NUM_ROWS + 1` buckets; every
/// cell sits in the bucket of its row (`y == NUM_ROWS - i`), inside the
/// column range, and never in bucket 0 (true rows stop at
/// `NUM_ROWS - 1`); and no two cells of a bucket share a column, so no
/// two cells of the board share a position.
pub open spec fn board_wf(b: Seq<Seq<CellV>>) -> bool {
    &&& b.len() <= NUM_ROWS + 1
    &&& forall|i: int, j: int|
        0 <= i < b.len() && 0 <= j < b[i].len() ==> {
            &&& (#[trigger] b[i][j]).y == NUM_ROWS - i
            &&& 0 <= b[i][j].x < NUM_COLS
            &&& 1 <= i
        }
    &&& forall|i: int, j1: int, j2: int|
        0 <= i < b.len() && 0 <= j1 < j2 < b[i].len() ==> (#[trigger] b[i][j1]).x != (#[trigger] b[i][j2]).x
}

/// Whether some locked cell of the board sits at `(x, y)`.
pub open spec fn occupied(b: Seq<Seq<CellV>>, x: int, y: int) -> bool {
    exists|i: int, j: int|
        0 <= i < b.len() && 0 <= j < b[i].len() && (#[trigger] b[i][j]).x == x && b[i][j].y == y
}

/// Whether the single cell `(x, y)` is out of the playing field or on a
/// locked cell. A cell above the field (`y < 0`) does not collide.
pub open spec fn hits(b: Seq<Seq<CellV>>, x: int, y: int) -> bool {
    ||| x < 0
    ||| x >= NUM_COLS
    ||| y >= NUM_ROWS
    ||| occupied(b, x, y)
}

/// Whether a shape with offsets `sqs`, anchored at `(tlx, tly)`, has any
/// colliding cell.
pub open spec fn collides_at(b: Seq<Seq<CellV>>, tlx: int, tly: int, sqs: Seq<Coord>) -> bool {
    exists|k: int| 0 <= k < sqs.len() && hits(b, tlx + (#[trigger] sqs[k]).x, tly + sqs[k].y)
}

/// Whether the piece, at its own position, has any colliding cell.
pub open spec fn collides(b: Seq<Seq<CellV>>, p: PieceV) -> bool {
    collides_at(b, p.x, p.y, p.squares)
}

/// `r` is the exact hard-drop distance of the piece: every downward
/// shift up to `r` is collision-free and the shift `r + 1` collides.
pub open spec fn is_drop_offset(b: Seq<Seq<CellV>>, p: PieceV, r: int) -> bool {
    &&& 0 <= r
    &&& forall|k: int| 0 <= k <= r ==> !(#[trigger] collides_at(b, p.x, p.y + k, p.squares))
    &&& collides_at(b, p.x, p.y + r + 1, p.squares)
}

/// The hard-drop distance of a piece on a board.
pub open spec fn drop_offset(b: Seq<Seq<CellV>>, p: PieceV) -> int {
    choose|r: int| is_drop_offset(b, p, r)
}

/// There is only one hard-drop distance: the row a hard drop reaches is
/// exactly the row the interception calculation returns.
pub proof fn lemma_drop_offset_unique(b: Seq<Seq<CellV>>, p: PieceV, r1: int, r2: int)
    requires
        is_drop_offset(b, p, r1),
        is_drop_offset(b, p, r2),
    ensures
        r1 == r2,
{
    if r1 < r2 {
        assert(!collides_at(b, p.x, p.y + (r1 + 1), p.squares));
    }
    if r2 < r1 {
        assert(!collides_at(b, p.x, p.y + (r2 + 1), p.squares));
    }
}

// ---------------------------------------------------------------------
// Collision detection
// ---------------------------------------------------------------------

/// Scans the board for a locked cell at `(x, y)`.
fn occupied_probe(board: &Vec<Vec<Square>>, x: i32, y: i32) -> (r: bool)
    ensures
        r == occupied(board_view(board@), x as int, y as int),
{
    let ghost bv = board_view(board@);
    let mut i: usize = 0;
    while i < board.len()
        invariant
            bv == board_view(board@),
            i <= board@.len(),
            forall|ii: int, jj: int|
                0 <= ii < i && 0 <= jj < bv[ii].len() ==> !((#[trigger] bv[ii][jj]).x == x && bv[ii][jj].y == y),
        decreases board@.len() - i,
    {
        let row = &board[i];
        let mut j: usize = 0;
        while j < row.len()
            invariant
                bv == board_view(board@),
                i < board@.len(),
                row@ == board@[i as int]@,
                j <= row@.len(),
                forall|jj: int| 0 <= jj < j ==> !((#[trigger] bv[i as int][jj]).x == x && bv[i as int][jj].y == y),
        decreases row@.len() - j,
        {
            let c = row[j];
            if c.position.x == x && c.position.y == y {
                proof {
                    assert(bv[i as int][j as int].x == x && bv[i as int][j as int].y == y);
                }
                return true;
            }
            j = j + 1;
        }
        i = i + 1;
    }
    false
}

/// Bridges piece validity to bounds on the raw offset vector.
proof fn lemma_piece_offsets_small(p: &Piece)
    requires
        piece_wf(p@),
    ensures
        forall|k: int|
            0 <= k < p.squares@.len() ==> 0 <= (#[trigger] p.squares@[k]).x <= 4 && 0 <= p.squares@[k].y <= 4,
{
    assert forall|k: int|
        0 <= k < p.squares@.len() implies 0 <= (#[trigger] p.squares@[k]).x <= 4 && 0 <= p.squares@[k].y
        <= 4 by {
        assert(p@.squares[k] == p.squares@[k]@);
        assert(0 <= p@.squares[k].x < p@.size);
    }
}

/// Collision test for a shape anchored at `(tlx, tly)`; the workhorse
/// behind `does_collide` and the interception calculation.
fn collide_probe(board: &Vec<Vec<Square>>, tlx: i32, tly: i32, squares: &Vec<Vector2D>) -> (r: bool)
    requires
        -8 <= tlx <= NUM_COLS + 8,
        -8 <= tly <= 2 * NUM_ROWS + 8,
        forall|k: int|
            0 <= k < squares@.len() ==> {
                &&& 0 <= (#[trigger] squares@[k]).x <= 4
                &&& 0 <= squares@[k].y <= 4
            },
    ensures
        r == collides_at(board_view(board@), tlx as int, tly as int, offsets_view(squares@)),
{
    let ghost bv = board_view(board@);
    let ghost sqs = offsets_view(squares@);
    let mut k: usize = 0;
    while k < squares.len()
        invariant
            bv == board_view(board@),
            sqs == offsets_view(squares@),
            -8 <= tlx <= NUM_COLS + 8,
            -8 <= tly <= 2 * NUM_ROWS + 8,
            forall|t: int|
                0 <= t < squares@.len() ==> {
                    &&& 0 <= (#[trigger] squares@[t]).x <= 4
                    &&& 0 <= squares@[t].y <= 4
                },
            k <= squares@.len(),
            forall|t: int| 0 <= t < k ==> !hits(bv, tlx + (#[trigger] sqs[t]).x, tly + sqs[t].y),
        decreases squares@.len() - k,
    {
        let s = squares[k];
        let x = tlx + s.x;
        let y = tly + s.y;
        proof {
            assert(sqs[k as int] == squares@[k as int]@);
        }
        if x < 0 || x >= NUM_COLS {
            proof {
                assert(hits(bv, tlx as int + sqs[k as int].x, tly as int + sqs[k as int].y));
            }
            return true;
        }
        if y >= NUM_ROWS {
            proof {
                assert(hits(bv, tlx as int + sqs[k as int].x, tly as int + sqs[k as int].y));
            }
            return true;
        }
        if occupied_probe(board, x, y) {
            proof {
                assert(hits(bv, tlx as int + sqs[k as int].x, tly as int + sqs[k as int].y));
            }
            return true;
        }
        k = k + 1;
    }
    false
}

/// The single source of truth for validity: true exactly when some cell
/// of the piece leaves the column range, reaches the floor row range, or
/// lands on a locked cell.
pub fn does_collide(piece: &Piece, board: &Vec<Vec<Square>>) -> (r: bool)
    requires
        piece_wf(piece@),
    ensures
        r == collides(board_view(board@), piece@),
{
    proof {
        lemma_piece_offsets_small(piece);
    }
    collide_probe(board, piece.top_left.x, piece.top_left.y, &piece.squares)
}

/// How far below its current position the piece would come to rest:
/// the largest collision-free downward shift. Operates on a ghost copy
/// only; the piece itself is untouched.
pub fn get_interception_point(piece: &Piece, board: &Vec<Vec<Square>>) -> (extra: i32)
    requires
        piece_wf(piece@),
        !collides(board_view(board@), piece@),
    ensures
        is_drop_offset(board_view(board@), piece@, extra as int),
        0 <= extra < NUM_ROWS,
{
    let ghost bv = board_view(board@);
    let mut extra: i32 = 0;
    proof {
        lemma_piece_offsets_small(piece);
        assert(piece@.squares[0] == offsets_view(piece.squares@)[0]);
    }
    while !collide_probe(board, piece.top_left.x, piece.top_left.y + extra + 1, &piece.squares)
        invariant
            piece_wf(piece@),
            forall|k: int|
                0 <= k < piece.squares@.len() ==> 0 <= (#[trigger] piece.squares@[k]).x <= 4
                    && 0 <= piece.squares@[k].y <= 4,
            bv == board_view(board@),
            piece@.squares == offsets_view(piece.squares@),
            0 <= extra,
            piece@.y + extra < NUM_ROWS,
            forall|k: int| 0 <= k <= extra ==> !(#[trigger] collides_at(bv, piece@.x, piece@.y + k, piece@.squares)),
        ensures
            0 <= extra,
            piece@.y + extra < NUM_ROWS,
            forall|k: int| 0 <= k <= extra ==> !(#[trigger] collides_at(bv, piece@.x, piece@.y + k, piece@.squares)),
            collides_at(bv, piece@.x, piece@.y + extra + 1, piece@.squares),
        decreases NUM_ROWS - piece@.y - extra,
    {
        extra = extra + 1;
        proof {
            assert(!collides_at(bv, piece@.x, piece@.y + extra, piece@.squares));
            assert(piece@.y + extra + piece@.squares[0].y < NUM_ROWS) by {
                assert(!hits(bv, piece@.x + piece@.squares[0].x, piece@.y + extra + piece@.squares[0].y));
            }
        }
    }
    extra
}

// ---------------------------------------------------------------------
// Merging a locked piece into the board
// ---------------------------------------------------------------------

/// The bucket index of the piece's cell `k`: buckets anchor row 0 at the
/// bottom, so a cell of row `y` lives in bucket `NUM_ROWS - y`.
pub open spec fn bucket_of(p: PieceV, k: int) -> int {
    NUM_ROWS - (p.y + p.squares[k].y)
}

/// The board cell that the piece's cell `k` becomes when the piece locks.
pub open spec fn piece_cell(p: PieceV, k: int) -> CellV {
    CellV { x: p.x + p.squares[k].x, y: p.y + p.squares[k].y, color: p.color, purgatory: false }
}

/// The board extended with empty buckets until it has at least `n`.
pub open spec fn pad_to(b: Seq<Seq<CellV>>, n: int) -> Seq<Seq<CellV>> {
    if b.len() >= n {
        b
    } else {
        b + Seq::new((n - b.len()) as nat, |t: int| Seq::<CellV>::empty())
    }
}

/// One cell appended to its bucket, missing buckets created on demand.
pub open spec fn place_cell(b: Seq<Seq<CellV>>, c: CellV) -> Seq<Seq<CellV>> {
    let ty = NUM_ROWS - c.y;
    let b1 = pad_to(b, ty + 1);
    b1.update(ty, b1[ty].push(c))
}

/// The first `n` cells of the piece merged into the board, in order.
pub open spec fn place_cells(b: Seq<Seq<CellV>>, p: PieceV, n: int) -> Seq<Seq<CellV>>
    decreases n,
{
    if n <= 0 {
        b
    } else {
        place_cell(place_cells(b, p, n - 1), piece_cell(p, n - 1))
    }
}

/// Whether one of the piece's first `n` cells lies in bucket `i`.
pub open spec fn touched_prefix(p: PieceV, n: int, i: int) -> bool {
    exists|k: int| 0 <= k < n && #[trigger] bucket_of(p, k) == i
}

/// Whether one of the piece's cells lies in bucket `i`.
pub open spec fn touched(p: PieceV, i: int) -> bool {
    touched_prefix(p, p.squares.len() as int, i)
}

/// A row with every cell sent to purgatory.
pub open spec fn flag_row(r: Seq<CellV>) -> Seq<CellV> {
    r.map_values(|c: CellV| CellV { purgatory: true, ..c })
}

/// Every full row among the buckets the piece touched, flagged.
pub open spec fn flag_full_rows(b: Seq<Seq<CellV>>, p: PieceV) -> Seq<Seq<CellV>> {
    Seq::new(
        b.len(),
        |i: int|
            if touched(p, i) && b[i].len() == NUM_COLS {
                flag_row(b[i])
            } else {
                b[i]
            },
    )
}

/// The board after the piece locks: its cells merged, then every full
/// row among the touched buckets flagged.
pub open spec fn merged_board(b: Seq<Seq<CellV>>, p: PieceV) -> Seq<Seq<CellV>> {
    flag_full_rows(place_cells(b, p, 4), p)
}

/// Whether locking the piece completes at least one row.
pub open spec fn completes_row(b: Seq<Seq<CellV>>, p: PieceV) -> bool {
    exists|k: int|
        0 <= k < 4 && place_cells(b, p, 4)[#[trigger] bucket_of(p, k)].len() == NUM_COLS
}

/// The cells of the piece among the first `n` that lie in bucket `i`,
/// in the order they are merged.
pub open spec fn piece_row(p: PieceV, n: int, i: int) -> Seq<CellV>
    decreases n,
{
    if n <= 0 {
        Seq::empty()
    } else {
        let rest = piece_row(p, n - 1, i);
        if bucket_of(p, n - 1) == i {
            rest.push(piece_cell(p, n - 1))
        } else {
            rest
        }
    }
}

/// Bucket `i` of the board, or an empty row beyond the buckets held.
pub open spec fn base_row(b: Seq<Seq<CellV>>, i: int) -> Seq<CellV> {
    if 0 <= i < b.len() {
        b[i]
    } else {
        Seq::empty()
    }
}

/// Every cell that merging puts into bucket `i` is a cell of the piece
/// in that bucket, valid and unflagged, and no two share a column.
pub proof fn lemma_piece_row_cells(b: Seq<Seq<CellV>>, p: PieceV, n: int, i: int)
    requires
        piece_wf(p),
        !collides(b, p),
        0 <= n <= 4,
    ensures
        forall|t: int|
            0 <= t < piece_row(p, n, i).len() ==> exists|k: int|
                0 <= k < n && bucket_of(p, k) == i && #[trigger] piece_row(p, n, i)[t] == piece_cell(p, k),
        forall|t: int|
            0 <= t < piece_row(p, n, i).len() ==> {
                &&& (#[trigger] piece_row(p, n, i)[t]).y == NUM_ROWS - i
                &&& 0 <= piece_row(p, n, i)[t].x < NUM_COLS
                &&& !piece_row(p, n, i)[t].purgatory
            },
        forall|t1: int, t2: int|
            0 <= t1 < t2 < piece_row(p, n, i).len() ==> (#[trigger] piece_row(p, n, i)[t1]).x != (
            #[trigger] piece_row(p, n, i)[t2]).x,
    decreases n,
{
    if n > 0 {
        lemma_piece_row_cells(b, p, n - 1, i);
        if bucket_of(p, n - 1) == i {
            assert(!hits(b, p.x + p.squares[n - 1].x, p.y + p.squares[n - 1].y));
            let r = piece_row(p, n, i);
            let last = r.len() - 1;
            assert(r[last] == piece_cell(p, n - 1));
            assert forall|t1: int| 0 <= t1 < last implies (#[trigger] r[t1]).x != r[last].x by {
                let k = choose|k: int|
                    0 <= k < n - 1 && bucket_of(p, k) == i && piece_row(p, n - 1, i)[t1]
                        == piece_cell(p, k);
                assert(p.squares[k] != p.squares[n - 1]);
                assert(p.squares[k].y == p.squares[n - 1].y);
            }
        }
    }
}

/// After merging the first `n` cells, every bucket holds its old cells
/// followed by the piece's cells for that bucket, and every touched
/// bucket exists.
pub proof fn lemma_place_cells_shape(b: Seq<Seq<CellV>>, p: PieceV, n: int)
    requires
        piece_wf(p),
        !collides(b, p),
        board_wf(b),
        0 <= n <= 4,
    ensures
        b.len() <= place_cells(b, p, n).len() <= NUM_ROWS + 1,
        forall|k: int| 0 <= k < n ==> 1 <= #[trigger] bucket_of(p, k) < place_cells(b, p, n).len(),
        forall|i: int|
            0 <= i < place_cells(b, p, n).len() ==> #[trigger] place_cells(b, p, n)[i] == base_row(
                b,
                i,
            ) + piece_row(p, n, i),
    decreases n,
{
    if n == 0 {
        assert forall|i: int|
            0 <= i < place_cells(b, p, n).len() implies #[trigger] place_cells(b, p, n)[i]
            == base_row(b, i) + piece_row(p, n, i) by {
            assert(base_row(b, i) + piece_row(p, n, i) =~= b[i]);
        }
    } else {
        lemma_place_cells_shape(b, p, n - 1);
        let r1 = place_cells(b, p, n - 1);
        let c = piece_cell(p, n - 1);
        let ty = NUM_ROWS - c.y;
        assert(!hits(b, p.x + p.squares[n - 1].x, p.y + p.squares[n - 1].y));
        assert(1 <= ty <= NUM_ROWS);
        let b2 = pad_to(r1, ty + 1);
        assert forall|i: int|
            0 <= i < b2.len() implies b2[i] == base_row(b, i) + piece_row(p, n - 1, i) by {
            if i >= r1.len() {
                lemma_piece_row_cells(b, p, n - 1, i);
                if piece_row(p, n - 1, i).len() > 0 {
                    let k = choose|k: int|
                        0 <= k < n - 1 && bucket_of(p, k) == i && piece_row(p, n - 1, i)[0]
                            == piece_cell(p, k);
                    assert(bucket_of(p, k) < r1.len());
                }
                assert(base_row(b, i) + piece_row(p, n - 1, i) =~= Seq::<CellV>::empty());
            }
        }
        assert(place_cells(b, p, n) == b2.update(ty, b2[ty].push(c)));
        assert forall|i: int|
            0 <= i < place_cells(b, p, n).len() implies #[trigger] place_cells(b, p, n)[i]
            == base_row(b, i) + piece_row(p, n, i) by {
            if i == ty {
                assert(piece_row(p, n, i) == piece_row(p, n - 1, i).push(c));
                assert((base_row(b, i) + piece_row(p, n - 1, i)).push(c) =~= base_row(b, i)
                    + piece_row(p, n, i));
            } else {
                assert(piece_row(p, n, i) == piece_row(p, n - 1, i));
            }
        }
    }
}

/// Merging a non-colliding valid piece keeps the board well-formed,
/// before and after the purgatory flagging.
pub proof fn lemma_merged_board_wf(b: Seq<Seq<CellV>>, p: PieceV)
    requires
        piece_wf(p),
        !collides(b, p),
        board_wf(b),
    ensures
        board_wf(place_cells(b, p, 4)),
        board_wf(merged_board(b, p)),
        merged_board(b, p).len() == place_cells(b, p, 4).len(),
        forall|i: int|
            0 <= i < merged_board(b, p).len() ==> (#[trigger] merged_board(b, p)[i]).len()
                == place_cells(b, p, 4)[i].len(),
{
    lemma_place_cells_shape(b, p, 4);
    let r = place_cells(b, p, 4);
    assert forall|i: int, j: int| 0 <= i < r.len() && 0 <= j < r[i].len() implies {
        &&& (#[trigger] r[i][j]).y == NUM_ROWS - i
        &&& 0 <= r[i][j].x < NUM_COLS
        &&& 1 <= i
    } by {
        lemma_piece_row_cells(b, p, 4, i);
        let base = base_row(b, i);
        if j < base.len() {
            assert(b[i][j].y == NUM_ROWS - i);
        } else {
            assert(r[i][j] == piece_row(p, 4, i)[j - base.len()]);
            let k = choose|k: int|
                0 <= k < 4 && bucket_of(p, k) == i && piece_row(p, 4, i)[j - base.len()]
                    == piece_cell(p, k);
            assert(1 <= bucket_of(p, k) < r.len());
        }
    }
    assert forall|i: int, j1: int, j2: int|
        0 <= i < r.len() && 0 <= j1 < j2 < r[i].len() implies (#[trigger] r[i][j1]).x != (
    #[trigger] r[i][j2]).x by {
        lemma_piece_row_cells(b, p, 4, i);
        let base = base_row(b, i);
        if j1 < base.len() && j2 >= base.len() {
            let t2 = j2 - base.len();
            assert(r[i][j2] == piece_row(p, 4, i)[t2]);
            let k = choose|k: int|
                0 <= k < 4 && bucket_of(p, k) == i && piece_row(p, 4, i)[t2] == piece_cell(p, k);
            if b[i][j1].x == r[i][j2].x {
                assert(b[i][j1].y == NUM_ROWS - i);
                assert(occupied(b, p.x + p.squares[k].x, p.y + p.squares[k].y));
                assert(hits(b, p.x + p.squares[k].x, p.y + p.squares[k].y));
                assert(collides_at(b, p.x, p.y, p.squares));
            }
        }
    }
    let m = merged_board(b, p);
    assert forall|i: int| 0 <= i < m.len() implies (#[trigger] m[i]).len() == r[i].len() by {
        if touched(p, i) && r[i].len() == NUM_COLS {
            assert(flag_row(r[i]).len() == r[i].len());
        }
    }
    assert forall|i: int, j: int| 0 <= i < m.len() && 0 <= j < m[i].len() implies {
        &&& (#[trigger] m[i][j]).y == NUM_ROWS - i
        &&& 0 <= m[i][j].x < NUM_COLS
        &&& 1 <= i
    } by {
        if touched(p, i) && r[i].len() == NUM_COLS {
            assert(m[i][j] == flag_row(r[i])[j]);
            assert(flag_row(r[i])[j].x == r[i][j].x);
        }
    }
    assert forall|i: int, j1: int, j2: int|
        0 <= i < m.len() && 0 <= j1 < j2 < m[i].len() implies (#[trigger] m[i][j1]).x != (
    #[trigger] m[i][j2]).x by {
        if touched(p, i) && r[i].len() == NUM_COLS {
            assert(m[i][j1].x == r[i][j1].x);
            assert(m[i][j2].x == r[i][j2].x);
        }
    }
}

/// Flagging a row twice flags it once.
pub proof fn lemma_flag_row_idempotent(r: Seq<CellV>)
    ensures
        flag_row(flag_row(r)) == flag_row(r),
{
    assert(flag_row(flag_row(r)) =~= flag_row(r));
}

/// Merges every cell of the piece into the board, bucketed by row, and
/// flags every touched row that is now full. Returns whether the lock
/// completed at least one row.
pub fn merge_piece_into(board: &mut Vec<Vec<Square>>, piece: &Piece) -> (any_full: bool)
    requires
        piece_wf(piece@),
        board_wf(board_view(old(board)@)),
        !collides(board_view(old(board)@), piece@),
    ensures
        board_view(final(board)@) == merged_board(board_view(old(board)@), piece@),
        any_full == completes_row(board_view(old(board)@), piece@),
        board_wf(board_view(final(board)@)),
{
    let ghost bv0 = board_view(board@);
    let ghost p = piece@;
    proof {
        lemma_merged_board_wf(bv0, p);
        lemma_place_cells_shape(bv0, p, 4);
        lemma_piece_offsets_small(piece);
    }
    let mut k: usize = 0;
    while k < 4
        invariant
            piece_wf(p),
            p == piece@,
            board_wf(bv0),
            !collides(bv0, p),
            forall|t: int|
                0 <= t < piece.squares@.len() ==> 0 <= (#[trigger] piece.squares@[t]).x <= 4 && 0
                    <= piece.squares@[t].y <= 4,
            k <= 4,
            board_view(board@) == place_cells(bv0, p, k as int),
        decreases 4 - k,
    {
        let ghost bk = place_cells(bv0, p, k as int);
        let x = piece.top_left.x + piece.squares[k].x;
        let y = piece.top_left.y + piece.squares[k].y;
        proof {
            assert(piece.squares@[k as int]@ == p.squares[k as int]);
            assert(!hits(bv0, p.x + p.squares[k as int].x, p.y + p.squares[k as int].y));
            assert(0 <= p.y + p.squares[k as int].y);
        }
        let ty = (NUM_ROWS - y) as usize;
        while board.len() <= ty
            invariant
                board@.len() >= bk.len(),
                ty + 1 <= NUM_ROWS + 1,
                bk.len() > ty ==> board@.len() == bk.len(),
                bk.len() <= ty ==> board@.len() <= ty + 1,
                board_view(board@) == pad_to(bk, board@.len() as int),
            decreases ty + 1 - board@.len(),
        {
            let ghost prevb = board@;
            board.push(Vec::new());
            proof {
                let l = board@.len() as int;
                assert(board@ == prevb.push(board@[l - 1]));
                assert(row_view(board@[l - 1]@) =~= Seq::<CellV>::empty());
                assert forall|i: int| 0 <= i < l implies board_view(board@)[i] == pad_to(bk, l)[i] by {
                    if i < l - 1 {
                        assert(board@[i] == prevb[i]);
                        assert(board_view(board@)[i] == board_view(prevb)[i]);
                        assert(board_view(prevb)[i] == pad_to(bk, l - 1)[i]);
                        if i >= bk.len() {
                            assert(pad_to(bk, l - 1)[i] =~= Seq::<CellV>::empty());
                            assert(pad_to(bk, l)[i] =~= Seq::<CellV>::empty());
                        }
                    } else {
                        assert(board_view(board@)[i] == row_view(board@[l - 1]@));
                        assert(i >= bk.len());
                        assert(pad_to(bk, l)[i] =~= Seq::<CellV>::empty());
                    }
                }
                assert(board_view(board@) =~~= pad_to(bk, l));
            }
        }
        proof {
            assert(board_view(board@) == pad_to(bk, ty + 1)) by {
                if bk.len() >= ty + 1 {
                    assert(pad_to(bk, board@.len() as int) == bk);
                    assert(pad_to(bk, ty + 1) == bk);
                } else {
                    assert(board@.len() == ty + 1);
                }
            }
        }
        let mut row: Vec<Square> = Vec::new();
        board.set_and_swap(ty, &mut row);
        row.push(
            Square { position: Vector2D { x, y }, color: piece.color, purgatory: false },
        );
        board.set_and_swap(ty, &mut row);
        proof {
            let c = piece_cell(p, k as int);
            assert(row_view(board@[ty as int]@) =~= pad_to(bk, ty + 1)[ty as int].push(c));
            assert(board_view(board@) =~~= place_cells(bv0, p, k as int + 1));
        }
        k = k + 1;
    }
    let ghost b1 = place_cells(bv0, p, 4);
    let mut any_full = false;
    let mut k2: usize = 0;
    while k2 < 4
        invariant
            piece_wf(p),
            p == piece@,
            board_wf(bv0),
            !collides(bv0, p),
            forall|t: int|
                0 <= t < piece.squares@.len() ==> 0 <= (#[trigger] piece.squares@[t]).x <= 4 && 0
                    <= piece.squares@[t].y <= 4,
            b1 == place_cells(bv0, p, 4),
            forall|t: int| 0 <= t < 4 ==> 1 <= #[trigger] bucket_of(p, t) < b1.len(),
            k2 <= 4,
            board@.len() == b1.len(),
            board_view(board@) == Seq::new(
                b1.len(),
                |i: int|
                    if touched_prefix(p, k2 as int, i) && b1[i].len() == NUM_COLS {
                        flag_row(b1[i])
                    } else {
                        b1[i]
                    },
            ),
            any_full == exists|t: int|
                0 <= t < k2 && b1[#[trigger] bucket_of(p, t)].len() == NUM_COLS,
        decreases 4 - k2,
    {
        let ghost before = board_view(board@);
        let y = piece.top_left.y + piece.squares[k2].y;
        proof {
            assert(piece.squares@[k2 as int]@ == p.squares[k2 as int]);
            assert(1 <= bucket_of(p, k2 as int) < b1.len());
        }
        let ty = (NUM_ROWS - y) as usize;
        let full = board[ty].len() == (NUM_COLS as usize);
        proof {
            assert(before[ty as int].len() == b1[ty as int].len());
        }
        if full {
            let mut row: Vec<Square> = Vec::new();
            board.set_and_swap(ty, &mut row);
            let ghost r0 = row_view(row@);
            let mut j: usize = 0;
            while j < row.len()
                invariant
                    r0.len() == row@.len(),
                    j <= row@.len(),
                    forall|t: int| 0 <= t < j ==> row_view(row@)[t] == flag_row(r0)[t],
                    forall|t: int| j <= t < row@.len() ==> row_view(row@)[t] == r0[t],
                decreases row@.len() - j,
            {
                let c = row[j];
                row.set(
                    j,
                    Square { position: c.position, color: c.color, purgatory: true },
                );
                j = j + 1;
            }
            proof {
                assert(row_view(row@) =~= flag_row(r0));
            }
            board.set_and_swap(ty, &mut row);
            any_full = true;
            proof {
                lemma_flag_row_idempotent(b1[ty as int]);
                assert(bucket_of(p, k2 as int) == ty as int);
                assert(touched_prefix(p, k2 as int + 1, ty as int));
                assert forall|i: int|
                    0 <= i < b1.len() implies board_view(board@)[i] == (
                if touched_prefix(p, k2 as int + 1, i) && b1[i].len() == NUM_COLS {
                    flag_row(b1[i])
                } else {
                    b1[i]
                }) by {
                    if i == ty as int {
                        assert(board_view(board@)[i] == flag_row(r0));
                        assert(r0 == before[i]);
                        if touched_prefix(p, k2 as int, i) {
                            assert(before[i] == flag_row(b1[i]));
                        } else {
                            assert(before[i] == b1[i]);
                        }
                    } else {
                        assert(board_view(board@)[i] == before[i]);
                        if touched_prefix(p, k2 as int + 1, i) && !touched_prefix(
                            p,
                            k2 as int,
                            i,
                        ) {
                            let t = choose|t: int| 0 <= t < k2 as int + 1 && bucket_of(p, t) == i;
                            assert(t == k2 as int);
                            assert(i == ty as int);
                        }
                    }
                }
                assert(board_view(board@) =~= Seq::new(
                    b1.len(),
                    |i: int|
                        if touched_prefix(p, k2 as int + 1, i) && b1[i].len() == NUM_COLS {
                            flag_row(b1[i])
                        } else {
                            b1[i]
                        },
                ));
                assert(b1[bucket_of(p, k2 as int)].len() == NUM_COLS);
            }
        } else {
            proof {
                assert forall|i: int| 0 <= i < b1.len() implies board_view(board@)[i] == (
                if touched_prefix(p, k2 as int + 1, i) && b1[i].len() == NUM_COLS {
                    flag_row(b1[i])
                } else {
                    b1[i]
                }) by {
                    if touched_prefix(p, k2 as int + 1, i) && !touched_prefix(p, k2 as int, i) {
                        assert(bucket_of(p, k2 as int) == i);
                        assert(b1[i].len() != NUM_COLS);
                    }
                }
                assert(board_view(board@) =~= Seq::new(
                    b1.len(),
                    |i: int|
                        if touched_prefix(p, k2 as int + 1, i) && b1[i].len() == NUM_COLS {
                            flag_row(b1[i])
                        } else {
                            b1[i]
                        },
                ));
            }
        }
        k2 = k2 + 1;
    }
    proof {
        assert(board_view(board@) =~= merged_board(bv0, p));
    }
    any_full
}

// ---------------------------------------------------------------------
// Clearing full rows
// ---------------------------------------------------------------------

/// The buckets that survive the clear pass: every bucket except the
/// full ones, in their original order.
pub open spec fn kept_rows(b: Seq<Seq<CellV>>) -> Seq<Seq<CellV>>
    decreases b.len(),
{
    if b.len() == 0 {
        Seq::empty()
    } else {
        let init = kept_rows(b.drop_last());
        if b.last().len() == NUM_COLS {
            init
        } else {
            init.push(b.last())
        }
    }
}

/// Row contents re-addressed to bucket `i`: every cell's row coordinate
/// follows the bucket it now sits in.
pub open spec fn readdress_row(r: Seq<CellV>, i: int) -> Seq<CellV> {
    r.map_values(|c: CellV| CellV { y: NUM_ROWS - i, ..c })
}

/// The board after the clear pass: full buckets deleted outright, the
/// remaining buckets closing the gaps, every cell following its bucket.
pub open spec fn cleared_board(b: Seq<Seq<CellV>>) -> Seq<Seq<CellV>> {
    Seq::new(kept_rows(b).len(), |i: int| readdress_row(kept_rows(b)[i], i))
}

/// Each surviving bucket is one of the original buckets, found at or
/// beyond its new place.
pub proof fn lemma_kept_rows_source(b: Seq<Seq<CellV>>)
    ensures
        kept_rows(b).len() <= b.len(),
        forall|t: int|
            0 <= t < kept_rows(b).len() ==> exists|i: int|
                t <= i < b.len() && #[trigger] kept_rows(b)[t] == b[i] && b[i].len() != NUM_COLS,
    decreases b.len(),
{
    if b.len() > 0 {
        lemma_kept_rows_source(b.drop_last());
        assert forall|t: int| 0 <= t < kept_rows(b).len() implies exists|i: int|
            t <= i < b.len() && #[trigger] kept_rows(b)[t] == b[i] && b[i].len() != NUM_COLS by {
            let init = kept_rows(b.drop_last());
            if t < init.len() {
                let i = choose|i: int|
                    t <= i < b.drop_last().len() && #[trigger] kept_rows(b.drop_last())[t]
                        == b.drop_last()[i] && b.drop_last()[i].len() != NUM_COLS;
                assert(kept_rows(b)[t] == b[i] && b[i].len() != NUM_COLS);
            } else {
                assert(kept_rows(b)[t] == b[b.len() - 1]);
            }
        }
    }
}

/// The bottom bucket survives a clear in place whenever it is not full;
/// in particular the always-empty bucket 0 stays first.
pub proof fn lemma_kept_rows_first(b: Seq<Seq<CellV>>)
    requires
        b.len() > 0,
        b[0].len() != NUM_COLS,
    ensures
        kept_rows(b).len() > 0,
        kept_rows(b)[0] == b[0],
    decreases b.len(),
{
    if b.len() > 1 {
        assert(b.drop_last()[0] == b[0]);
        lemma_kept_rows_first(b.drop_last());
    } else {
        assert(b.drop_last().len() == 0);
        assert(kept_rows(b.drop_last()) == Seq::<Seq<CellV>>::empty());
    }
}

/// A board without a full bucket is left whole by the clear pass.
pub proof fn lemma_kept_rows_no_full(b: Seq<Seq<CellV>>)
    requires
        forall|i: int| 0 <= i < b.len() ==> (#[trigger] b[i]).len() != NUM_COLS,
    ensures
        kept_rows(b) == b,
    decreases b.len(),
{
    if b.len() > 0 {
        lemma_kept_rows_no_full(b.drop_last());
        assert(kept_rows(b) =~= b);
    }
}

/// The clear pass keeps the board well-formed.
pub proof fn lemma_cleared_board_wf(b: Seq<Seq<CellV>>)
    requires
        board_wf(b),
    ensures
        board_wf(cleared_board(b)),
{
    lemma_kept_rows_source(b);
    let c = cleared_board(b);
    if b.len() > 0 {
        assert(b[0].len() == 0) by {
            if b[0].len() > 0 {
                assert(b[0][0].y == NUM_ROWS - 0);
                assert(b[0].len() == 0);
            }
        }
        lemma_kept_rows_first(b);
    }
    assert forall|i: int, j: int| 0 <= i < c.len() && 0 <= j < c[i].len() implies {
        &&& (#[trigger] c[i][j]).y == NUM_ROWS - i
        &&& 0 <= c[i][j].x < NUM_COLS
        &&& 1 <= i
    } by {
        let src = choose|s: int|
            i <= s < b.len() && #[trigger] kept_rows(b)[i] == b[s] && b[s].len() != NUM_COLS;
        assert(c[i][j] == readdress_row(kept_rows(b)[i], i)[j]);
        assert(c[i][j].x == b[src][j].x);
        if i == 0 {
            assert(kept_rows(b)[0] == b[0]);
        }
    }
    assert forall|i: int, j1: int, j2: int|
        0 <= i < c.len() && 0 <= j1 < j2 < c[i].len() implies (#[trigger] c[i][j1]).x != (
    #[trigger] c[i][j2]).x by {
        let src = choose|s: int|
            i <= s < b.len() && #[trigger] kept_rows(b)[i] == b[s] && b[s].len() != NUM_COLS;
        assert(c[i][j1].x == b[src][j1].x);
        assert(c[i][j2].x == b[src][j2].x);
    }
}

/// The line-clear law: a board whose only full bucket is `f` loses
/// exactly that bucket; the buckets below keep their place and cells,
/// and each bucket above moves down one place, its cells' row
/// coordinates growing by one.
pub proof fn lemma_clear_single_full_row(b: Seq<Seq<CellV>>, f: int)
    requires
        board_wf(b),
        0 <= f < b.len(),
        b[f].len() == NUM_COLS,
        forall|i: int| 0 <= i < b.len() && i != f ==> (#[trigger] b[i]).len() != NUM_COLS,
    ensures
        cleared_board(b).len() == b.len() - 1,
        forall|i: int| 0 <= i < f ==> #[trigger] cleared_board(b)[i] == b[i],
        forall|i: int|
            f <= i < b.len() - 1 ==> #[trigger] cleared_board(b)[i] == readdress_row(b[i + 1], i),
    decreases b.len(),
{
    lemma_kept_rows_remove_full(b, f);
    let c = cleared_board(b);
    assert forall|i: int| 0 <= i < f implies #[trigger] cleared_board(b)[i] == b[i] by {
        assert(kept_rows(b)[i] == b[i]);
        assert forall|j: int| 0 <= j < b[i].len() implies readdress_row(b[i], i)[j] == b[i][j] by {
            assert(b[i][j].y == NUM_ROWS - i);
        }
        assert(readdress_row(b[i], i) =~= b[i]);
    }
    assert forall|i: int|
        f <= i < b.len() - 1 implies #[trigger] cleared_board(b)[i] == readdress_row(b[i + 1], i) by {
        assert(kept_rows(b)[i] == b[i + 1]);
    }
}

/// The surviving buckets of a board whose only full bucket is `f`:
/// everything before `f`, then everything after it.
pub proof fn lemma_kept_rows_remove_full(b: Seq<Seq<CellV>>, f: int)
    requires
        0 <= f < b.len(),
        b[f].len() == NUM_COLS,
        forall|i: int| 0 <= i < b.len() && i != f ==> (#[trigger] b[i]).len() != NUM_COLS,
    ensures
        kept_rows(b).len() == b.len() - 1,
        forall|i: int| 0 <= i < f ==> #[trigger] kept_rows(b)[i] == b[i],
        forall|i: int| f <= i < b.len() - 1 ==> #[trigger] kept_rows(b)[i] == b[i + 1],
    decreases b.len(),
{
    if f == b.len() - 1 {
        assert forall|i: int|
            0 <= i < b.drop_last().len() implies (#[trigger] b.drop_last()[i]).len()
            != NUM_COLS by {
            assert(b.drop_last()[i] == b[i]);
        }
        lemma_kept_rows_no_full(b.drop_last());
    } else {
        assert(b.drop_last()[f] == b[f]);
        lemma_kept_rows_remove_full(b.drop_last(), f);
    }
}

/// Deletes every full bucket, the buckets above moving down one place
/// and their cells' row coordinates growing by one. Runs at the spawn
/// step, one cycle after the purgatory flagging made the flash visible.
pub fn clear_full_rows(board: &mut Vec<Vec<Square>>)
    requires
        board_wf(board_view(old(board)@)),
    ensures
        board_view(final(board)@) == cleared_board(board_view(old(board)@)),
        board_wf(board_view(final(board)@)),
{
    let ghost bv = board_view(board@);
    proof {
        lemma_cleared_board_wf(bv);
        lemma_kept_rows_source(bv);
    }
    let mut nb: Vec<Vec<Square>> = Vec::new();
    let mut i: usize = 0;
    while i < board.len()
        invariant
            bv == board_view(board@),
            board_wf(bv),
            i <= bv.len(),
            nb@.len() == kept_rows(bv.take(i as int)).len(),
            nb@.len() <= i,
            forall|t: int|
                0 <= t < nb@.len() ==> #[trigger] row_view(nb@[t]@) == readdress_row(
                    kept_rows(bv.take(i as int))[t],
                    t,
                ),
        decreases board@.len() - i,
    {
        let ghost keptpre = kept_rows(bv.take(i as int));
        proof {
            assert(bv.take(i as int + 1).drop_last() =~= bv.take(i as int));
            assert(bv.take(i as int + 1).last() == bv[i as int]);
        }
        let row = &board[i];
        if row.len() != (NUM_COLS as usize) {
            let newy = NUM_ROWS - (nb.len() as i32);
            let ghost src = row_view(row@);
            let mut nrow: Vec<Square> = Vec::new();
            let mut j: usize = 0;
            while j < row.len()
                invariant
                    src == row_view(row@),
                    j <= row@.len(),
                    nrow@.len() == j,
                    forall|t: int|
                        0 <= t < j ==> #[trigger] row_view(nrow@)[t] == (CellV {
                            y: newy as int,
                            ..src[t]
                        }),
            decreases row@.len() - j,
            {
                let c = row[j];
                let ghost prevn = nrow@;
                nrow.push(Square { position: Vector2D { x: c.position.x, y: newy }, color: c.color, purgatory: c.purgatory });
                proof {
                    assert forall|t: int|
                        0 <= t < j + 1 implies #[trigger] row_view(nrow@)[t] == (CellV {
                            y: newy as int,
                            ..src[t]
                        }) by {
                        if t < j {
                            assert(nrow@[t] == prevn[t]);
                            assert(row_view(prevn)[t] == (CellV { y: newy as int, ..src[t] }));
                        } else {
                            assert(nrow@[t]@ == (CellV { y: newy as int, ..src[t] }));
                        }
                    }
                }
                j = j + 1;
            }
            proof {
                assert(row_view(nrow@) =~= readdress_row(src, nb@.len() as int));
            }
            let ghost prevnb = nb@;
            nb.push(nrow);
            proof {
                assert(kept_rows(bv.take(i as int + 1)) =~= keptpre.push(bv[i as int]));
                assert(src == bv[i as int]);
                assert forall|t: int|
                    0 <= t < nb@.len() implies #[trigger] row_view(nb@[t]@) == readdress_row(
                        kept_rows(bv.take(i as int + 1))[t],
                        t,
                    ) by {
                    if t < nb@.len() - 1 {
                        assert(nb@[t] == prevnb[t]);
                        assert(row_view(prevnb[t]@) == readdress_row(keptpre[t], t));
                        assert(kept_rows(bv.take(i as int + 1))[t] == keptpre[t]);
                    } else {
                        assert(nb@[t]@ == nrow@);
                        assert(kept_rows(bv.take(i as int + 1))[t] == bv[i as int]);
                    }
                }
            }
        } else {
            proof {
                assert(kept_rows(bv.take(i as int + 1)) == keptpre);
            }
        }
        i = i + 1;
    }
    proof {
        assert(bv.take(bv.len() as int) =~= bv);
        assert(board_view(nb@) =~~= cleared_board(bv));
    }
    *board = nb;
}

} // verus!
