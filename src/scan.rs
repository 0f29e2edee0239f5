//! Matching reference shapes against a board, and the overlay that records
//! which shape claimed each cell.

use vstd::prelude::*;
use vstd::arithmetic::div_mod::lemma_fundamental_div_mod_converse;
use crate::board::{BoardError, cell_count};
use crate::patterns::{PatternCell, RuleLengthEncoded};

verus! {

/// The flat index that cell `c` of a shape anchored at `origin` covers.
pub open spec fn cell_pos(origin: int, c: PatternCell, width: int) -> int {
    origin + width * c.y + c.x
}

/// Whether cell `c` of a shape anchored at `origin` lies on the board,
/// without wrapping into the next row.
pub open spec fn cell_on_board(origin: int, c: PatternCell, width: int, height: int) -> bool {
    origin % width + c.x < width && origin / width + c.y < height
}

/// Whether cell `c` of a shape anchored at `origin` lies on the board, has
/// the state the shape asks for, and is not claimed yet.
pub open spec fn cell_fits(
    board: Seq<bool>,
    overlay: Seq<u8>,
    width: int,
    height: int,
    origin: int,
    c: PatternCell,
) -> bool {
    let p = cell_pos(origin, c, width);
    &&& cell_on_board(origin, c, width, height)
    &&& 0 <= p < overlay.len()
    &&& board[p] == c.alive
    &&& overlay[p] == 0
}

/// Whether the shape `cells` has a cell at all, lies wholly on the board
/// when anchored at `origin`, every cell of it has the state the shape asks
/// for, and none of it has been claimed yet. A shape without cells never
/// fits.
pub open spec fn shape_fits(
    board: Seq<bool>,
    overlay: Seq<u8>,
    width: int,
    height: int,
    origin: int,
    cells: Seq<PatternCell>,
) -> bool {
    cells.len() > 0 && forall|j: int|
        0 <= j < cells.len() ==> cell_fits(board, overlay, width, height, origin, #[trigger] cells[j])
}

/// `overlay` with the first `m` cells of a shape anchored at `origin`
/// set to `id`.
pub open spec fn stamp(
    overlay: Seq<u8>,
    width: int,
    origin: int,
    cells: Seq<PatternCell>,
    id: u8,
    m: int,
) -> Seq<u8>
    decreases m,
{
    if m <= 0 {
        overlay
    } else {
        stamp(overlay, width, origin, cells, id, m - 1).update(
            cell_pos(origin, cells[m - 1], width),
            id,
        )
    }
}

/// `overlay` after trying the shapes from index `k` on at `origin`: the
/// first that fits claims its cells with its 1-based id, and no later one
/// is tried.
pub open spec fn scan_origin(
    board: Seq<bool>,
    overlay: Seq<u8>,
    width: int,
    height: int,
    origin: int,
    shapes: Seq<RuleLengthEncoded>,
    k: int,
) -> Seq<u8>
    decreases shapes.len() - k,
{
    if k < 0 || k >= shapes.len() {
        overlay
    } else if shape_fits(board, overlay, width, height, origin, shapes[k].data@) {
        stamp(overlay, width, origin, shapes[k].data@, (k + 1) as u8, shapes[k].data@.len() as int)
    } else {
        scan_origin(board, overlay, width, height, origin, shapes, k + 1)
    }
}

/// `overlay` after scanning the origins of `[from, to)` in order.
pub open spec fn scan_range(
    board: Seq<bool>,
    overlay: Seq<u8>,
    width: int,
    height: int,
    shapes: Seq<RuleLengthEncoded>,
    from: int,
    to: int,
) -> Seq<u8>
    decreases to - from,
{
    if to <= from {
        overlay
    } else {
        scan_origin(
            board,
            scan_range(board, overlay, width, height, shapes, from, to - 1),
            width,
            height,
            to - 1,
            shapes,
            0,
        )
    }
}

proof fn lemma_cell_pos_on_board(origin: int, c: PatternCell, width: int, height: int)
    requires
        width > 0,
        0 <= origin,
        cell_on_board(origin, c, width, height),
    ensures
        cell_pos(origin, c, width) == width * (origin / width + c.y) + (origin % width + c.x),
        0 <= width * c.y <= width * c.y + c.x <= cell_pos(origin, c, width) < width * height,
{
    let x = origin % width;
    let y = origin / width;
    assert(origin == width * y + x) by (nonlinear_arith)
        requires
            width > 0,
            x == origin % width,
            y == origin / width,
    ;
    assert(width * (y + c.y) == width * y + width * c.y) by (nonlinear_arith);
    assert(0 <= width * c.y) by (nonlinear_arith)
        requires
            width > 0,
            c.y >= 0,
    ;
    assert(width * (y + c.y) + (x + c.x) < width * height) by (nonlinear_arith)
        requires
            width > 0,
            0 <= x + c.x < width,
            0 <= y + c.y < height,
    ;
}

/// Whether the shape `cells` fits at `origin`, as `shape_fits` says.
fn shape_fits_at(
    board: &Vec<bool>,
    overlay: &Vec<u8>,
    width: usize,
    height: usize,
    origin: usize,
    cells: &Vec<PatternCell>,
) -> (r: bool)
    requires
        width > 0,
        board@.len() == width * height,
        overlay@.len() == width * height,
    ensures
        r == shape_fits(board@, overlay@, width as int, height as int, origin as int, cells@),
{
    if cells.len() == 0 {
        return false;
    }
    let x = origin % width;
    let y = origin / width;
    let n = board.len();
    let mut j: usize = 0;
    while j < cells.len()
        invariant
            j <= cells@.len(),
            width > 0,
            n == width * height,
            x == origin % width,
            y == origin / width,
            board@.len() == width * height,
            overlay@.len() == width * height,
            forall|i: int|
                0 <= i < j ==> cell_fits(
                    board@,
                    overlay@,
                    width as int,
                    height as int,
                    origin as int,
                    #[trigger] cells@[i],
                ),
        decreases cells@.len() - j,
    {
        let cell = cells[j];
        if cell.x as usize >= width - x || y >= height || cell.y as usize >= height - y {
            return false;
        }
        proof {
            lemma_cell_pos_on_board(origin as int, cell, width as int, height as int);
        }
        let p = origin + width * (cell.y as usize) + cell.x as usize;
        if board[p] != cell.alive || overlay[p] != 0 {
            return false;
        }
        j = j + 1;
    }
    true
}

/// Claims every cell of the shape `cells` anchored at `origin` with `id`.
fn stamp_shape(
    overlay: &mut Vec<u8>,
    width: usize,
    height: usize,
    origin: usize,
    cells: &Vec<PatternCell>,
    id: u8,
)
    requires
        width > 0,
        old(overlay)@.len() == width * height,
        forall|j: int|
            0 <= j < cells@.len() ==> cell_on_board(
                origin as int,
                #[trigger] cells@[j],
                width as int,
                height as int,
            ),
    ensures
        final(overlay)@.len() == old(overlay)@.len(),
        final(overlay)@ == stamp(
            old(overlay)@,
            width as int,
            origin as int,
            cells@,
            id,
            cells@.len() as int,
        ),
{
    let ghost before = overlay@;
    let n = overlay.len();
    let mut j: usize = 0;
    while j < cells.len()
        invariant
            j <= cells@.len(),
            width > 0,
            n == width * height,
            overlay@.len() == width * height,
            forall|i: int|
                0 <= i < cells@.len() ==> cell_on_board(
                    origin as int,
                    #[trigger] cells@[i],
                    width as int,
                    height as int,
                ),
            overlay@ == stamp(before, width as int, origin as int, cells@, id, j as int),
        decreases cells@.len() - j,
    {
        let cell = cells[j];
        proof {
            lemma_cell_pos_on_board(origin as int, cell, width as int, height as int);
        }
        let p = origin + width * (cell.y as usize) + cell.x as usize;
        overlay.set(p, id);
        j = j + 1;
    }
}

/// Scans the origins of `[from, to)` in index order. At each origin the
/// shapes of `searched_patterns` are tried in library order; the first one
/// that lies wholly on the board, matches the board cell for cell and
/// covers no cell claimed earlier, claims its cells in `pattern_board` with
/// its 1-based position in the library, and the scan moves on to the next
/// origin. Fails, changing nothing, when either buffer is not
/// `board_width * board_height` cells long or the range does not lie
/// within it.
pub fn detect_patterns(
    from: usize,
    to: usize,
    board: &Vec<bool>,
    board_width: u32,
    board_height: u32,
    pattern_board: &mut Vec<u8>,
    searched_patterns: &Vec<RuleLengthEncoded>,
) -> (r: Result<(), BoardError>)
    requires
        searched_patterns@.len() <= 255,
    ensures
        r is Ok <==> (board@.len() == board_width * board_height && old(pattern_board)@.len()
            == board_width * board_height && from <= to <= board_width * board_height),
        r is Err ==> r == Err::<(), BoardError>(BoardError::DimensionMismatch) && final(
            pattern_board)@ == old(pattern_board)@,
        r is Ok ==> final(pattern_board)@ == scan_range(
            board@,
            old(pattern_board)@,
            board_width as int,
            board_height as int,
            searched_patterns@,
            from as int,
            to as int,
        ),
{
    let cells = cell_count(board_width, board_height);
    if board.len() as u64 != cells || pattern_board.len() as u64 != cells || from > to || to
        > board.len() {
        return Err(BoardError::DimensionMismatch);
    }
    let width = board_width as usize;
    let height = board_height as usize;
    let ghost before = pattern_board@;
    let mut i: usize = from;
    while i < to
        invariant
            from <= i <= to,
            to <= board@.len(),
            board@.len() == width * height,
            pattern_board@.len() == width * height,
            width == board_width,
            height == board_height,
            searched_patterns@.len() <= 255,
            pattern_board@ == scan_range(
                board@,
                before,
                width as int,
                height as int,
                searched_patterns@,
                from as int,
                i as int,
            ),
        decreases to - i,
    {
        proof {
            assert(width > 0) by (nonlinear_arith)
                requires
                    i < board@.len(),
                    board@.len() == width * height,
            ;
        }
        let ghost start = pattern_board@;
        let mut k: usize = 0;
        let mut claimed = false;
        while k < searched_patterns.len() && !claimed
            invariant
                k <= searched_patterns@.len() <= 255,
                width > 0,
                board@.len() == width * height,
                pattern_board@.len() == width * height,
                !claimed ==> pattern_board@ == start && scan_origin(
                    board@,
                    start,
                    width as int,
                    height as int,
                    i as int,
                    searched_patterns@,
                    0,
                ) == scan_origin(
                    board@,
                    start,
                    width as int,
                    height as int,
                    i as int,
                    searched_patterns@,
                    k as int,
                ),
                claimed ==> pattern_board@ == scan_origin(
                    board@,
                    start,
                    width as int,
                    height as int,
                    i as int,
                    searched_patterns@,
                    0,
                ),
            decreases searched_patterns@.len() - k,
        {
            let shape = &searched_patterns[k].data;
            if shape_fits_at(board, pattern_board, width, height, i, shape) {
                assert forall|j: int| 0 <= j < shape@.len() implies cell_on_board(
                    i as int,
                    #[trigger] shape@[j],
                    width as int,
                    height as int,
                ) by {
                    assert(cell_fits(
                        board@,
                        start,
                        width as int,
                        height as int,
                        i as int,
                        shape@[j],
                    ));
                }
                stamp_shape(pattern_board, width, height, i, shape, (k + 1) as u8);
                claimed = true;
            }
            k = k + 1;
        }
        i = i + 1;
    }
    Ok(())
}

proof fn lemma_stamp_keeps_claims(
    overlay: Seq<u8>,
    width: int,
    origin: int,
    cells: Seq<PatternCell>,
    id: u8,
    m: int,
)
    requires
        0 <= m <= cells.len(),
        forall|j: int|
            0 <= j < cells.len() ==> {
                let p = #[trigger] cell_pos(origin, cells[j], width);
                0 <= p < overlay.len() && overlay[p] == 0
            },
    ensures
        stamp(overlay, width, origin, cells, id, m).len() == overlay.len(),
        forall|t: int|
            0 <= t < overlay.len() && overlay[t] != 0 ==> #[trigger] stamp(
                overlay,
                width,
                origin,
                cells,
                id,
                m,
            )[t] == overlay[t],
    decreases m,
{
    if m > 0 {
        lemma_stamp_keeps_claims(overlay, width, origin, cells, id, m - 1);
        let p = cell_pos(origin, cells[m - 1], width);
        assert(0 <= p < overlay.len() && overlay[p] == 0);
    }
}

proof fn lemma_scan_origin_keeps_claims(
    board: Seq<bool>,
    overlay: Seq<u8>,
    width: int,
    height: int,
    origin: int,
    shapes: Seq<RuleLengthEncoded>,
    k: int,
)
    ensures
        scan_origin(board, overlay, width, height, origin, shapes, k).len() == overlay.len(),
        forall|t: int|
            0 <= t < overlay.len() && overlay[t] != 0 ==> #[trigger] scan_origin(
                board,
                overlay,
                width,
                height,
                origin,
                shapes,
                k,
            )[t] == overlay[t],
    decreases shapes.len() - k,
{
    if k < 0 || k >= shapes.len() {
    } else if shape_fits(board, overlay, width, height, origin, shapes[k].data@) {
        let cells = shapes[k].data@;
        assert forall|j: int| 0 <= j < cells.len() implies {
            let p = #[trigger] cell_pos(origin, cells[j], width);
            0 <= p < overlay.len() && overlay[p] == 0
        } by {
            assert(cell_fits(board, overlay, width, height, origin, cells[j]));
        }
        lemma_stamp_keeps_claims(overlay, width, origin, cells, (k + 1) as u8, cells.len() as int);
    } else {
        lemma_scan_origin_keeps_claims(board, overlay, width, height, origin, shapes, k + 1);
    }
}

/// A scan never takes a cell from the match that claimed it: every cell
/// that carries an id before the scan carries the same id after it, so no
/// two matches overlap, and the overlay keeps its length.
pub proof fn lemma_scan_keeps_claims(
    board: Seq<bool>,
    overlay: Seq<u8>,
    width: int,
    height: int,
    shapes: Seq<RuleLengthEncoded>,
    from: int,
    to: int,
)
    ensures
        scan_range(board, overlay, width, height, shapes, from, to).len() == overlay.len(),
        forall|t: int|
            0 <= t < overlay.len() && overlay[t] != 0 ==> #[trigger] scan_range(
                board,
                overlay,
                width,
                height,
                shapes,
                from,
                to,
            )[t] == overlay[t],
    decreases to - from,
{
    if to > from {
        lemma_scan_keeps_claims(board, overlay, width, height, shapes, from, to - 1);
        let mid = scan_range(board, overlay, width, height, shapes, from, to - 1);
        lemma_scan_origin_keeps_claims(board, mid, width, height, to - 1, shapes, 0);
        assert forall|t: int| 0 <= t < overlay.len() && overlay[t] != 0 implies #[trigger] scan_range(
            board,
            overlay,
            width,
            height,
            shapes,
            from,
            to,
        )[t] == overlay[t] by {
            assert(mid[t] == overlay[t]);
        }
    }
}

/// The index of the first shape from `k` on that fits at `origin`.
pub open spec fn first_fit(
    board: Seq<bool>,
    overlay: Seq<u8>,
    width: int,
    height: int,
    origin: int,
    shapes: Seq<RuleLengthEncoded>,
    k: int,
) -> Option<int>
    decreases shapes.len() - k,
{
    if k < 0 || k >= shapes.len() {
        None
    } else if shape_fits(board, overlay, width, height, origin, shapes[k].data@) {
        Some(k)
    } else {
        first_fit(board, overlay, width, height, origin, shapes, k + 1)
    }
}

/// The matches a scan of the origins of `[from, to)` commits, in order, each
/// as its origin and the index of its shape in the library.
pub open spec fn scan_matches(
    board: Seq<bool>,
    overlay: Seq<u8>,
    width: int,
    height: int,
    shapes: Seq<RuleLengthEncoded>,
    from: int,
    to: int,
) -> Seq<(int, int)>
    decreases to - from,
{
    if to <= from {
        Seq::empty()
    } else {
        let earlier = scan_matches(board, overlay, width, height, shapes, from, to - 1);
        let before = scan_range(board, overlay, width, height, shapes, from, to - 1);
        match first_fit(board, before, width, height, to - 1, shapes, 0) {
            Some(p) => earlier.push((to - 1, p)),
            None => earlier,
        }
    }
}

/// Whether the match `m` (origin, shape index) covers the flat index `t`.
pub open spec fn covers(shapes: Seq<RuleLengthEncoded>, m: (int, int), width: int, t: int) -> bool {
    exists|j: int|
        0 <= j < shapes[m.1].data@.len() && #[trigger] cell_pos(m.0, shapes[m.1].data@[j], width)
            == t
}

proof fn lemma_scan_origin_first_fit(
    board: Seq<bool>,
    overlay: Seq<u8>,
    width: int,
    height: int,
    origin: int,
    shapes: Seq<RuleLengthEncoded>,
    k: int,
)
    ensures
        scan_origin(board, overlay, width, height, origin, shapes, k) == match first_fit(
            board,
            overlay,
            width,
            height,
            origin,
            shapes,
            k,
        ) {
            Some(p) => stamp(
                overlay,
                width,
                origin,
                shapes[p].data@,
                (p + 1) as u8,
                shapes[p].data@.len() as int,
            ),
            None => overlay,
        },
        first_fit(board, overlay, width, height, origin, shapes, k) matches Some(p) ==> k <= p
            < shapes.len() && shape_fits(board, overlay, width, height, origin, shapes[p].data@),
    decreases shapes.len() - k,
{
    if k >= 0 && k < shapes.len() && !shape_fits(
        board,
        overlay,
        width,
        height,
        origin,
        shapes[k].data@,
    ) {
        lemma_scan_origin_first_fit(board, overlay, width, height, origin, shapes, k + 1);
    }
}

proof fn lemma_stamp_value(
    overlay: Seq<u8>,
    width: int,
    origin: int,
    cells: Seq<PatternCell>,
    id: u8,
    m: int,
)
    requires
        0 <= m <= cells.len(),
        forall|j: int|
            0 <= j < cells.len() ==> 0 <= #[trigger] cell_pos(origin, cells[j], width)
                < overlay.len(),
    ensures
        stamp(overlay, width, origin, cells, id, m).len() == overlay.len(),
        forall|t: int|
            0 <= t < overlay.len() ==> #[trigger] stamp(overlay, width, origin, cells, id, m)[t]
                == if exists|j: int| 0 <= j < m && #[trigger] cell_pos(origin, cells[j], width) == t {
                id
            } else {
                overlay[t]
            },
    decreases m,
{
    if m > 0 {
        lemma_stamp_value(overlay, width, origin, cells, id, m - 1);
        let q = cell_pos(origin, cells[m - 1], width);
        assert forall|t: int| 0 <= t < overlay.len() implies #[trigger] stamp(
            overlay,
            width,
            origin,
            cells,
            id,
            m,
        )[t] == if exists|j: int| 0 <= j < m && #[trigger] cell_pos(origin, cells[j], width) == t {
            id
        } else {
            overlay[t]
        } by {
            if t == q {
                assert(0 <= m - 1 < m && cell_pos(origin, cells[m - 1], width) == t);
            } else if exists|j: int| 0 <= j < m && #[trigger] cell_pos(origin, cells[j], width) == t {
                let j = choose|j: int| 0 <= j < m && #[trigger] cell_pos(origin, cells[j], width) == t;
                assert(0 <= j < m - 1 && cell_pos(origin, cells[j], width) == t);
            }
        }
    }
}

/// Matches never overlap. Scanning an unclaimed overlay, the matches the
/// scan commits cover pairwise disjoint sets of cells; every cell a match
/// covers carries that match's 1-based shape id afterwards, and every
/// claimed cell lies in a committed match whose id it carries.
pub proof fn lemma_scan_matches_disjoint(
    board: Seq<bool>,
    overlay: Seq<u8>,
    width: int,
    height: int,
    shapes: Seq<RuleLengthEncoded>,
    from: int,
    to: int,
)
    requires
        forall|t: int| 0 <= t < overlay.len() ==> #[trigger] overlay[t] == 0,
        shapes.len() <= 255,
    ensures
        ({
            let r = scan_range(board, overlay, width, height, shapes, from, to);
            let ms = scan_matches(board, overlay, width, height, shapes, from, to);
            &&& r.len() == overlay.len()
            &&& forall|a: int| 0 <= a < ms.len() ==> 0 <= #[trigger] ms[a].1 < shapes.len()
            &&& forall|a: int, t: int|
                0 <= a < ms.len() && #[trigger] covers(shapes, ms[a], width, t) ==> 0 <= t
                    < r.len() && r[t] == (ms[a].1 + 1) as u8
            &&& forall|a: int, b: int, t: int|
                0 <= a < b < ms.len() && #[trigger] covers(shapes, ms[a], width, t) ==> !#[trigger] covers(
                    shapes,
                    ms[b],
                    width,
                    t,
                )
            &&& forall|t: int|
                0 <= t < r.len() && #[trigger] r[t] != 0 ==> exists|a: int|
                    0 <= a < ms.len() && #[trigger] covers(shapes, ms[a], width, t) && r[t] == (
                    ms[a].1 + 1) as u8
        }),
    decreases to - from,
{
    if to > from {
        lemma_scan_matches_disjoint(board, overlay, width, height, shapes, from, to - 1);
        let before = scan_range(board, overlay, width, height, shapes, from, to - 1);
        let earlier = scan_matches(board, overlay, width, height, shapes, from, to - 1);
        let r = scan_range(board, overlay, width, height, shapes, from, to);
        let ms = scan_matches(board, overlay, width, height, shapes, from, to);
        let o = to - 1;
        lemma_scan_origin_first_fit(board, before, width, height, o, shapes, 0);
        match first_fit(board, before, width, height, o, shapes, 0) {
            None => {
                assert(r == before);
                assert(ms == earlier);
            },
            Some(p) => {
                let cells = shapes[p].data@;
                let id = (p + 1) as u8;
                assert(id != 0);
                assert(ms == earlier.push((o, p)));
                assert forall|j: int| 0 <= j < cells.len() implies 0 <= #[trigger] cell_pos(
                    o,
                    cells[j],
                    width,
                ) < before.len() && before[cell_pos(o, cells[j], width)] == 0 by {
                    assert(cell_fits(board, before, width, height, o, cells[j]));
                }
                lemma_stamp_value(before, width, o, cells, id, cells.len() as int);
                assert(r == stamp(before, width, o, cells, id, cells.len() as int));
                assert forall|a: int, t: int|
                    0 <= a < ms.len() && #[trigger] covers(shapes, ms[a], width, t) implies 0 <= t
                    < r.len() && r[t] == (ms[a].1 + 1) as u8 by {
                    if a < earlier.len() {
                        assert(ms[a] == earlier[a]);
                        assert(before[t] != 0);
                        if exists|j: int|
                            0 <= j < cells.len() && #[trigger] cell_pos(o, cells[j], width) == t {
                            let j = choose|j: int|
                                0 <= j < cells.len() && #[trigger] cell_pos(o, cells[j], width) == t;
                            assert(before[cell_pos(o, cells[j], width)] == 0);
                        }
                    } else {
                        assert(ms[a] == (o, p));
                        let j = choose|j: int|
                            0 <= j < cells.len() && #[trigger] cell_pos(o, cells[j], width) == t;
                        assert(cell_pos(o, cells[j], width) == t);
                    }
                }
                assert forall|a: int, b: int, t: int|
                    0 <= a < b < ms.len() && #[trigger] covers(
                        shapes,
                        ms[a],
                        width,
                        t,
                    ) implies !#[trigger] covers(shapes, ms[b], width, t) by {
                    assert(ms[a] == earlier[a]);
                    if b < earlier.len() {
                        assert(ms[b] == earlier[b]);
                    } else {
                        assert(ms[b] == (o, p));
                        assert(before[t] != 0);
                        if covers(shapes, ms[b], width, t) {
                            let j = choose|j: int|
                                0 <= j < cells.len() && #[trigger] cell_pos(o, cells[j], width) == t;
                            assert(before[cell_pos(o, cells[j], width)] == 0);
                        }
                    }
                }
                assert forall|t: int| 0 <= t < r.len() && #[trigger] r[t] != 0 implies exists|a: int|
                    0 <= a < ms.len() && #[trigger] covers(shapes, ms[a], width, t) && r[t] == (
                    ms[a].1 + 1) as u8 by {
                    if exists|j: int|
                        0 <= j < cells.len() && #[trigger] cell_pos(o, cells[j], width) == t {
                        let a = earlier.len() as int;
                        assert(ms[a] == (o, p));
                        let j = choose|j: int|
                            0 <= j < cells.len() && #[trigger] cell_pos(o, cells[j], width) == t;
                        assert(cell_pos(ms[a].0, shapes[ms[a].1].data@[j], width) == t);
                        assert(covers(shapes, ms[a], width, t));
                    } else {
                        assert(r[t] == before[t]);
                        let a = choose|a: int|
                            0 <= a < earlier.len() && #[trigger] covers(shapes, earlier[a], width, t)
                                && before[t] == (earlier[a].1 + 1) as u8;
                        assert(ms[a] == earlier[a]);
                        assert(covers(shapes, ms[a], width, t));
                    }
                }
            },
        }
    }
}

/// The cells of a block: a two by two square of live cells.
pub open spec fn block_cells() -> Seq<PatternCell> {
    seq![
        PatternCell { x: 0, y: 0, alive: true },
        PatternCell { x: 1, y: 0, alive: true },
        PatternCell { x: 0, y: 1, alive: true },
        PatternCell { x: 1, y: 1, alive: true },
    ]
}

/// Whether the flat index `t` lies in the two by two square whose top-left
/// cell is `(x0, y0)`.
pub open spec fn in_square(t: int, x0: int, y0: int, width: int) -> bool {
    x0 <= t % width <= x0 + 1 && y0 <= t / width <= y0 + 1
}

proof fn lemma_square(t: int, width: int, x0: int, y0: int)
    requires
        0 <= t,
        0 <= x0,
        x0 + 2 <= width,
        0 <= y0,
    ensures
        in_square(t, x0, y0, width) <==> (t == width * y0 + x0 || t == width * y0 + x0 + 1 || t
            == width * y0 + x0 + width || t == width * y0 + x0 + width + 1),
{
    let q = t / width;
    let r = t % width;
    assert(t == width * q + r && 0 <= r < width) by (nonlinear_arith)
        requires
            width > 0,
            t >= 0,
            q == t / width,
            r == t % width,
    ;
    assert(width * (y0 + 1) == width * y0 + width) by (nonlinear_arith);
    assert((y0 + 1) * width == width * (y0 + 1) && y0 * width == width * y0) by (nonlinear_arith);
    if t == width * y0 + x0 {
        lemma_fundamental_div_mod_converse(t, width, y0, x0);
    } else if t == width * y0 + x0 + 1 {
        lemma_fundamental_div_mod_converse(t, width, y0, x0 + 1);
    } else if t == width * y0 + x0 + width {
        lemma_fundamental_div_mod_converse(t, width, y0 + 1, x0);
    } else if t == width * y0 + x0 + width + 1 {
        lemma_fundamental_div_mod_converse(t, width, y0 + 1, x0 + 1);
    }
}

proof fn lemma_block_scan_prefix(
    board: Seq<bool>,
    overlay: Seq<u8>,
    width: int,
    height: int,
    shapes: Seq<RuleLengthEncoded>,
    x0: int,
    y0: int,
    to: int,
)
    requires
        0 <= x0,
        x0 + 2 <= width,
        0 <= y0,
        y0 + 2 <= height,
        board.len() == width * height,
        overlay.len() == width * height,
        forall|t: int| 0 <= t < overlay.len() ==> #[trigger] overlay[t] == 0,
        forall|t: int| 0 <= t < board.len() ==> #[trigger] board[t] == in_square(t, x0, y0, width),
        shapes.len() == 1,
        shapes[0].data@ == block_cells(),
        0 <= to <= width * height,
    ensures
        scan_range(board, overlay, width, height, shapes, 0, to) == if to <= width * y0 + x0 {
            overlay
        } else {
            Seq::new(
                overlay.len(),
                |t: int|
                    if in_square(t, x0, y0, width) {
                        1u8
                    } else {
                        0u8
                    },
            )
        },
    decreases to,
{
    let o0 = width * y0 + x0;
    let full = Seq::new(
        overlay.len(),
        |t: int|
            if in_square(t, x0, y0, width) {
                1u8
            } else {
                0u8
            },
    );
    let cells = block_cells();
    if to > 0 {
        lemma_block_scan_prefix(board, overlay, width, height, shapes, x0, y0, to - 1);
        let o = to - 1;
        let before = scan_range(board, overlay, width, height, shapes, 0, o);
        lemma_scan_origin_first_fit(board, before, width, height, o, shapes, 0);
        lemma_square(o, width, x0, y0);
        assert(cell_pos(o, cells[0], width) == o);
        if o != o0 {
            // The block's top-left cell at `o` is dead, or already claimed.
            assert(!cell_fits(board, before, width, height, o, cells[0]));
            assert(!shape_fits(board, before, width, height, o, shapes[0].data@));
            assert(first_fit(board, before, width, height, o, shapes, 1) is None);
            if o > o0 {
                assert(before == full);
            }
        } else {
            assert(before == overlay);
            assert(o0 % width == x0 && o0 / width == y0) by {
                assert(o0 == y0 * width + x0) by (nonlinear_arith)
                    requires
                        o0 == width * y0 + x0,
                ;
                lemma_fundamental_div_mod_converse(o0, width, y0, x0);
            }
            assert(width * 1 == width && width * 0 == 0) by (nonlinear_arith);
            assert forall|j: int| 0 <= j < cells.len() implies cell_fits(
                board,
                overlay,
                width,
                height,
                o0,
                #[trigger] cells[j],
            ) by {
                let c = cells[j];
                assert(cell_on_board(o0, c, width, height));
                lemma_cell_pos_on_board(o0, c, width, height);
                let p = cell_pos(o0, c, width);
                lemma_square(p, width, x0, y0);
                assert(board[p]);
            }
            assert(shape_fits(board, overlay, width, height, o0, shapes[0].data@));
            assert forall|j: int| 0 <= j < cells.len() implies 0 <= #[trigger] cell_pos(
                o0,
                cells[j],
                width,
            ) < overlay.len() by {
                assert(cell_fits(board, overlay, width, height, o0, cells[j]));
            }
            lemma_stamp_value(overlay, width, o0, cells, 1u8, 4);
            let r = stamp(overlay, width, o0, cells, 1u8, 4);
            assert forall|t: int| 0 <= t < overlay.len() implies #[trigger] r[t] == full[t] by {
                lemma_square(t, width, x0, y0);
                if in_square(t, x0, y0, width) {
                    if t == o0 {
                        assert(cell_pos(o0, cells[0], width) == t);
                    } else if t == o0 + 1 {
                        assert(cell_pos(o0, cells[1], width) == t);
                    } else if t == o0 + width {
                        assert(cell_pos(o0, cells[2], width) == t);
                    } else {
                        assert(cell_pos(o0, cells[3], width) == t);
                    }
                } else {
                    if exists|j: int| 0 <= j < 4 && #[trigger] cell_pos(o0, cells[j], width) == t {
                        let j = choose|j: int|
                            0 <= j < 4 && #[trigger] cell_pos(o0, cells[j], width) == t;
                        assert(j == 0 || j == 1 || j == 2 || j == 3);
                    }
                }
            }
            assert(r =~= full);
        }
    }
}

/// An isolated block is tagged: scanning an unclaimed overlay with a
/// library holding just the block, on a board whose only live cells are one
/// two by two square, tags exactly the square's four cells with the block's
/// id and leaves every other cell unclaimed.
pub proof fn lemma_isolated_block_tagged(
    board: Seq<bool>,
    overlay: Seq<u8>,
    width: int,
    height: int,
    shapes: Seq<RuleLengthEncoded>,
    x0: int,
    y0: int,
)
    requires
        0 <= x0,
        x0 + 2 <= width,
        0 <= y0,
        y0 + 2 <= height,
        board.len() == width * height,
        overlay.len() == width * height,
        forall|t: int| 0 <= t < overlay.len() ==> #[trigger] overlay[t] == 0,
        forall|t: int| 0 <= t < board.len() ==> #[trigger] board[t] == in_square(t, x0, y0, width),
        shapes.len() == 1,
        shapes[0].data@ == block_cells(),
    ensures
        ({
            let r = scan_range(board, overlay, width, height, shapes, 0, width * height);
            &&& r.len() == width * height
            &&& forall|t: int|
                0 <= t < r.len() ==> #[trigger] r[t] == if in_square(t, x0, y0, width) {
                    1u8
                } else {
                    0u8
                }
        }),
{
    assert(width * y0 + x0 < width * height) by (nonlinear_arith)
        requires
            0 <= x0 < width,
            0 <= y0 < height,
    ;
    lemma_block_scan_prefix(board, overlay, width, height, shapes, x0, y0, width * height);
}

/// Folds the claims that a worker made on its own copy of the overlay into
/// `pattern_board`: a cell already claimed keeps its id, an unclaimed one
/// takes the worker's. Fails, changing nothing, when the two overlays
/// differ in length.
pub fn merge_claims(pattern_board: &mut Vec<u8>, claims: &Vec<u8>) -> (r: Result<(), BoardError>)
    ensures
        r is Ok <==> old(pattern_board)@.len() == claims@.len(),
        r is Err ==> r == Err::<(), BoardError>(BoardError::DimensionMismatch) && final(
            pattern_board)@ == old(pattern_board)@,
        r is Ok ==> final(pattern_board)@.len() == claims@.len(),
        r is Ok ==> forall|t: int|
            0 <= t < claims@.len() ==> #[trigger] final(pattern_board)@[t] == if old(
                pattern_board)@[t] != 0 {
                old(pattern_board)@[t]
            } else {
                claims@[t]
            },
{
    if pattern_board.len() != claims.len() {
        return Err(BoardError::DimensionMismatch);
    }
    let ghost before = pattern_board@;
    let mut t: usize = 0;
    while t < claims.len()
        invariant
            t <= claims@.len(),
            pattern_board@.len() == claims@.len(),
            before.len() == claims@.len(),
            forall|u: int|
                0 <= u < t ==> #[trigger] pattern_board@[u] == if before[u] != 0 {
                    before[u]
                } else {
                    claims@[u]
                },
            forall|u: int| t <= u < claims@.len() ==> #[trigger] pattern_board@[u] == before[u],
        decreases claims@.len() - t,
    {
        if pattern_board[t] == 0 {
            pattern_board.set(t, claims[t]);
        }
        t = t + 1;
    }
    Ok(())
}

/// Resets every cell of the overlay of a `board_width` by `board_height`
/// board to 0, whatever it held.
pub fn clear_overlay(pattern_board: &mut Vec<u8>, board_width: u32, board_height: u32)
    requires
        board_width * board_height <= usize::MAX,
    ensures
        final(pattern_board)@.len() == board_width * board_height,
        forall|t: int| 0 <= t < final(pattern_board)@.len() ==> #[trigger] final(pattern_board)@[t] == 0,
{
    let total = cell_count(board_width, board_height) as usize;
    let mut cleared: Vec<u8> = Vec::new();
    let mut i: usize = 0;
    while i < total
        invariant
            i <= total,
            cleared@.len() == i,
            forall|t: int| 0 <= t < i ==> #[trigger] cleared@[t] == 0,
        decreases total - i,
    {
        cleared.push(0);
        i = i + 1;
    }
    *pattern_board = cleared;
}

} // verus!
