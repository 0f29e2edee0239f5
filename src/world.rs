//! Operations on the whole simulation state outside the round and scan
//! cycle: resizing, seeding a shape, and the colour each cell is shown in.

use vstd::prelude::*;
use crate::board::{BoardError, cell_count, resize_board, resized_cell};
use crate::patterns::{PatternCell, RuleLengthEncoded};
use crate::scan::clear_overlay;
use crate::utils::{clamp, div_toward_zero};

verus! {

/// Resizes both boards and the overlay to `new_width` by `new_height`
/// cells: each board keeps the top-left region it shares with its old
/// self, every other cell is dead, and the overlay is all unmatched.
pub fn resize_buffers(
    board_a: &Vec<bool>,
    board_b: &Vec<bool>,
    old_width: u32,
    old_height: u32,
    new_width: u32,
    new_height: u32,
) -> (r: (Vec<bool>, Vec<bool>, Vec<u8>))
    requires
        new_width * new_height <= usize::MAX,
    ensures
        r.0@.len() == new_width * new_height,
        r.1@.len() == new_width * new_height,
        r.2@.len() == new_width * new_height,
        forall|i: int|
            0 <= i < r.0@.len() ==> #[trigger] r.0@[i] == resized_cell(
                board_a@,
                old_width as int,
                old_height as int,
                new_width as int,
                i,
            ),
        forall|i: int|
            0 <= i < r.1@.len() ==> #[trigger] r.1@[i] == resized_cell(
                board_b@,
                old_width as int,
                old_height as int,
                new_width as int,
                i,
            ),
        forall|i: int| 0 <= i < r.2@.len() ==> #[trigger] r.2@[i] == 0,
{
    let a = resize_board(board_a, old_width, old_height, new_width, new_height);
    let b = resize_board(board_b, old_width, old_height, new_width, new_height);
    let mut overlay: Vec<u8> = Vec::new();
    clear_overlay(&mut overlay, new_width, new_height);
    (a, b, overlay)
}

/// The coordinate at which a shape `pattern` cells long is placed on a
/// board `board` cells long so that it is centred, or at 0 when it does
/// not fit.
pub open spec fn seed_start(board: int, pattern: int) -> int {
    let c = div_toward_zero(board - pattern, 2);
    if c < 0 {
        0
    } else {
        c
    }
}

/// `board` after the first `m` cells of a shape anchored at
/// `(start_x, start_y)` have been written into it; a cell whose flat index
/// `width * (start_y + y) + start_x + x` falls past the end of the board is
/// skipped.
pub open spec fn seeded(
    board: Seq<bool>,
    width: int,
    start_x: int,
    start_y: int,
    cells: Seq<PatternCell>,
    m: int,
) -> Seq<bool>
    decreases m,
{
    if m <= 0 {
        board
    } else {
        let before = seeded(board, width, start_x, start_y, cells, m - 1);
        let c = cells[m - 1];
        let idx = width * (start_y + c.y) + start_x + c.x;
        if idx < board.len() {
            before.update(idx, c.alive)
        } else {
            before
        }
    }
}

fn seed_coordinate(board: u32, pattern: u32) -> (r: u64)
    ensures
        r == seed_start(board as int, pattern as int),
        board > 0 ==> r < board,
{
    let centred: i64 = (board as i64 - pattern as i64) / 2;
    let r = clamp(centred, 0i64, board as i64 - 1);
    r as u64
}

/// Writes the cells of `seed` into `board`, centred on it: the shape's
/// top-left corner goes to `(seed_start(w, seed.width), seed_start(h,
/// seed.height))`. Fails, changing nothing, when the board is not
/// `board_width * board_height` cells long.
pub fn place_seed(
    board: &mut Vec<bool>,
    board_width: u32,
    board_height: u32,
    seed: &RuleLengthEncoded,
) -> (r: Result<(), BoardError>)
    ensures
        r is Ok <==> old(board)@.len() == board_width * board_height,
        r is Err ==> r == Err::<(), BoardError>(BoardError::DimensionMismatch) && final(board)@
            == old(board)@,
        r is Ok ==> final(board)@ == seeded(
            old(board)@,
            board_width as int,
            seed_start(board_width as int, seed.width as int),
            seed_start(board_height as int, seed.height as int),
            seed.data@,
            seed.data@.len() as int,
        ),
{
    let cells = cell_count(board_width, board_height);
    if board.len() as u64 != cells {
        return Err(BoardError::DimensionMismatch);
    }
    let start_x = seed_coordinate(board_width, seed.width);
    let start_y = seed_coordinate(board_height, seed.height);
    let ghost before = board@;
    let n = board.len();
    proof {
        assert(cells <= u32::MAX * u32::MAX) by (nonlinear_arith)
            requires
                cells == board_width * board_height,
                board_width <= u32::MAX,
                board_height <= u32::MAX,
        ;
    }
    let width = board_width as u64;
    let height = board_height as u64;
    let mut j: usize = 0;
    while j < seed.data.len()
        invariant
            j <= seed.data@.len(),
            board@.len() == before.len(),
            before.len() == cells,
            n == cells,
            cells == width * height,
            cells <= u32::MAX * u32::MAX,
            width == board_width,
            height == board_height,
            start_x == seed_start(board_width as int, seed.width as int),
            start_y == seed_start(board_height as int, seed.height as int),
            board_width > 0 ==> start_x < board_width,
            board_height > 0 ==> start_y < board_height,
            board@ == seeded(
                before,
                width as int,
                start_x as int,
                start_y as int,
                seed.data@,
                j as int,
            ),
        decreases seed.data@.len() - j,
    {
        let c = seed.data[j];
        let row: u64 = start_y + c.y as u64;
        if row < height {
            proof {
                assert(width * row <= width * height) by (nonlinear_arith)
                    requires
                        row < height,
                ;
            }
            let idx: u64 = width * row + start_x + c.x as u64;
            if idx < cells {
                board.set(idx as usize, c.alive);
            }
        } else {
            proof {
                assert(width * row >= width * height) by (nonlinear_arith)
                    requires
                        row >= height,
                ;
            }
        }
        j = j + 1;
    }
    Ok(())
}

/// The colour shown for claim id `id`, as red, green and blue.
pub open spec fn pattern_color(id: u8) -> (u8, u8, u8) {
    if id == 0 {
        (0, 0, 0)
    } else if id == 1 {
        (255, 0, 0)
    } else if id == 2 {
        (0, 255, 0)
    } else if id == 3 {
        (0, 0, 255)
    } else if id == 4 {
        (255, 255, 0)
    } else if id == 5 {
        (255, 0, 255)
    } else if id == 6 {
        (0, 255, 255)
    } else {
        (255, 255, 255)
    }
}

/// The colour a cell is drawn in: black when dead, white when alive and
/// unclaimed, and the colour of its claim id when alive and claimed.
pub fn cell_color(alive: bool, pattern_id: u8) -> (r: (u8, u8, u8))
    requires
        pattern_id < 8,
    ensures
        !alive ==> r == (0u8, 0u8, 0u8),
        alive && pattern_id == 0 ==> r == (255u8, 255u8, 255u8),
        alive && pattern_id > 0 ==> r == pattern_color(pattern_id),
{
    if !alive {
        (0, 0, 0)
    } else if pattern_id == 0 {
        (255, 255, 255)
    } else if pattern_id == 1 {
        (255, 0, 0)
    } else if pattern_id == 2 {
        (0, 255, 0)
    } else if pattern_id == 3 {
        (0, 0, 255)
    } else if pattern_id == 4 {
        (255, 255, 0)
    } else if pattern_id == 5 {
        (255, 0, 255)
    } else if pattern_id == 6 {
        (0, 255, 255)
    } else {
        (255, 255, 255)
    }
}

} // verus!
