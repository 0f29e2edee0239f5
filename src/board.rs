//! One generation of the Life rule on a bounded row-major board, and the
//! partition of its cells into contiguous chunks of work.

use vstd::prelude::*;

verus! {

/// Why an operation on a board was refused.
#[derive(Debug, Clone, Copy, PartialEq, Eq, Structural)]
pub enum BoardError {
    /// A buffer's length differs from `width * height`, or a cell range
    /// does not lie within it.
    DimensionMismatch,
}

/// Whether `(x, y)` lies on a board of `width` by `height` cells.
pub open spec fn in_bounds(x: int, y: int, width: int, height: int) -> bool {
    0 <= x < width && 0 <= y < height
}

/// Whether the cell at `(x, y)` is on the board and alive.
pub open spec fn alive_at(board: Seq<bool>, x: int, y: int, width: int, height: int) -> bool {
    in_bounds(x, y, width, height) && board[width * y + x]
}

/// 1 for a live cell at `(x, y)`, 0 for a dead cell or a position off the board.
pub open spec fn live(board: Seq<bool>, x: int, y: int, width: int, height: int) -> int {
    if alive_at(board, x, y, width, height) {
        1
    } else {
        0
    }
}

/// The number of live cells among the eight around the cell at flat
/// index `i`; positions off the board count as dead (no wraparound).
pub open spec fn neighbor_count(board: Seq<bool>, i: int, width: int, height: int) -> int {
    let x = i % width;
    let y = i / width;
    live(board, x - 1, y - 1, width, height) + live(board, x, y - 1, width, height) + live(
        board,
        x + 1,
        y - 1,
        width,
        height,
    ) + live(board, x - 1, y, width, height) + live(board, x + 1, y, width, height) + live(
        board,
        x - 1,
        y + 1,
        width,
        height,
    ) + live(board, x, y + 1, width, height) + live(board, x + 1, y + 1, width, height)
}

/// The Life rule: a cell is alive in the next generation when it has three
/// live neighbors, or when it is alive and has two.
pub open spec fn life_rule(alive: bool, neighbors: int) -> bool {
    neighbors == 3 || (alive && neighbors == 2)
}

/// The next state of the cell at flat index `i`.
pub open spec fn next_cell(board: Seq<bool>, i: int, width: int, height: int) -> bool {
    life_rule(board[i], neighbor_count(board, i, width, height))
}

/// The whole next generation of `board`.
pub open spec fn next_generation(board: Seq<bool>, width: int, height: int) -> Seq<bool> {
    Seq::new(board.len(), |i: int| next_cell(board, i, width, height))
}

/// `target` with the cells of `[from, to)` replaced by their next state
/// computed from `source`.
pub open spec fn apply_chunk(
    source: Seq<bool>,
    target: Seq<bool>,
    width: int,
    height: int,
    from: int,
    to: int,
) -> Seq<bool> {
    Seq::new(
        target.len(),
        |i: int|
            if from <= i < to {
                next_cell(source, i, width, height)
            } else {
                target[i]
            },
    )
}

proof fn lemma_index_in_board(x: int, y: int, width: int, height: int)
    requires
        in_bounds(x, y, width, height),
    ensures
        0 <= width * y + x < width * height,
{
    assert(0 <= width * y + x < width * height) by (nonlinear_arith)
        requires
            0 <= x < width,
            0 <= y < height,
    ;
}

/// Whether the neighbor of `(x, y)` at offset `(dx, dy)` is alive.
fn neighbor_alive(
    board: &Vec<bool>,
    width: usize,
    height: usize,
    x: usize,
    y: usize,
    dx: i8,
    dy: i8,
) -> (r: bool)
    requires
        board@.len() == width * height,
        x < width,
        y < height,
        -1 <= dx <= 1,
        -1 <= dy <= 1,
    ensures
        r == alive_at(board@, x + dx, y + dy, width as int, height as int),
{
    if (dx < 0 && x == 0) || (dy < 0 && y == 0) {
        return false;
    }
    let nx: usize = if dx < 0 {
        x - 1
    } else if dx > 0 {
        x + 1
    } else {
        x
    };
    let ny: usize = if dy < 0 {
        y - 1
    } else if dy > 0 {
        y + 1
    } else {
        y
    };
    if nx >= width || ny >= height {
        return false;
    }
    let n = board.len();
    proof {
        lemma_index_in_board(nx as int, ny as int, width as int, height as int);
        assert(n == width * height);
    }
    board[width * ny + nx]
}

/// Counts the live neighbors of the cell at `cell_index`.
pub fn num_of_neighbors(cell_index: usize, board: &Vec<bool>, board_width: u32, board_height: u32) -> (r: u32)
    requires
        board@.len() == board_width * board_height,
        cell_index < board@.len(),
    ensures
        r == neighbor_count(board@, cell_index as int, board_width as int, board_height as int),
        r <= 8,
{
    let width = board_width as usize;
    let height = board_height as usize;
    proof {
        assert(cell_index / width < height) by (nonlinear_arith)
            requires
                cell_index < width * height,
                width > 0,
        ;
    }
    let x = cell_index % width;
    let y = cell_index / width;
    let mut count: u32 = 0;
    if neighbor_alive(board, width, height, x, y, -1, -1) {
        count = count + 1;
    }
    if neighbor_alive(board, width, height, x, y, 0, -1) {
        count = count + 1;
    }
    if neighbor_alive(board, width, height, x, y, 1, -1) {
        count = count + 1;
    }
    if neighbor_alive(board, width, height, x, y, -1, 0) {
        count = count + 1;
    }
    if neighbor_alive(board, width, height, x, y, 1, 0) {
        count = count + 1;
    }
    if neighbor_alive(board, width, height, x, y, -1, 1) {
        count = count + 1;
    }
    if neighbor_alive(board, width, height, x, y, 0, 1) {
        count = count + 1;
    }
    if neighbor_alive(board, width, height, x, y, 1, 1) {
        count = count + 1;
    }
    count
}

/// Applies the Life rule to one cell: a live cell with fewer than two or
/// more than three live neighbors dies, one with two or three survives, and
/// a dead cell with exactly three comes alive.
pub fn next_cell_state(alive: bool, neighbors: u32) -> (r: bool)
    ensures
        r == life_rule(alive, neighbors as int),
        neighbors <= 1 ==> !r,
        neighbors == 2 ==> r == alive,
        neighbors == 3 ==> r,
        neighbors >= 4 ==> !r,
{
    if alive && neighbors < 2 {
        false
    } else if alive && neighbors <= 3 {
        true
    } else if alive && neighbors > 3 {
        false
    } else {
        !alive && neighbors == 3
    }
}

/// The number of cells of a board of `width` by `height` cells.
pub fn cell_count(width: u32, height: u32) -> (r: u64)
    ensures
        r == width * height,
{
    proof {
        assert(width * height <= u32::MAX * u32::MAX) by (nonlinear_arith)
            requires
                width <= u32::MAX,
                height <= u32::MAX,
        ;
    }
    (width as u64) * (height as u64)
}

/// Computes the next state of each cell of `[from, to)` from
/// `source_board` and writes it into `target_board`; every other cell of
/// `target_board` is left as it was. Fails, changing nothing, when either
/// board is not `board_width * board_height` cells long or the range does
/// not lie within it.
pub fn play_round(
    from: usize,
    to: usize,
    source_board: &Vec<bool>,
    target_board: &mut Vec<bool>,
    board_width: u32,
    board_height: u32,
) -> (r: Result<(), BoardError>)
    ensures
        r is Ok <==> (source_board@.len() == board_width * board_height && old(target_board)@.len() == board_width * board_height && from <= to <= board_width * board_height),
        r is Err ==> r == Err::<(), BoardError>(BoardError::DimensionMismatch) && final(target_board)@ == old(target_board)@,
        r is Ok ==> final(target_board)@ == apply_chunk(
            source_board@,
            old(target_board)@,
            board_width as int,
            board_height as int,
            from as int,
            to as int,
        ),
{
    let cells = cell_count(board_width, board_height);
    if source_board.len() as u64 != cells || target_board.len() as u64 != cells || from > to || to
        > target_board.len() {
        return Err(BoardError::DimensionMismatch);
    }
    let ghost before = target_board@;
    let mut i: usize = from;
    while i < to
        invariant
            from <= i <= to,
            to <= target_board@.len(),
            source_board@.len() == board_width * board_height,
            target_board@.len() == before.len(),
            before.len() == board_width * board_height,
            target_board@ == apply_chunk(
                source_board@,
                before,
                board_width as int,
                board_height as int,
                from as int,
                i as int,
            ),
        decreases to - i,
    {
        let alive = source_board[i];
        let neighbors = num_of_neighbors(i, source_board, board_width, board_height);
        target_board.set(i, next_cell_state(alive, neighbors));
        i = i + 1;
        assert(target_board@ =~= apply_chunk(
            source_board@,
            before,
            board_width as int,
            board_height as int,
            from as int,
            i as int,
        ));
    }
    Ok(())
}

/// The first index of chunk `k` when `total` cells are split among
/// `workers` chunks of `total / workers` cells.
pub open spec fn chunk_start(total: int, workers: int, k: int) -> int {
    k * (total / workers)
}

/// The end (exclusive) of chunk `k`; the last chunk takes the remainder.
pub open spec fn chunk_end(total: int, workers: int, k: int) -> int {
    if k + 1 < workers {
        (k + 1) * (total / workers)
    } else {
        total
    }
}

proof fn lemma_chunk_bounds(total: int, workers: int, k: int)
    requires
        total >= 0,
        workers >= 1,
        0 <= k < workers,
    ensures
        0 <= chunk_start(total, workers, k) <= chunk_end(total, workers, k) <= total,
{
    let s = total / workers;
    assert(0 <= k * s <= (k + 1) * s) by (nonlinear_arith)
        requires
            k >= 0,
            s >= 0,
    ;
    assert((k + 1) * s <= total) by (nonlinear_arith)
        requires
            k + 1 <= workers,
            s == total / workers,
            s >= 0,
            workers >= 1,
            total >= 0,
    ;
}

/// Splits `[0, total)` into `workers` contiguous ranges of `total / workers`
/// cells each, the last one also taking the remainder.
pub fn chunk_ranges(total: usize, workers: usize) -> (r: Vec<(usize, usize)>)
    requires
        workers >= 1,
    ensures
        r@.len() == workers,
        forall|k: int|
            0 <= k < workers ==> #[trigger] r@[k].0 == chunk_start(total as int, workers as int, k)
                && r@[k].1 == chunk_end(total as int, workers as int, k),
{
    let size = total / workers;
    let mut ranges: Vec<(usize, usize)> = Vec::new();
    let mut k: usize = 0;
    while k < workers
        invariant
            k <= workers,
            workers >= 1,
            size == total / workers,
            ranges@.len() == k,
            forall|j: int|
                0 <= j < k ==> #[trigger] ranges@[j].0 == chunk_start(
                    total as int,
                    workers as int,
                    j,
                ) && ranges@[j].1 == chunk_end(total as int, workers as int, j),
        decreases workers - k,
    {
        proof {
            lemma_chunk_bounds(total as int, workers as int, k as int);
            assert((k + 1) * size == k * size + size) by (nonlinear_arith);
        }
        let from = k * size;
        let to = if k + 1 < workers {
            from + size
        } else {
            total
        };
        ranges.push((from, to));
        assert(chunk_start(total as int, workers as int, k as int) == from);
        assert(chunk_end(total as int, workers as int, k as int) == to);
        assert(ranges@[k as int] == (from, to));
        k = k + 1;
    }
    ranges
}

/// `target` after chunks `0 .. k` of `[0, source.len())` have each been
/// brought to the next generation, in order.
pub open spec fn apply_chunks(
    source: Seq<bool>,
    target: Seq<bool>,
    width: int,
    height: int,
    workers: int,
    k: int,
) -> Seq<bool>
    decreases k,
{
    if k <= 0 {
        target
    } else {
        apply_chunk(
            source,
            apply_chunks(source, target, width, height, workers, k - 1),
            width,
            height,
            chunk_start(source.len() as int, workers, k - 1),
            chunk_end(source.len() as int, workers, k - 1),
        )
    }
}

proof fn lemma_apply_chunks_prefix(
    source: Seq<bool>,
    target: Seq<bool>,
    width: int,
    height: int,
    workers: int,
    k: int,
)
    requires
        workers >= 1,
        0 <= k <= workers,
        target.len() == source.len(),
    ensures
        apply_chunks(source, target, width, height, workers, k) == apply_chunk(
            source,
            target,
            width,
            height,
            0,
            if k < workers {
                chunk_start(source.len() as int, workers, k)
            } else {
                source.len() as int
            },
        ),
    decreases k,
{
    let n = source.len() as int;
    if k == 0 {
        assert(chunk_start(n, workers, 0) == 0);
        assert(apply_chunk(source, target, width, height, 0, 0) =~= target);
    } else {
        lemma_apply_chunks_prefix(source, target, width, height, workers, k - 1);
        lemma_chunk_bounds(n, workers, k - 1);
        let s = n / workers;
        if k < workers {
            assert(chunk_end(n, workers, k - 1) == chunk_start(n, workers, k));
        }
        assert(apply_chunks(source, target, width, height, workers, k) =~= apply_chunk(
            source,
            target,
            width,
            height,
            0,
            if k < workers {
                chunk_start(n, workers, k)
            } else {
                n
            },
        ));
    }
}

/// Running every chunk of a round, for any number of workers, yields the
/// whole next generation.
pub proof fn lemma_chunked_round_is_next_generation(
    source: Seq<bool>,
    target: Seq<bool>,
    width: int,
    height: int,
    workers: int,
)
    requires
        workers >= 1,
        target.len() == source.len(),
    ensures
        apply_chunks(source, target, width, height, workers, workers) == next_generation(
            source,
            width,
            height,
        ),
{
    lemma_apply_chunks_prefix(source, target, width, height, workers, workers);
    assert(apply_chunk(source, target, width, height, 0, source.len() as int) =~= next_generation(
        source,
        width,
        height,
    ));
}

/// A round gives the same board whatever the number of workers it is split
/// among.
pub proof fn lemma_round_independent_of_workers(
    source: Seq<bool>,
    target: Seq<bool>,
    width: int,
    height: int,
    workers_a: int,
    workers_b: int,
)
    requires
        workers_a >= 1,
        workers_b >= 1,
        target.len() == source.len(),
    ensures
        apply_chunks(source, target, width, height, workers_a, workers_a) == apply_chunks(
            source,
            target,
            width,
            height,
            workers_b,
            workers_b,
        ),
{
    lemma_chunked_round_is_next_generation(source, target, width, height, workers_a);
    lemma_chunked_round_is_next_generation(source, target, width, height, workers_b);
}

/// Brings every cell of `target_board` to the next generation of
/// `source_board`, one chunk of `chunk_ranges` after another. Fails,
/// changing nothing, when either board is not `board_width * board_height`
/// cells long.
pub fn advance(
    source_board: &Vec<bool>,
    target_board: &mut Vec<bool>,
    board_width: u32,
    board_height: u32,
    workers: usize,
) -> (r: Result<(), BoardError>)
    requires
        workers >= 1,
    ensures
        r is Ok <==> (source_board@.len() == board_width * board_height && old(target_board)@.len() == board_width * board_height),
        r is Err ==> r == Err::<(), BoardError>(BoardError::DimensionMismatch) && final(target_board)@ == old(target_board)@,
        r is Ok ==> final(target_board)@ == apply_chunks(
            source_board@,
            old(target_board)@,
            board_width as int,
            board_height as int,
            workers as int,
            workers as int,
        ),
        r is Ok ==> final(target_board)@ == next_generation(
            source_board@,
            board_width as int,
            board_height as int,
        ),
{
    let cells = cell_count(board_width, board_height);
    if source_board.len() as u64 != cells || target_board.len() as u64 != cells {
        return Err(BoardError::DimensionMismatch);
    }
    let ghost before = target_board@;
    let total = source_board.len();
    let chunks = chunk_ranges(total, workers);
    let mut k: usize = 0;
    while k < workers
        invariant
            k <= workers,
            workers >= 1,
            chunks@.len() == workers,
            total == source_board@.len(),
            source_board@.len() == board_width * board_height,
            before.len() == total,
            target_board@.len() == total,
            forall|j: int|
                0 <= j < workers ==> #[trigger] chunks@[j].0 == chunk_start(
                    total as int,
                    workers as int,
                    j,
                ) && chunks@[j].1 == chunk_end(total as int, workers as int, j),
            target_board@ == apply_chunks(
                source_board@,
                before,
                board_width as int,
                board_height as int,
                workers as int,
                k as int,
            ),
        decreases workers - k,
    {
        let (from, to) = chunks[k];
        proof {
            lemma_chunk_bounds(total as int, workers as int, k as int);
        }
        let done = play_round(from, to, source_board, target_board, board_width, board_height);
        assert(done is Ok);
        k = k + 1;
    }
    proof {
        lemma_chunked_round_is_next_generation(
            source_board@,
            before,
            board_width as int,
            board_height as int,
            workers as int,
        );
    }
    Ok(())
}

/// Relies on `num_cpus::get`: the number of CPUs this process may use,
/// which its documentation says is always at least 1.
#[verifier::external_body]
fn available_workers() -> (r: usize)
    ensures
        r >= 1,
{
    num_cpus::get()
}

/// Splits `[0, total)` into one chunk per CPU available to this process,
/// as `chunk_ranges` does.
pub fn partition_for_workers(total: usize) -> (r: Vec<(usize, usize)>)
    ensures
        r@.len() >= 1,
        forall|k: int|
            0 <= k < r@.len() ==> #[trigger] r@[k].0 == chunk_start(
                total as int,
                r@.len() as int,
                k,
            ) && r@[k].1 == chunk_end(total as int, r@.len() as int, k),
{
    chunk_ranges(total, available_workers())
}

proof fn lemma_flat_index_zero(x: int, y: int, width: int)
    requires
        0 <= x < width,
        0 <= y,
        width * y + x == 0,
    ensures
        x == 0 && y == 0,
{
    assert(y == 0) by (nonlinear_arith)
        requires
            0 <= x < width,
            0 <= y,
            width * y + x == 0,
    ;
}

proof fn lemma_only_origin_alive(board: Seq<bool>, width: int, height: int, x: int, y: int)
    requires
        board.len() == width * height,
        forall|j: int| 0 < j < board.len() ==> !#[trigger] board[j],
    ensures
        alive_at(board, x, y, width, height) ==> x == 0 && y == 0,
{
    if alive_at(board, x, y, width, height) {
        lemma_index_in_board(x, y, width, height);
        lemma_flat_index_zero(x, y, width);
    }
}

/// No wraparound at the corner: when the cell at `(0, 0)` is the only live
/// one, the only cells that see a live neighbor are `(1, 0)`, `(0, 1)` and
/// `(1, 1)`.
pub proof fn lemma_corner_cell_reach(board: Seq<bool>, width: int, height: int, i: int)
    requires
        width >= 1,
        height >= 1,
        board.len() == width * height,
        forall|j: int| 0 < j < board.len() ==> !#[trigger] board[j],
        0 <= i < board.len(),
        neighbor_count(board, i, width, height) > 0,
    ensures
        i == 1 || i == width || i == width + 1,
{
    let x = i % width;
    let y = i / width;
    assert(i == width * y + x) by (nonlinear_arith)
        requires
            width >= 1,
            x == i % width,
            y == i / width,
    ;
    lemma_only_origin_alive(board, width, height, x - 1, y - 1);
    lemma_only_origin_alive(board, width, height, x, y - 1);
    lemma_only_origin_alive(board, width, height, x + 1, y - 1);
    lemma_only_origin_alive(board, width, height, x - 1, y);
    lemma_only_origin_alive(board, width, height, x + 1, y);
    lemma_only_origin_alive(board, width, height, x - 1, y + 1);
    lemma_only_origin_alive(board, width, height, x, y + 1);
    lemma_only_origin_alive(board, width, height, x + 1, y + 1);
    assert(0 <= x <= 1 && 0 <= y <= 1 && !(x == 0 && y == 0));
    if y == 0 {
        assert(width * y == 0);
    } else {
        assert(y == 1);
        assert(width * y == width) by (nonlinear_arith)
            requires
                y == 1,
        ;
    }
}

/// The state of cell `i` of a board `new_width` cells wide made from `old`,
/// a board of `old_width` by `old_height` cells: the old state where the
/// position lay on the old board, dead elsewhere.
pub open spec fn resized_cell(
    old: Seq<bool>,
    old_width: int,
    old_height: int,
    new_width: int,
    i: int,
) -> bool {
    let x = i % new_width;
    let y = i / new_width;
    let j = old_width * y + x;
    x < old_width && y < old_height && j < old.len() && old[j]
}

/// Makes a board of `new_width` by `new_height` cells that keeps the
/// top-left region it shares with `old`; every other cell is dead.
pub fn resize_board(
    old: &Vec<bool>,
    old_width: u32,
    old_height: u32,
    new_width: u32,
    new_height: u32,
) -> (r: Vec<bool>)
    requires
        new_width * new_height <= usize::MAX,
    ensures
        r@.len() == new_width * new_height,
        forall|i: int|
            0 <= i < r@.len() ==> #[trigger] r@[i] == resized_cell(
                old@,
                old_width as int,
                old_height as int,
                new_width as int,
                i,
            ),
{
    let total = cell_count(new_width, new_height) as usize;
    let mut cells: Vec<bool> = Vec::new();
    let mut i: usize = 0;
    while i < total
        invariant
            i <= total,
            total == new_width * new_height,
            cells@.len() == i,
            forall|j: int|
                0 <= j < i ==> #[trigger] cells@[j] == resized_cell(
                    old@,
                    old_width as int,
                    old_height as int,
                    new_width as int,
                    j,
                ),
        decreases total - i,
    {
        proof {
            assert(new_width > 0) by (nonlinear_arith)
                requires
                    i < total,
                    total == new_width * new_height,
            ;
        }
        let x = i % (new_width as usize);
        let y = i / (new_width as usize);
        let mut alive = false;
        if x < old_width as usize && y < old_height as usize {
            proof {
                assert(old_width * y + x <= u32::MAX * u32::MAX + u32::MAX) by (nonlinear_arith)
                    requires
                        old_width <= u32::MAX,
                        y < u32::MAX,
                        x < u32::MAX,
                ;
            }
            let j: u64 = (old_width as u64) * (y as u64) + (x as u64);
            if j < old.len() as u64 {
                alive = old[j as usize];
            }
        }
        cells.push(alive);
        i = i + 1;
    }
    cells
}

} // verus!
