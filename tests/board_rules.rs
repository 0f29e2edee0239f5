use gol::board::{
    advance, cell_count, chunk_ranges, next_cell_state, num_of_neighbors, partition_for_workers,
    play_round, resize_board, BoardError,
};

fn board_with(width: u32, height: u32, alive: &[(u32, u32)]) -> Vec<bool> {
    let mut b = vec![false; (width * height) as usize];
    for &(x, y) in alive {
        b[(y * width + x) as usize] = true;
    }
    b
}

fn live_cells(b: &[bool], width: u32) -> Vec<(u32, u32)> {
    let mut out = Vec::new();
    for (i, &alive) in b.iter().enumerate() {
        if alive {
            out.push((i as u32 % width, i as u32 / width));
        }
    }
    out
}

#[test]
fn underpopulated_cells_die() {
    assert!(!next_cell_state(true, 0));
    assert!(!next_cell_state(true, 1));
    assert!(!next_cell_state(false, 0));
    assert!(!next_cell_state(false, 1));
}

#[test]
fn two_neighbors_keep_state() {
    assert!(next_cell_state(true, 2));
    assert!(!next_cell_state(false, 2));
}

#[test]
fn three_neighbors_bring_life() {
    assert!(next_cell_state(true, 3));
    assert!(next_cell_state(false, 3));
}

#[test]
fn crowded_cells_die() {
    for n in 4..=8 {
        assert!(!next_cell_state(true, n));
        assert!(!next_cell_state(false, n));
    }
}

#[test]
fn corner_cell_reaches_three_neighbors_only() {
    let (w, h) = (5u32, 4u32);
    let b = board_with(w, h, &[(0, 0)]);
    let mut reached = Vec::new();
    for i in 0..(w * h) as usize {
        let n = num_of_neighbors(i, &b, w, h);
        assert!(n <= 1);
        if n == 1 {
            reached.push(i);
        }
    }
    assert_eq!(reached, vec![1, 5, 6]);
}

#[test]
fn neighbor_count_of_full_board() {
    let (w, h) = (3u32, 3u32);
    let b = vec![true; 9];
    assert_eq!(num_of_neighbors(4, &b, w, h), 8);
    assert_eq!(num_of_neighbors(0, &b, w, h), 3);
    assert_eq!(num_of_neighbors(1, &b, w, h), 5);
    assert_eq!(num_of_neighbors(8, &b, w, h), 3);
}

#[test]
fn right_edge_does_not_wrap() {
    let (w, h) = (4u32, 3u32);
    let b = board_with(w, h, &[(0, 1)]);
    // (3, 0) is just before (0, 1) in flat order but not its neighbor.
    assert_eq!(num_of_neighbors(3, &b, w, h), 0);
    assert_eq!(num_of_neighbors(7, &b, w, h), 0);
    assert_eq!(num_of_neighbors(1, &b, w, h), 1);
}

#[test]
fn blinker_oscillates() {
    let (w, h) = (3u32, 3u32);
    let horizontal = board_with(w, h, &[(0, 1), (1, 1), (2, 1)]);
    let mut next = vec![false; 9];
    assert_eq!(advance(&horizontal, &mut next, w, h, 2), Ok(()));
    assert_eq!(live_cells(&next, w), vec![(1, 0), (1, 1), (1, 2)]);
    let mut back = vec![false; 9];
    assert_eq!(advance(&next, &mut back, w, h, 2), Ok(()));
    assert_eq!(back, horizontal);
}

#[test]
fn worker_count_does_not_change_round() {
    let (w, h) = (7u32, 5u32);
    let source = board_with(w, h, &[(1, 0), (2, 1), (0, 2), (1, 2), (2, 2), (5, 3), (6, 4), (6, 3)]);
    let mut one = vec![true; 35];
    assert_eq!(advance(&source, &mut one, w, h, 1), Ok(()));
    for workers in [2usize, 3, 4, 8, 35, 64] {
        let mut many = vec![false; 35];
        assert_eq!(advance(&source, &mut many, w, h, workers), Ok(()));
        assert_eq!(many, one);
    }
}

#[test]
fn advance_rejects_wrong_sizes() {
    let source = vec![false; 8];
    let mut target = vec![true; 9];
    assert_eq!(advance(&source, &mut target, 3, 3, 1), Err(BoardError::DimensionMismatch));
    assert_eq!(target, vec![true; 9]);
}

#[test]
fn play_round_touches_only_its_range() {
    let (w, h) = (3u32, 3u32);
    let source = board_with(w, h, &[(0, 1), (1, 1), (2, 1)]);
    let mut target = vec![true; 9];
    assert_eq!(play_round(0, 3, &source, &mut target, w, h), Ok(()));
    assert_eq!(target, vec![false, true, false, true, true, true, true, true, true]);
}

#[test]
fn play_round_rejects_bad_range() {
    let source = vec![false; 9];
    let mut target = vec![false; 9];
    assert_eq!(play_round(4, 3, &source, &mut target, 3, 3), Err(BoardError::DimensionMismatch));
    assert_eq!(play_round(0, 10, &source, &mut target, 3, 3), Err(BoardError::DimensionMismatch));
}

#[test]
fn chunks_split_evenly_with_remainder_last() {
    assert_eq!(chunk_ranges(10, 3), vec![(0, 3), (3, 6), (6, 10)]);
    assert_eq!(chunk_ranges(2, 4), vec![(0, 0), (0, 0), (0, 0), (0, 2)]);
    assert_eq!(chunk_ranges(0, 1), vec![(0, 0)]);
}

#[test]
fn machine_partition_covers_all_cells() {
    let chunks = partition_for_workers(1000);
    assert!(!chunks.is_empty());
    assert_eq!(chunks[0].0, 0);
    assert_eq!(chunks[chunks.len() - 1].1, 1000);
    for pair in chunks.windows(2) {
        assert_eq!(pair[0].1, pair[1].0);
    }
}

#[test]
fn cell_count_multiplies() {
    assert_eq!(cell_count(128, 128), 16384);
    assert_eq!(cell_count(u32::MAX, 2), 2 * u32::MAX as u64);
}

#[test]
fn resize_keeps_top_left_region() {
    let old = board_with(4, 4, &[(1, 1)]);
    let grown = resize_board(&old, 4, 4, 6, 6);
    assert_eq!(grown.len(), 36);
    assert_eq!(live_cells(&grown, 6), vec![(1, 1)]);
    let shrunk = resize_board(&board_with(4, 4, &[(1, 1), (3, 3)]), 4, 4, 2, 3);
    assert_eq!(live_cells(&shrunk, 2), vec![(1, 1)]);
}
