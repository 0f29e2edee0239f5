use gol::patterns::{
    get_blinker_pattern, get_block_pattern, get_glider_pattern, get_searchable_patterns,
    PatternCell, PatternError, RuleLengthEncoded, BEEHIVE_RLE, BLINKER_RLE, BLOCK_RLE,
    GLIDER_LOOP_RLE, GLIDER_RLE, R_PENTOMINO_RLE,
};
use gol::rle_guard::rle_is_guarded;
use gol::scan::{clear_overlay, detect_patterns};
use gol::board::BoardError;
use gol::utils::{clamp, to_coordinate_1d, to_coordinate_2d};
use gol::world::{cell_color, place_seed, resize_buffers};

fn board_with(width: u32, height: u32, alive: &[(u32, u32)]) -> Vec<bool> {
    let mut b = vec![false; (width * height) as usize];
    for &(x, y) in alive {
        b[(y * width + x) as usize] = true;
    }
    b
}

fn cell(x: u32, y: u32) -> PatternCell {
    PatternCell { x, y, alive: true }
}

#[test]
fn glider_cells_are_read_from_rle() {
    let glider = get_glider_pattern().unwrap();
    assert_eq!(glider.name, "Glider");
    assert_eq!((glider.width, glider.height), (3, 3));
    assert_eq!(glider.data, vec![cell(1, 0), cell(2, 1), cell(0, 2), cell(1, 2), cell(2, 2)]);
}

#[test]
fn library_is_in_priority_order() {
    let library = get_searchable_patterns().unwrap();
    let names: Vec<&str> = library.iter().map(|p| p.name.as_str()).collect();
    assert_eq!(names, vec!["Beehive", "Glider", "Block", "Blinker", "R-pentomino", "Glider loop"]);
    assert_eq!(library[5].width, 73);
    assert_eq!(library[5].height, 150);
    assert_eq!(library[0].data.len(), 6);
}

#[test]
fn malformed_rle_is_rejected() {
    let r = RuleLengthEncoded::new_from_rle(String::from("bad"), "x = 2, y = 2\n2o$2z!");
    assert!(matches!(r, Err(PatternError::Malformed)));
    let r = RuleLengthEncoded::new_from_rle(String::from("no header"), "2o$2o!");
    assert!(matches!(r, Err(PatternError::Malformed)));
}

#[test]
fn cell_outside_box_is_rejected() {
    let r = RuleLengthEncoded::new_from_rle(String::from("wide"), "x = 2, y = 1\n3o!");
    assert!(matches!(r, Err(PatternError::OutOfBounds)));
}

#[test]
fn block_rle_text_parses() {
    let p = RuleLengthEncoded::new_from_rle(String::from("B"), BLOCK_RLE).unwrap();
    assert_eq!(p.data, vec![cell(0, 0), cell(1, 0), cell(0, 1), cell(1, 1)]);
}

#[test]
fn isolated_block_is_tagged() {
    let (w, h) = (6u32, 6u32);
    let board = board_with(w, h, &[(2, 2), (3, 2), (2, 3), (3, 3)]);
    let library = get_searchable_patterns().unwrap();
    let mut overlay = vec![0u8; 36];
    assert_eq!(detect_patterns(0, 36, &board, w, h, &mut overlay, &library), Ok(()));
    for i in 0..36usize {
        let expected = if board[i] { 3 } else { 0 };
        assert_eq!(overlay[i], expected, "cell {}", i);
    }
}

#[test]
fn claimed_cells_are_not_taken_again() {
    let (w, h) = (4u32, 1u32);
    let board = vec![true; 4];
    let library = vec![get_blinker_pattern().unwrap()];
    let mut overlay = vec![0u8; 4];
    assert_eq!(detect_patterns(0, 4, &board, w, h, &mut overlay, &library), Ok(()));
    assert_eq!(overlay, vec![1, 1, 1, 0]);
    let mut preclaimed = vec![0u8, 0, 0, 9];
    assert_eq!(detect_patterns(0, 4, &board, w, h, &mut preclaimed, &library), Ok(()));
    assert_eq!(preclaimed, vec![1, 1, 1, 9]);
}

#[test]
fn shapes_do_not_wrap_across_rows() {
    let (w, h) = (3u32, 2u32);
    // Two live cells at the end of row 0 and one at the start of row 1.
    let board = board_with(w, h, &[(1, 0), (2, 0), (0, 1)]);
    let library = vec![get_blinker_pattern().unwrap()];
    let mut overlay = vec![0u8; 6];
    assert_eq!(detect_patterns(0, 6, &board, w, h, &mut overlay, &library), Ok(()));
    assert_eq!(overlay, vec![0u8; 6]);
}

#[test]
fn first_shape_in_library_wins() {
    let (w, h) = (2u32, 2u32);
    let board = vec![true; 4];
    let library = vec![get_block_pattern().unwrap(), get_block_pattern().unwrap()];
    let mut overlay = vec![0u8; 4];
    assert_eq!(detect_patterns(0, 4, &board, w, h, &mut overlay, &library), Ok(()));
    assert_eq!(overlay, vec![1u8; 4]);
}

#[test]
fn scan_rejects_wrong_sizes() {
    let board = vec![false; 4];
    let mut overlay = vec![0u8; 3];
    let library: Vec<RuleLengthEncoded> = Vec::new();
    assert_eq!(
        detect_patterns(0, 4, &board, 2, 2, &mut overlay, &library),
        Err(BoardError::DimensionMismatch)
    );
    assert_eq!(overlay, vec![0u8; 3]);
}

#[test]
fn clearing_overlay_zeroes_every_cell() {
    let mut overlay = vec![3u8, 1, 0, 7, 2];
    clear_overlay(&mut overlay, 3, 2);
    assert_eq!(overlay, vec![0u8; 6]);
}

#[test]
fn resize_from_four_to_six() {
    let a = board_with(4, 4, &[(1, 1)]);
    let b = board_with(4, 4, &[(3, 3)]);
    let (na, nb, overlay) = resize_buffers(&a, &b, 4, 4, 6, 6);
    assert_eq!(na, board_with(6, 6, &[(1, 1)]));
    assert_eq!(nb, board_with(6, 6, &[(3, 3)]));
    assert_eq!(overlay, vec![0u8; 36]);
}

#[test]
fn seed_is_centred() {
    let (w, h) = (8u32, 8u32);
    let mut board = vec![false; 64];
    let block = get_block_pattern().unwrap();
    assert_eq!(place_seed(&mut board, w, h, &block), Ok(()));
    assert_eq!(board, board_with(w, h, &[(3, 3), (4, 3), (3, 4), (4, 4)]));
}

#[test]
fn oversized_seed_starts_at_corner() {
    let (w, h) = (2u32, 2u32);
    let mut board = vec![false; 4];
    let glider = get_glider_pattern().unwrap();
    assert_eq!(place_seed(&mut board, w, h, &glider), Ok(()));
    // Only (1, 0) lands on the board; every other cell falls past its end.
    assert_eq!(board, vec![false, true, false, false]);
    let mut short = vec![false; 3];
    assert_eq!(place_seed(&mut short, w, h, &glider), Err(BoardError::DimensionMismatch));
}

#[test]
fn colors_follow_claims() {
    assert_eq!(cell_color(false, 3), (0, 0, 0));
    assert_eq!(cell_color(true, 0), (255, 255, 255));
    assert_eq!(cell_color(true, 1), (255, 0, 0));
    assert_eq!(cell_color(true, 3), (0, 0, 255));
    assert_eq!(cell_color(true, 7), (255, 255, 255));
}

#[test]
fn coordinates_round_trip() {
    assert_eq!(to_coordinate_1d(3, 2, 10), 23);
    assert_eq!(to_coordinate_2d(23, 10), (3, 2));
    assert_eq!(to_coordinate_2d(-7, 3), (-1, -2));
    assert_eq!(to_coordinate_1d(-1, 1, 4), 3);
}

#[test]
fn clamp_raises_to_minimum_only() {
    assert_eq!(clamp(-5, 0, 10), 0);
    assert_eq!(clamp(5, 0, 10), 5);
    assert_eq!(clamp(15, 0, 10), 15);
}

#[test]
fn long_run_count_is_refused() {
    assert!(rle_is_guarded("x = 3, y = 1\n123456789b3o!"));
    assert!(!rle_is_guarded("x = 3, y = 1\n1234567890b3o!"));
    assert!(!rle_is_guarded("x = 3, y = 1\n12345 67890b3o!"));
    let r = RuleLengthEncoded::new_from_rle(String::from("long"), "x = 1, y = 1\n99999999999999999999o!");
    assert!(matches!(r, Err(PatternError::Malformed)));
}

#[test]
fn high_state_after_y_prefix_is_refused() {
    assert!(rle_is_guarded("x = 1, y = 1, rule = B3/S23\nyO!"));
    assert!(!rle_is_guarded("x = 1, y = 1\nyP!"));
    assert!(!rle_is_guarded("x = 1, y = 1\ny\n#C comment\nx = 1, y = 1\n2X!"));
    let r = RuleLengthEncoded::new_from_rle(String::from("states"), "x = 1, y = 1\nyX!");
    assert!(matches!(r, Err(PatternError::Malformed)));
}

#[test]
fn moved_origin_is_refused() {
    assert!(!rle_is_guarded("#CXRLE Pos=9223372036854775800,0\nx = 1, y = 1\n9o!"));
    assert!(rle_is_guarded("#C XRLE\nx = 1, y = 1\no!"));
}

#[test]
fn library_texts_pass_the_guard() {
    for text in [BEEHIVE_RLE, GLIDER_RLE, BLOCK_RLE, BLINKER_RLE, R_PENTOMINO_RLE, GLIDER_LOOP_RLE] {
        assert!(rle_is_guarded(text));
    }
}

#[test]
fn cells_become_shape_cells() {
    let p = RuleLengthEncoded::from_cells(String::from("pair"), 3, 2, &vec![(0, 0, 1), (2, 1, 2)]).unwrap();
    assert_eq!((p.width, p.height), (3, 2));
    assert_eq!(p.data, vec![cell(0, 0), PatternCell { x: 2, y: 1, alive: false }]);
    let r = RuleLengthEncoded::from_cells(String::from("off"), 3, 2, &vec![(0, 0, 1), (3, 0, 1)]);
    assert!(matches!(r, Err(PatternError::OutOfBounds)));
    let r = RuleLengthEncoded::from_cells(String::from("neg"), 3, 2, &vec![(-1, 0, 1)]);
    assert!(matches!(r, Err(PatternError::OutOfBounds)));
    let r = RuleLengthEncoded::from_cells(String::from("huge"), 1 << 33, 2, &vec![]);
    assert!(matches!(r, Err(PatternError::OutOfBounds)));
}

#[test]
fn empty_shape_never_matches_nor_shadows() {
    let (w, h) = (2u32, 2u32);
    let board = vec![true; 4];
    let empty = RuleLengthEncoded { name: String::from("empty"), width: 0, height: 0, data: Vec::new() };
    let library = vec![empty, get_block_pattern().unwrap()];
    let mut overlay = vec![0u8; 4];
    assert_eq!(detect_patterns(0, 4, &board, w, h, &mut overlay, &library), Ok(()));
    assert_eq!(overlay, vec![2u8; 4]);
}
