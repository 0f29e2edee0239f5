//! Reference shapes: their cells, and how they are read from run-length
//! encoded text.

use vstd::prelude::*;
use vstd::string::StringExecFns;
use crate::rle_guard::{rle_guarded, rle_is_guarded};

verus! {

/// One cell of a shape: its position relative to the shape's top-left
/// corner, and whether the shape asks for it alive or dead.
#[derive(Debug, Clone, Copy, PartialEq, Eq, Structural)]
pub struct PatternCell {
    pub x: u32,
    pub y: u32,
    pub alive: bool,
}

/// A reference shape: a name, a bounding box, and the cells it asks for.
pub struct RuleLengthEncoded {
    pub name: String,
    pub width: u32,
    pub height: u32,
    pub data: Vec<PatternCell>,
}

/// The mathematical content of a [`RuleLengthEncoded`].
pub ghost struct PatternView {
    pub name: Seq<char>,
    pub width: u32,
    pub height: u32,
    pub cells: Seq<PatternCell>,
}

impl View for RuleLengthEncoded {
    type V = PatternView;

    open spec fn view(&self) -> PatternView {
        PatternView { name: self.name@, width: self.width, height: self.height, cells: self.data@ }
    }
}

impl RuleLengthEncoded {
    /// Every cell lies within the bounding box.
    pub open spec fn wf(&self) -> bool {
        forall|j: int|
            0 <= j < self.data@.len() ==> #[trigger] self.data@[j].x < self.width
                && self.data@[j].y < self.height
    }
}

/// Why a shape could not be read.
#[derive(Debug, Clone, Copy, PartialEq, Eq, Structural)]
pub enum PatternError {
    /// The text is not run-length encoded, or has no header line.
    Malformed,
    /// The bounding box does not fit in `u32`, or a cell lies outside it.
    OutOfBounds,
}

/// What `ca_formats` reads from run-length encoded text: the width and
/// height of its header line, and the position and state of each live cell
/// in the order the text gives them; `None` when the text does not parse
/// or has no header line.
pub uninterp spec fn rle_decoded(text: Seq<char>) -> Option<(u64, u64, Seq<(i64, i64, u8)>)>;

/// Relies on `ca_formats::rle::Rle`: `Rle::new` reads the header lines,
/// `header_data` hands out the `x` and `y` of the header, and iterating
/// yields the live cells or the error that stopped the parse. The reader
/// adds up run counts and positions in `i64` and state numbers in `u8`;
/// `rle_guarded` admits only texts on which none of those sums overflows.
#[verifier::external_body]
fn decode_rle(text: &str) -> (r: Option<(u64, u64, Vec<(i64, i64, u8)>)>)
    requires
        rle_guarded(text@),
    ensures
        r is None ==> rle_decoded(text@) is None,
        r matches Some(d) ==> rle_decoded(text@) == Some((d.0, d.1, d.2@)),
{
    let rle = ca_formats::rle::Rle::new(text).ok()?;
    let (x, y) = rle.header_data().map(|h| (h.x, h.y))?;
    let cells: Result<Vec<(i64, i64, u8)>, ca_formats::rle::Error> = rle.map(
        |c| c.map(|c| (c.position.0, c.position.1, c.state)),
    ).collect();
    cells.ok().map(|v| (x, y, v))
}

/// Whether every decoded cell lies in the `width` by `height` box.
pub open spec fn cells_in_box(cells: Seq<(i64, i64, u8)>, width: u64, height: u64) -> bool {
    forall|j: int|
        0 <= j < cells.len() ==> 0 <= #[trigger] cells[j].0 < width && 0 <= cells[j].1 < height
}

/// A decoded cell as a shape cell: state 1 asks for a live cell.
pub open spec fn shape_cell(c: (i64, i64, u8)) -> PatternCell {
    PatternCell { x: c.0 as u32, y: c.1 as u32, alive: c.2 == 1 }
}

/// The shape named `name` built from a decoding result.
pub open spec fn shape_from(
    name: Seq<char>,
    decoded: Option<(u64, u64, Seq<(i64, i64, u8)>)>,
) -> Result<PatternView, PatternError> {
    match decoded {
        None => Err(PatternError::Malformed),
        Some((w, h, cells)) => if w > u32::MAX || h > u32::MAX || !cells_in_box(cells, w, h) {
            Err(PatternError::OutOfBounds)
        } else {
            Ok(
                PatternView {
                    name,
                    width: w as u32,
                    height: h as u32,
                    cells: cells.map_values(|c: (i64, i64, u8)| shape_cell(c)),
                },
            )
        },
    }
}

/// The shape named `name` read from run-length encoded `text`: malformed
/// when the text is outside what the reader can take without overflow.
pub open spec fn shape_from_text(name: Seq<char>, text: Seq<char>) -> Result<
    PatternView,
    PatternError,
> {
    if rle_guarded(text) {
        shape_from(name, rle_decoded(text))
    } else {
        Err(PatternError::Malformed)
    }
}

impl RuleLengthEncoded {
    /// Reads the shape named `name` from run-length encoded `text`: its
    /// bounding box comes from the header line, its cells from the live
    /// runs.
    pub fn new_from_rle(name: String, text: &str) -> (r: Result<Self, PatternError>)
        ensures
            r matches Ok(p) ==> shape_from_text(name@, text@) == Ok::<PatternView, PatternError>(
                p@,
            ) && p.wf(),
            r matches Err(e) ==> shape_from_text(name@, text@) == Err::<PatternView, PatternError>(
                e,
            ),
    {
        if !rle_is_guarded(text) {
            return Err(PatternError::Malformed);
        }
        match decode_rle(text) {
            None => Err(PatternError::Malformed),
            Some((width, height, cells)) => Self::from_cells(name, width, height, &cells),
        }
    }

    /// Builds the shape named `name` from a decoded header box and the
    /// decoded live cells, each as `(x, y, state)`. Fails when the box does
    /// not fit in `u32` or a cell lies outside it.
    pub fn from_cells(name: String, width: u64, height: u64, cells: &Vec<(i64, i64, u8)>) -> (r:
        Result<Self, PatternError>)
        ensures
            r matches Ok(p) ==> shape_from(name@, Some((width, height, cells@))) == Ok::<
                PatternView,
                PatternError,
            >(p@) && p.wf(),
            r matches Err(e) ==> shape_from(name@, Some((width, height, cells@))) == Err::<
                PatternView,
                PatternError,
            >(e),
    {
        if width > u32::MAX as u64 || height > u32::MAX as u64 {
            return Err(PatternError::OutOfBounds);
        }
        let mut data: Vec<PatternCell> = Vec::new();
        let mut j: usize = 0;
        while j < cells.len()
            invariant
                j <= cells@.len(),
                data@.len() == j,
                width <= u32::MAX,
                height <= u32::MAX,
                forall|i: int|
                    0 <= i < j ==> 0 <= #[trigger] cells@[i].0 < width && 0 <= cells@[i].1 < height,
                forall|i: int| 0 <= i < j ==> #[trigger] data@[i] == shape_cell(cells@[i]),
            decreases cells@.len() - j,
        {
            let (x, y, state) = cells[j];
            if x < 0 || x as u64 >= width || y < 0 || y as u64 >= height {
                assert(cells@[j as int] == (x, y, state));
                assert(!(0 <= cells@[j as int].0 < width && 0 <= cells@[j as int].1 < height));
                assert(!cells_in_box(cells@, width, height));
                return Err(PatternError::OutOfBounds);
            }
            data.push(PatternCell { x: x as u32, y: y as u32, alive: state == 1 });
            j = j + 1;
        }
        assert(data@ =~= cells@.map_values(|c: (i64, i64, u8)| shape_cell(c)));
        Ok(RuleLengthEncoded { name, width: width as u32, height: height as u32, data })
    }
}

/// Run-length encoded text of the beehive, a six-cell still life.
pub const BEEHIVE_RLE: &'static str = r"#N Beehive
#O John Conway
#C An extremely common 6-cell still life.
#C www.conwaylife.com/wiki/index.php?title=Beehive
x = 4, y = 3, rule = B3/S23
b2ob$o2bo$b2o!";

/// Run-length encoded text of the glider, the smallest spaceship.
pub const GLIDER_RLE: &'static str = r"#N Glider
#O Richard K. Guy
#C The smallest, most common, and first discovered spaceship. Diagonal, has period 4 and speed c/4.
#C www.conwaylife.com/wiki/index.php?title=Glider
x = 3, y = 3, rule = B3/S23
bob$2bo$3o!";

/// Run-length encoded text of the block, a four-cell still life.
pub const BLOCK_RLE: &'static str = r"#N Block
#C An extremely common 4-cell still life.
#C www.conwaylife.com/wiki/index.php?title=Block
x = 2, y = 2, rule = B3/S23
2o$2o!";

/// Run-length encoded text of the blinker, a period-2 oscillator.
pub const BLINKER_RLE: &'static str = r"#N Blinker
#O John Conway
#C A period 2 oscillator that is the smallest and most common oscillator.
#C www.conwaylife.com/wiki/index.php?title=Blinker
x = 3, y = 1, rule = B3/S23
3o!";

/// Run-length encoded text of the R-pentomino, a methuselah.
pub const R_PENTOMINO_RLE: &'static str = r"#N R-pentomino
#C A methuselah with lifespan 1103.
#C www.conwaylife.com/wiki/index.php?title=R-pentomino
x = 3, y = 3, rule = B3/S23
b2o$2ob$bo!";

/// Run-length encoded text of the glider loop, two gliders bounced along an ever-lengthening track.
pub const GLIDER_LOOP_RLE: &'static str = r"#N Glider loop
#C A pattern in which two gliders are bounced back and forth along an
#C ever-lengthening track.
#C www.conwaylife.com/wiki/index.php?title=Glider_loop
x = 73, y = 150, rule = b3/s23
45bo27b$37b3o5bo27b$36bo2b2o3bobo26b$35bo5bo3bo27b$41bo3bo27b$36b2o2bo
32b$25b2o11b2o33b$25b2o46b6$61bo11b$17b2o40b2ob2o9b$17b2o42bo11b3$59b
2o12b$58bo2bo11b$51bo5bo3b2o10b$51bo5bo4bo10b$9b2o40bo6bo3bo10b$9b2o
37bob3obo3bo2bo11b$48b5obo5bo12b$48bobo22b$52b2o17bob$52b2o9b3o5bob$
52bo9bo2b2o3bobo$51b2o8bo5bo3bob$46b2o3bo15bo3bob$17b3o31bo10b2o2bo6b$
20bo29b2obo10b2o7b$15b2o4bo30bo20b$18bo3bo50b$14bo4bo2bo50b$14bo3bo3bo
50b$14b3obob2o51b$18bo54b$14b4o7b3o45b$14b2o8bo3bo44b$24bo4bo28bo14b$
26bo3bo25b2o9b2o4b$23b3obo2bo24b2o8b3obo3b$22bo7bo23bo10bo3bo3b$22bobo
3bo26b5o5bob2o4b$21b2obo3bo27bo10bo5b$21b2ob3o46b5$63b2o8b$63b2o8b4$
43b3o27b$46bo26b$41b2o4bo25b$44bo3bo6b2o16b$40bo4bo2bo6b2o16b$40bo3bo
3bo24b$40b3obob2o25b$44bo28b$40b4o29b$40b2o31b2$47b2o24b$47b2o24b2$33b
o39b$33bobo37b$33b2o38b3$38b2o33b$37bobo33b$39bo33b2$24b2o47b$24b2o47b
2$31b2o40b$29b4o40b$28bo44b$25b2obob3o40b$24bo3bo3bo40b$16b2o6bo2bo4bo
40b$16b2o6bo3bo44b$25bo4b2o41b$26bo46b$27b3o43b4$8b2o63b$8b2o63b5$46b
3ob2o21b$5bo10bo27bo3bob2o21b$4b2obo5b5o26bo3bobo22b$3bo3bo10bo23bo7bo
22b$3bob3o8b2o24bo2bob3o23b$4b2o9b2o25bo3bo26b$14bo28bo4bo24b$44bo3bo
8b2o14b$45b3o7b4o14b$54bo18b$51b2obob3o14b$50bo3bo3bo14b$50bo2bo4bo14b
$50bo3bo18b$20bo30bo4b2o15b$7b2o10bob2o29bo20b$6bo2b2o10bo31b3o17b$bo
3bo15bo3b2o46b$bo3bo5bo8b2o51b$obo3b2o2bo9bo52b$bo5b3o9b2o52b$bo17b2o
52b$22bobo48b$12bo5bob5o48b$11bo2bo3bob3obo37b2o9b$10bo3bo6bo40b2o9b$
10bo4bo5bo51b$10b2o3bo5bo51b$11bo2bo58b$12b2o59b3$11bo42b2o17b$9b2ob2o
40b2o17b$11bo61b6$46b2o25b$33b2o11b2o25b$32bo2b2o36b$27bo3bo41b$27bo3b
o5bo35b$26bobo3b2o2bo36b$27bo5b3o37b$27bo!";

/// Entry `k` of the shape library, in match priority order.
pub open spec fn library_entry(k: int) -> Result<PatternView, PatternError> {
    if k == 0 {
        shape_from_text("Beehive"@, BEEHIVE_RLE@)
    } else if k == 1 {
        shape_from_text("Glider"@, GLIDER_RLE@)
    } else if k == 2 {
        shape_from_text("Block"@, BLOCK_RLE@)
    } else if k == 3 {
        shape_from_text("Blinker"@, BLINKER_RLE@)
    } else if k == 4 {
        shape_from_text("R-pentomino"@, R_PENTOMINO_RLE@)
    } else {
        shape_from_text("Glider loop"@, GLIDER_LOOP_RLE@)
    }
}

/// The beehive, entry 0 of the shape library.
pub fn get_beehive_pattern() -> (r: Result<RuleLengthEncoded, PatternError>)
    ensures
        r matches Ok(p) ==> library_entry(0) == Ok::<PatternView, PatternError>(p@) && p.wf(),
        r matches Err(e) ==> library_entry(0) == Err::<PatternView, PatternError>(e),
{
    RuleLengthEncoded::new_from_rle(String::from_str("Beehive"), BEEHIVE_RLE)
}

/// The glider, entry 1 of the shape library.
pub fn get_glider_pattern() -> (r: Result<RuleLengthEncoded, PatternError>)
    ensures
        r matches Ok(p) ==> library_entry(1) == Ok::<PatternView, PatternError>(p@) && p.wf(),
        r matches Err(e) ==> library_entry(1) == Err::<PatternView, PatternError>(e),
{
    RuleLengthEncoded::new_from_rle(String::from_str("Glider"), GLIDER_RLE)
}

/// The block, entry 2 of the shape library.
pub fn get_block_pattern() -> (r: Result<RuleLengthEncoded, PatternError>)
    ensures
        r matches Ok(p) ==> library_entry(2) == Ok::<PatternView, PatternError>(p@) && p.wf(),
        r matches Err(e) ==> library_entry(2) == Err::<PatternView, PatternError>(e),
{
    RuleLengthEncoded::new_from_rle(String::from_str("Block"), BLOCK_RLE)
}

/// The blinker, entry 3 of the shape library.
pub fn get_blinker_pattern() -> (r: Result<RuleLengthEncoded, PatternError>)
    ensures
        r matches Ok(p) ==> library_entry(3) == Ok::<PatternView, PatternError>(p@) && p.wf(),
        r matches Err(e) ==> library_entry(3) == Err::<PatternView, PatternError>(e),
{
    RuleLengthEncoded::new_from_rle(String::from_str("Blinker"), BLINKER_RLE)
}

/// The R-pentomino, entry 4 of the shape library.
pub fn get_r_pentomino() -> (r: Result<RuleLengthEncoded, PatternError>)
    ensures
        r matches Ok(p) ==> library_entry(4) == Ok::<PatternView, PatternError>(p@) && p.wf(),
        r matches Err(e) ==> library_entry(4) == Err::<PatternView, PatternError>(e),
{
    RuleLengthEncoded::new_from_rle(String::from_str("R-pentomino"), R_PENTOMINO_RLE)
}

/// The glider loop, entry 5 of the shape library.
pub fn get_n_glider_loop() -> (r: Result<RuleLengthEncoded, PatternError>)
    ensures
        r matches Ok(p) ==> library_entry(5) == Ok::<PatternView, PatternError>(p@) && p.wf(),
        r matches Err(e) ==> library_entry(5) == Err::<PatternView, PatternError>(e),
{
    RuleLengthEncoded::new_from_rle(String::from_str("Glider loop"), GLIDER_LOOP_RLE)
}

/// The shape library in match priority order: beehive, glider, block,
/// blinker, R-pentomino and glider loop. Fails with the error of the first
/// shape that cannot be read.
pub fn get_searchable_patterns() -> (r: Result<Vec<RuleLengthEncoded>, PatternError>)
    ensures
        r is Ok <==> forall|k: int| 0 <= k < 6 ==> #[trigger] library_entry(k) is Ok,
        r matches Ok(v) ==> v@.len() == 6 && forall|k: int|
            0 <= k < 6 ==> #[trigger] library_entry(k) == Ok::<PatternView, PatternError>(v@[k]@)
                && v@[k].wf(),
        r matches Err(e) ==> exists|k: int|
            0 <= k < 6 && #[trigger] library_entry(k) == Err::<PatternView, PatternError>(e)
                && forall|j: int| 0 <= j < k ==> #[trigger] library_entry(j) is Ok,
{
    let mut library: Vec<RuleLengthEncoded> = Vec::new();
    match get_beehive_pattern() {
        Ok(p) => library.push(p),
        Err(e) => {
            assert(library_entry(0) == Err::<PatternView, PatternError>(e));
            return Err(e);
        },
    }
    match get_glider_pattern() {
        Ok(p) => library.push(p),
        Err(e) => {
            assert(library_entry(1) == Err::<PatternView, PatternError>(e));
            return Err(e);
        },
    }
    match get_block_pattern() {
        Ok(p) => library.push(p),
        Err(e) => {
            assert(library_entry(2) == Err::<PatternView, PatternError>(e));
            return Err(e);
        },
    }
    match get_blinker_pattern() {
        Ok(p) => library.push(p),
        Err(e) => {
            assert(library_entry(3) == Err::<PatternView, PatternError>(e));
            return Err(e);
        },
    }
    match get_r_pentomino() {
        Ok(p) => library.push(p),
        Err(e) => {
            assert(library_entry(4) == Err::<PatternView, PatternError>(e));
            return Err(e);
        },
    }
    match get_n_glider_loop() {
        Ok(p) => library.push(p),
        Err(e) => {
            assert(library_entry(5) == Err::<PatternView, PatternError>(e));
            return Err(e);
        },
    }
    assert(forall|k: int| 0 <= k < 6 ==> library_entry(k) == Ok::<PatternView, PatternError>(library@[k]@));
    Ok(library)
}

} // verus!
