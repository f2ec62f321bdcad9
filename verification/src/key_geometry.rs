//! Pixel-space calibration of the photographic key sources: the measured
//! separators between keys and the areas reserved for their labels. All
//! measurements are whole pixels (label centres in tenths of a pixel).
use vstd::prelude::*;

verus! {

/// Width and height of each alpha row's source image (rows 1 to 5).
pub const ALPHA_SOURCE_WIDTHS: [u32; 5] = [2129, 2119, 2114, 2128, 2131];
pub const ALPHA_SOURCE_HEIGHTS: [u32; 5] = [184, 180, 184, 184, 177];

pub const NUMPAD_SOURCE_SIZE: (u32, u32) = (598, 738);
pub const CLEAN_NUMPAD_SOURCE_SIZE: (u32, u32) = (1166, 1349);

/// Red separator centers of the numpad source; each row keeps its own columns.
pub const NUMPAD_COLUMN_BOUNDARIES: [[u32; 5]; 5] = [
    [0, 168, 307, 446, 598],
    [0, 163, 299, 433, 598],
    [0, 162, 300, 433, 598],
    [0, 162, 300, 433, 598],
    [0, 161, 299, 433, 598],
];

pub const NUMPAD_ROW_BOUNDARIES: [u32; 6] = [0, 158, 296, 442, 581, 738];

/// Dark separator valleys of the blank-cap numpad source.
pub const CLEAN_NUMPAD_COLUMN_BOUNDARIES: [[u32; 5]; 5] = [
    [0, 313, 583, 858, 1166],
    [0, 304, 575, 843, 1166],
    [0, 301, 569, 838, 1166],
    [0, 302, 569, 842, 1166],
    [0, 301, 571, 845, 1166],
];

pub const CLEAN_NUMPAD_ROW_BOUNDARIES: [u32; 6] = [0, 284, 538, 796, 1051, 1349];

/// Safe-text boxes of the numpad source (x, y, width, height), row-major.
pub const NUMPAD_TEXT_BOUNDS: [[u32; 4]; 20] = [
    [80, 34, 88, 103],
    [218, 24, 89, 103],
    [357, 26, 87, 105],
    [493, 25, 89, 104],
    [72, 166, 88, 101],
    [203, 167, 96, 101],
    [342, 167, 88, 104],
    [478, 165, 89, 105],
    [64, 303, 95, 106],
    [200, 305, 89, 102],
    [334, 304, 97, 105],
    [472, 309, 89, 106],
    [64, 446, 97, 107],
    [198, 454, 96, 107],
    [335, 447, 96, 107],
    [474, 453, 97, 107],
    [61, 592, 95, 108],
    [209, 589, 86, 109],
    [343, 590, 87, 108],
    [485, 592, 85, 107],
];

/// Separator centers of the alpha rows.
pub const ROW_1_BOUNDARIES: [u32; 15] = [0, 233, 379, 519, 661, 803, 946, 1085, 1222, 1360, 1497, 1631, 1769, 1902, 2129];
pub const ROW_2_BOUNDARIES: [u32; 16] = [0, 153, 298, 438, 584, 722, 866, 1005, 1141, 1283, 1422, 1557, 1692, 1827, 1963, 2119];
pub const ROW_3_BOUNDARIES: [u32; 15] = [0, 226, 366, 509, 654, 789, 929, 1075, 1207, 1346, 1482, 1619, 1753, 1888, 2114];
pub const ROW_4_BOUNDARIES: [u32; 16] = [0, 164, 306, 447, 589, 732, 876, 1014, 1153, 1293, 1431, 1565, 1699, 1835, 1971, 2128];
pub const ROW_5_BOUNDARIES: [u32; 15] = [0, 250, 369, 521, 664, 806, 949, 1086, 1225, 1361, 1497, 1630, 1766, 1904, 2131];

/// Text-boundary boxes of rows 1, 3, 4 and 5 (x, y, width, height).
pub const ROW_1_TEXT_BOUNDS: [[u32; 4]; 14] = [
    [19, 29, 177, 112],
    [236, 31, 109, 107],
    [382, 30, 106, 108],
    [522, 30, 109, 106],
    [664, 30, 108, 107],
    [809, 31, 109, 108],
    [950, 32, 109, 108],
    [1090, 30, 104, 108],
    [1231, 38, 105, 102],
    [1373, 37, 104, 103],
    [1509, 37, 105, 104],
    [1652, 45, 101, 96],
    [1789, 36, 102, 101],
    [1922, 38, 177, 102],
];
pub const ROW_3_TEXT_BOUNDS: [[u32; 4]; 14] = [
    [13, 38, 174, 107],
    [228, 38, 111, 108],
    [368, 41, 108, 100],
    [510, 36, 144, 106],
    [654, 40, 135, 107],
    [789, 35, 116, 107],
    [940, 40, 108, 100],
    [1083, 41, 109, 101],
    [1212, 43, 109, 101],
    [1354, 43, 109, 101],
    [1495, 43, 104, 101],
    [1639, 43, 95, 102],
    [1775, 43, 103, 103],
    [1911, 40, 176, 104],
];
pub const ROW_4_TEXT_BOUNDS: [[u32; 4]; 15] = [
    [18, 38, 107, 110],
    [168, 38, 108, 111],
    [306, 40, 104, 104],
    [452, 41, 108, 104],
    [595, 39, 105, 105],
    [734, 41, 106, 106],
    [882, 43, 106, 102],
    [1023, 41, 107, 103],
    [1164, 40, 107, 103],
    [1302, 44, 107, 103],
    [1440, 40, 107, 103],
    [1579, 42, 107, 103],
    [1720, 41, 103, 103],
    [1859, 37, 106, 106],
    [1997, 40, 103, 103],
];
/// Row 5 has no label box at its two empty intervals (indices 1 and 12).
pub const ROW_5_TEXT_BOUNDS: [[u32; 4]; 14] = [
    [20, 37, 179, 111],
    [0, 0, 0, 0],
    [381, 43, 107, 102],
    [524, 43, 107, 103],
    [668, 43, 108, 103],
    [811, 43, 108, 103],
    [952, 43, 108, 103],
    [1098, 43, 108, 103],
    [1234, 43, 109, 104],
    [1373, 49, 102, 98],
    [1507, 45, 103, 99],
    [1645, 48, 103, 99],
    [0, 0, 0, 0],
    [1927, 43, 174, 99],
];

/// Label centres of row 2, in tenths of a pixel (x, y).
pub const ROW_2_TEXT_CENTERS: [[u32; 2]; 15] = [
    [625, 940],
    [2097, 972],
    [3559, 974],
    [4974, 972],
    [6401, 976],
    [7853, 978],
    [9265, 980],
    [10618, 940],
    [12009, 941],
    [13445, 943],
    [14822, 932],
    [16194, 956],
    [17675, 977],
    [19048, 980],
    [20369, 981],
];

} // verus!

verus! {

/// A rectangle of source pixels.
#[derive(Clone, Copy, Debug, PartialEq, Eq, Structural)]
pub struct SourceRect {
    pub x: u32,
    pub y: u32,
    pub width: u32,
    pub height: u32,
}

/// Where a key's label goes.
#[derive(Clone, Copy, Debug, PartialEq, Eq, Structural)]
pub enum TextGuide {
    /// A marker identifies the preferred center of the label (tenths of a pixel).
    Center { x_tenths: u32, y_tenths: u32 },
    /// A rectangle that rendered text may not cross.
    Bounds(SourceRect),
}

/// The rectangle written as (x, y, width, height).
pub open spec fn rect_of(a: [u32; 4]) -> SourceRect {
    SourceRect { x: a@[0], y: a@[1], width: a@[2], height: a@[3] }
}

/// The point lies inside the rectangle, edges included.
pub open spec fn rect_contains(outer: SourceRect, inner: SourceRect) -> bool {
    &&& outer.x <= inner.x
    &&& inner.x + inner.width <= outer.x + outer.width
    &&& outer.y <= inner.y
    &&& inner.y + inner.height <= outer.y + outer.height
}

/// The label guide lies inside the key's rectangle.
pub open spec fn guide_inside(key: SourceRect, guide: TextGuide) -> bool {
    match guide {
        TextGuide::Center { x_tenths, y_tenths } => {
            &&& 10 * key.x <= x_tenths <= 10 * (key.x + key.width)
            &&& 10 * key.y <= y_tenths <= 10 * (key.y + key.height)
        },
        TextGuide::Bounds(bounds) => rect_contains(key, bounds),
    }
}

/// Each value is smaller than the next.
pub open spec fn strictly_increasing(s: Seq<u32>) -> bool {
    forall|i: int| 0 <= i < s.len() - 1 ==> #[trigger] s[i] < s[i + 1]
}

/// The values start at zero, rise strictly and end at `extent`: consecutive
/// values bound pieces that tile `0..extent` without gaps or overlaps.
pub open spec fn tiles(s: Seq<u32>, extent: u32) -> bool {
    &&& s.len() >= 2
    &&& s[0] == 0
    &&& s[s.len() - 1] == extent
    &&& strictly_increasing(s)
}

/// The measured separators of alpha row `row` (1 to 5).
pub open spec fn alpha_boundaries(row: int) -> Seq<u32> {
    if row == 1 {
        ROW_1_BOUNDARIES@
    } else if row == 2 {
        ROW_2_BOUNDARIES@
    } else if row == 3 {
        ROW_3_BOUNDARIES@
    } else if row == 4 {
        ROW_4_BOUNDARIES@
    } else if row == 5 {
        ROW_5_BOUNDARIES@
    } else {
        Seq::empty()
    }
}

pub open spec fn alpha_width(row: int) -> u32 {
    ALPHA_SOURCE_WIDTHS@[row - 1]
}

pub open spec fn alpha_height(row: int) -> u32 {
    ALPHA_SOURCE_HEIGHTS@[row - 1]
}

/// Rows 1 to 5 carry measured separators.
pub fn has_annotated_boundaries(row: usize) -> (r: bool)
    ensures
        r == (1 <= row <= 5),
{
    1 <= row && row <= 5
}

/// Which measured key a column (in sixths of a key unit) falls on. Rows 1, 3
/// and 5 start with a key one and a half units wide, so their later keys sit
/// on half columns; rows 2 and 4 round the column to the nearest whole unit.
pub open spec fn annotated_index(row: int, col_sixths: int) -> int {
    if row == 2 || row == 4 {
        (col_sixths + 3) / 6
    } else {
        col_sixths / 6
    }
}

fn annotated_key_index(row: usize, col_sixths: u16) -> (r: Option<usize>)
    ensures
        r == (if 1 <= row <= 5 { Some(annotated_index(row as int, col_sixths as int) as usize) } else { None::<usize> }),
{
    if !has_annotated_boundaries(row) {
        return None;
    }
    if row == 2 || row == 4 {
        Some(((col_sixths as usize) + 3) / 6)
    } else {
        Some((col_sixths as usize) / 6)
    }
}

fn alpha_boundary_count(row: usize) -> (r: usize)
    requires
        1 <= row <= 5,
    ensures
        r == alpha_boundaries(row as int).len(),
{
    if row == 2 || row == 4 { 16 } else { 15 }
}

fn alpha_boundary(row: usize, i: usize) -> (r: u32)
    requires
        1 <= row <= 5,
        i < alpha_boundaries(row as int).len(),
    ensures
        r == alpha_boundaries(row as int)[i as int],
{
    if row == 1 {
        ROW_1_BOUNDARIES[i]
    } else if row == 2 {
        ROW_2_BOUNDARIES[i]
    } else if row == 3 {
        ROW_3_BOUNDARIES[i]
    } else if row == 4 {
        ROW_4_BOUNDARIES[i]
    } else {
        ROW_5_BOUNDARIES[i]
    }
}

/// The column (in sixths of a unit) scaled onto a source `width` pixels wide
/// that spans fifteen units, rounded to the nearest pixel (halves up).
pub open spec fn scaled_column(col_sixths: int, width: int) -> int {
    (col_sixths * width + 45) / 90
}

/// The source-pixel crop of an alpha key at column `col_sixths` spanning
/// `width_sixths` (both in sixths of a key unit). A key that lands on a
/// measured interval uses its separators; any other key is placed on an even
/// fifteen-unit grid.
pub open spec fn alpha_key_rect(row: int, col_sixths: int, width_sixths: int) -> SourceRect {
    let b = alpha_boundaries(row);
    let i = annotated_index(row, col_sixths);
    if i + 1 < b.len() {
        SourceRect { x: b[i], y: 0, width: (b[i + 1] - b[i]) as u32, height: alpha_height(row) }
    } else {
        let x0 = scaled_column(col_sixths, alpha_width(row) as int);
        let x1 = scaled_column(col_sixths + width_sixths, alpha_width(row) as int);
        SourceRect { x: x0 as u32, y: 0, width: (x1 - x0) as u32, height: alpha_height(row) }
    }
}

pub fn alpha_key_source_rect(row: usize, col_sixths: u16, width_sixths: u16) -> (r: SourceRect)
    requires
        1 <= row <= 5,
    ensures
        r == alpha_key_rect(row as int, col_sixths as int, width_sixths as int),
{
    proof {
        lemma_alpha_boundaries_tile(row as int);
    }
    let height = ALPHA_SOURCE_HEIGHTS[row - 1];
    let count = alpha_boundary_count(row);
    let index = if row == 2 || row == 4 {
        ((col_sixths as usize) + 3) / 6
    } else {
        (col_sixths as usize) / 6
    };
    if index + 1 < count {
        let x0 = alpha_boundary(row, index);
        let x1 = alpha_boundary(row, index + 1);
        SourceRect { x: x0, y: 0, width: x1 - x0, height }
    } else {
        let source_width = ALPHA_SOURCE_WIDTHS[row - 1] as u64;
        let c0 = col_sixths as u64;
        let c1 = c0 + width_sixths as u64;
        assert(c1 * source_width <= 131070 * 2131) by (nonlinear_arith)
            requires
                c1 <= 131070,
                source_width <= 2131,
        ;
        assert(c0 * source_width <= c1 * source_width) by (nonlinear_arith)
            requires
                c0 <= c1,
        ;
        let x0 = (c0 * source_width + 45) / 90;
        let x1 = (c1 * source_width + 45) / 90;
        assert(x0 <= x1) by {
            vstd::arithmetic::div_mod::lemma_div_is_ordered(
                (c0 * source_width + 45) as int,
                (c1 * source_width + 45) as int,
                90,
            );
        }
        SourceRect { x: x0 as u32, y: 0, width: (x1 - x0) as u32, height }
    }
}

/// The label guide measured for key `index` of alpha row `row`. Row 2 marks
/// label centers; the other rows mark boxes, except the two empty intervals
/// of row 5 (whose entries have zero width).
pub open spec fn alpha_guide_at(row: int, index: int) -> Option<TextGuide> {
    if row == 1 && 0 <= index < 14 {
        Some(TextGuide::Bounds(rect_of(ROW_1_TEXT_BOUNDS@[index])))
    } else if row == 2 && 0 <= index < 15 {
        Some(TextGuide::Center { x_tenths: ROW_2_TEXT_CENTERS@[index]@[0], y_tenths: ROW_2_TEXT_CENTERS@[index]@[1] })
    } else if row == 3 && 0 <= index < 14 {
        Some(TextGuide::Bounds(rect_of(ROW_3_TEXT_BOUNDS@[index])))
    } else if row == 4 && 0 <= index < 15 {
        Some(TextGuide::Bounds(rect_of(ROW_4_TEXT_BOUNDS@[index])))
    } else if row == 5 && 0 <= index < 14 && ROW_5_TEXT_BOUNDS@[index]@[2] != 0 {
        Some(TextGuide::Bounds(rect_of(ROW_5_TEXT_BOUNDS@[index])))
    } else {
        None
    }
}

fn rect_from(a: [u32; 4]) -> (r: SourceRect)
    ensures
        r == rect_of(a),
{
    SourceRect { x: a[0], y: a[1], width: a[2], height: a[3] }
}

/// The label guide of the alpha key at column `col_sixths` of row `row`.
pub fn alpha_text_guide(row: usize, col_sixths: u16) -> (r: Option<TextGuide>)
    ensures
        r == (if 1 <= row <= 5 { alpha_guide_at(row as int, annotated_index(row as int, col_sixths as int)) } else { None::<TextGuide> }),
{
    let index = match annotated_key_index(row, col_sixths) {
        Some(index) => index,
        None => return None,
    };
    if row == 1 {
        if index < 14 { Some(TextGuide::Bounds(rect_from(ROW_1_TEXT_BOUNDS[index]))) } else { None }
    } else if row == 2 {
        if index < 15 {
            let c = ROW_2_TEXT_CENTERS[index];
            Some(TextGuide::Center { x_tenths: c[0], y_tenths: c[1] })
        } else {
            None
        }
    } else if row == 3 {
        if index < 14 { Some(TextGuide::Bounds(rect_from(ROW_3_TEXT_BOUNDS[index]))) } else { None }
    } else if row == 4 {
        if index < 15 { Some(TextGuide::Bounds(rect_from(ROW_4_TEXT_BOUNDS[index]))) } else { None }
    } else {
        if index < 14 && ROW_5_TEXT_BOUNDS[index][2] != 0 {
            Some(TextGuide::Bounds(rect_from(ROW_5_TEXT_BOUNDS[index])))
        } else {
            None
        }
    }
}

/// The measured crop of numpad key (`column`, `row`) in the 4x5 grid.
pub open spec fn numpad_key_rect(column: int, row: int) -> SourceRect {
    let columns = NUMPAD_COLUMN_BOUNDARIES@[row]@;
    SourceRect {
        x: columns[column],
        y: NUMPAD_ROW_BOUNDARIES@[row],
        width: (columns[column + 1] - columns[column]) as u32,
        height: (NUMPAD_ROW_BOUNDARIES@[row + 1] - NUMPAD_ROW_BOUNDARIES@[row]) as u32,
    }
}

pub open spec fn clean_numpad_key_rect(column: int, row: int) -> SourceRect {
    let columns = CLEAN_NUMPAD_COLUMN_BOUNDARIES@[row]@;
    SourceRect {
        x: columns[column],
        y: CLEAN_NUMPAD_ROW_BOUNDARIES@[row],
        width: (columns[column + 1] - columns[column]) as u32,
        height: (CLEAN_NUMPAD_ROW_BOUNDARIES@[row + 1] - CLEAN_NUMPAD_ROW_BOUNDARIES@[row]) as u32,
    }
}

/// Returns the measured source-pixel crop for one key in the 4x5 numpad.
pub fn numpad_key_source_rect(column: usize, row: usize) -> (r: SourceRect)
    requires
        column < 4,
        row < 5,
    ensures
        r == numpad_key_rect(column as int, row as int),
{
    proof {
        lemma_numpad_boundaries_tile(row as int);
    }
    let columns = NUMPAD_COLUMN_BOUNDARIES[row];
    SourceRect {
        x: columns[column],
        y: NUMPAD_ROW_BOUNDARIES[row],
        width: columns[column + 1] - columns[column],
        height: NUMPAD_ROW_BOUNDARIES[row + 1] - NUMPAD_ROW_BOUNDARIES[row],
    }
}

/// Returns the source crop for a blank cap of the clean numpad source.
pub fn clean_numpad_key_source_rect(column: usize, row: usize) -> (r: SourceRect)
    requires
        column < 4,
        row < 5,
    ensures
        r == clean_numpad_key_rect(column as int, row as int),
{
    proof {
        lemma_clean_numpad_boundaries_tile(row as int);
    }
    let columns = CLEAN_NUMPAD_COLUMN_BOUNDARIES[row];
    SourceRect {
        x: columns[column],
        y: CLEAN_NUMPAD_ROW_BOUNDARIES[row],
        width: columns[column + 1] - columns[column],
        height: CLEAN_NUMPAD_ROW_BOUNDARIES[row + 1] - CLEAN_NUMPAD_ROW_BOUNDARIES[row],
    }
}

/// The safe-text box of numpad key (`column`, `row`), read in row-major
/// order; none past the last of the twenty boxes.
pub open spec fn numpad_guide_at(column: int, row: int) -> Option<TextGuide> {
    let index = row * 4 + column;
    if 0 <= index < 20 {
        Some(TextGuide::Bounds(rect_of(NUMPAD_TEXT_BOUNDS@[index])))
    } else {
        None
    }
}

pub fn numpad_text_guide(column: usize, row: usize) -> (r: Option<TextGuide>)
    ensures
        r == numpad_guide_at(column as int, row as int),
{
    let index = match row.checked_mul(4) {
        Some(scaled) => match scaled.checked_add(column) {
            Some(index) => index,
            None => return None,
        },
        None => return None,
    };
    if index < 20 {
        Some(TextGuide::Bounds(rect_from(NUMPAD_TEXT_BOUNDS[index])))
    } else {
        None
    }
}

/// Every alpha row's measured separators tile its source from the left edge
/// to the right edge, each key strictly wider than nothing.
pub proof fn lemma_alpha_boundaries_tile(row: int)
    requires
        1 <= row <= 5,
    ensures
        tiles(alpha_boundaries(row), alpha_width(row)),
{
}

/// The column (in sixths) of the `i`-th measured key of alpha row `row`:
/// rows 2 and 4 start on whole units; rows 1, 3 and 5 have a one-unit key
/// first and then keys offset by half a unit.
pub open spec fn measured_column(row: int, i: int) -> int {
    if row == 2 || row == 4 {
        6 * i
    } else if i == 0 {
        0
    } else {
        6 * i + 3
    }
}

/// The `i`-th measured key of an alpha row is cropped exactly between its
/// two separators, over the full height of the source, whatever width it
/// is asked with; so a row's measured keys tile its source without gaps.
pub proof fn lemma_measured_key_crop(row: int, i: int, width_sixths: int)
    requires
        1 <= row <= 5,
        0 <= i,
        i + 1 < alpha_boundaries(row).len(),
    ensures
        alpha_key_rect(row, measured_column(row, i), width_sixths) == (SourceRect {
            x: alpha_boundaries(row)[i],
            y: 0,
            width: (alpha_boundaries(row)[i + 1] - alpha_boundaries(row)[i]) as u32,
            height: alpha_height(row),
        }),
        alpha_boundaries(row)[i] < alpha_boundaries(row)[i + 1],
{
    lemma_alpha_boundaries_tile(row);
    assert(annotated_index(row, measured_column(row, i)) == i);
}

/// Each numpad row's column separators tile the source's width, and the row
/// separators tile its height.
pub proof fn lemma_numpad_boundaries_tile(row: int)
    requires
        0 <= row < 5,
    ensures
        tiles(NUMPAD_COLUMN_BOUNDARIES@[row]@, NUMPAD_SOURCE_SIZE.0),
        tiles(NUMPAD_ROW_BOUNDARIES@, NUMPAD_SOURCE_SIZE.1),
{
}

/// The same holds of the blank-cap numpad source.
pub proof fn lemma_clean_numpad_boundaries_tile(row: int)
    requires
        0 <= row < 5,
    ensures
        tiles(CLEAN_NUMPAD_COLUMN_BOUNDARIES@[row]@, CLEAN_NUMPAD_SOURCE_SIZE.0),
        tiles(CLEAN_NUMPAD_ROW_BOUNDARIES@, CLEAN_NUMPAD_SOURCE_SIZE.1),
{
}

/// Every numpad key has a text box, and it stays inside the key.
pub proof fn lemma_numpad_text_inside_key(column: int, row: int)
    requires
        0 <= column < 4,
        0 <= row < 5,
    ensures
        numpad_guide_at(column, row) is Some,
        guide_inside(numpad_key_rect(column, row), numpad_guide_at(column, row)->0),
{
}

/// Every label guide of a measured alpha key lies inside that key's crop.
pub proof fn lemma_alpha_guide_inside_key(row: int, index: int)
    requires
        1 <= row <= 5,
        0 <= index,
        index + 1 < alpha_boundaries(row).len(),
        alpha_guide_at(row, index) is Some,
    ensures
        guide_inside(
            SourceRect {
                x: alpha_boundaries(row)[index],
                y: 0,
                width: (alpha_boundaries(row)[index + 1] - alpha_boundaries(row)[index]) as u32,
                height: alpha_height(row),
            },
            alpha_guide_at(row, index)->0,
        ),
{
}

} // verus!
