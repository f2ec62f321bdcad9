use k2_viewer::key_geometry::{
    alpha_key_source_rect, alpha_text_guide, clean_numpad_key_source_rect, has_annotated_boundaries,
    numpad_key_source_rect, numpad_text_guide, SourceRect, TextGuide, ALPHA_SOURCE_WIDTHS,
    CLEAN_NUMPAD_COLUMN_BOUNDARIES, CLEAN_NUMPAD_ROW_BOUNDARIES, CLEAN_NUMPAD_SOURCE_SIZE,
    NUMPAD_COLUMN_BOUNDARIES, NUMPAD_ROW_BOUNDARIES, NUMPAD_SOURCE_SIZE, ROW_1_BOUNDARIES,
    ROW_2_BOUNDARIES, ROW_3_BOUNDARIES, ROW_4_BOUNDARIES, ROW_5_BOUNDARIES,
};

#[test]
fn annotated_boundaries_cover_every_alpha_row_without_gaps() {
    for (row, boundaries) in [
        (1, ROW_1_BOUNDARIES.as_slice()),
        (2, ROW_2_BOUNDARIES.as_slice()),
        (3, ROW_3_BOUNDARIES.as_slice()),
        (4, ROW_4_BOUNDARIES.as_slice()),
        (5, ROW_5_BOUNDARIES.as_slice()),
    ] {
        assert_eq!(boundaries.first(), Some(&0));
        assert_eq!(boundaries.last(), Some(&ALPHA_SOURCE_WIDTHS[row - 1]));
        assert!(boundaries.windows(2).all(|pair| pair[0] < pair[1]));
    }
}

#[test]
fn numpad_boundaries_cover_the_source_without_gaps() {
    for columns in NUMPAD_COLUMN_BOUNDARIES {
        assert_eq!(columns.first(), Some(&0));
        assert_eq!(columns.last(), Some(&NUMPAD_SOURCE_SIZE.0));
        assert!(columns.windows(2).all(|pair| pair[0] < pair[1]));
    }
    assert_eq!(NUMPAD_ROW_BOUNDARIES.first(), Some(&0));
    assert_eq!(NUMPAD_ROW_BOUNDARIES.last(), Some(&NUMPAD_SOURCE_SIZE.1));
    assert!(NUMPAD_ROW_BOUNDARIES.windows(2).all(|pair| pair[0] < pair[1]));
}

#[test]
fn clean_numpad_boundaries_cover_the_source_without_gaps() {
    for columns in CLEAN_NUMPAD_COLUMN_BOUNDARIES {
        assert_eq!(columns.first(), Some(&0));
        assert_eq!(columns.last(), Some(&CLEAN_NUMPAD_SOURCE_SIZE.0));
        assert!(columns.windows(2).all(|pair| pair[0] < pair[1]));
    }
    assert_eq!(CLEAN_NUMPAD_ROW_BOUNDARIES.first(), Some(&0));
    assert_eq!(CLEAN_NUMPAD_ROW_BOUNDARIES.last(), Some(&CLEAN_NUMPAD_SOURCE_SIZE.1));
    assert!(CLEAN_NUMPAD_ROW_BOUNDARIES.windows(2).all(|pair| pair[0] < pair[1]));
}

fn assert_inside(key: SourceRect, bounds: SourceRect) {
    assert!(bounds.x >= key.x);
    assert!(bounds.x + bounds.width <= key.x + key.width);
    assert!(bounds.y >= key.y);
    assert!(bounds.y + bounds.height <= key.y + key.height);
}

#[test]
fn every_numpad_text_box_stays_inside_its_key() {
    for row in 0..5 {
        for column in 0..4 {
            let key = numpad_key_source_rect(column, row);
            let Some(TextGuide::Bounds(bounds)) = numpad_text_guide(column, row) else {
                panic!("numpad key must have a bounded text guide");
            };
            assert_inside(key, bounds);
        }
    }
}

/// Columns and widths in sixths of a key unit.
fn assert_guide(row: usize, col: u16, width: u16) {
    let key = alpha_key_source_rect(row, col, width);
    match alpha_text_guide(row, col).expect("annotated key must have a text guide") {
        TextGuide::Center { x_tenths, y_tenths } => {
            assert!(x_tenths >= 10 * key.x && x_tenths <= 10 * (key.x + key.width));
            assert!(y_tenths >= 10 * key.y && y_tenths <= 10 * (key.y + key.height));
        }
        TextGuide::Bounds(bounds) => assert_inside(key, bounds),
    }
}

#[test]
fn every_trial_text_guide_stays_inside_its_key() {
    for row in [1, 3] {
        for index in 0..14u16 {
            let col = if index == 0 { 0 } else { 6 * index + 3 };
            let width = if index == 0 || index == 13 { 9 } else { 6 };
            assert_guide(row, col, width);
        }
    }
    for row in [2, 4] {
        for column in 0..15u16 {
            assert_guide(row, 6 * column, 6);
        }
    }
    assert_guide(5, 0, 9);
    for column in 2..=11u16 {
        assert_guide(5, 6 * column + 3, 6);
    }
    assert_guide(5, 81, 9);
}

#[test]
fn only_the_five_alpha_rows_are_annotated() {
    assert!(!has_annotated_boundaries(0));
    for row in 1..=5 {
        assert!(has_annotated_boundaries(row));
    }
    assert!(!has_annotated_boundaries(6));
    assert_eq!(alpha_text_guide(6, 0), None);
}

#[test]
fn alpha_crops_use_measured_separators() {
    assert_eq!(
        alpha_key_source_rect(1, 0, 9),
        SourceRect { x: 0, y: 0, width: 233, height: 184 }
    );
    // Row 2 rounds a column to the nearest whole unit: 2.5 units is key 3.
    assert_eq!(
        alpha_key_source_rect(2, 15, 6),
        SourceRect { x: 438, y: 0, width: 146, height: 180 }
    );
    assert_eq!(
        alpha_text_guide(2, 0),
        Some(TextGuide::Center { x_tenths: 625, y_tenths: 940 })
    );
}

#[test]
fn keys_past_the_measured_separators_use_the_even_grid() {
    // Row 1 has fourteen measured keys; a key at column 14.5 is past them and
    // is placed on the fifteen-unit grid: round(14.5 / 15 * 2129) = 2058.
    let rect = alpha_key_source_rect(1, 87, 3);
    assert_eq!(rect.x, 2058);
    assert_eq!(rect.x + rect.width, 2129);
}

#[test]
fn bottom_row_gaps_have_no_label_box() {
    assert_eq!(alpha_text_guide(5, 6 + 3), None);
    assert_eq!(alpha_text_guide(5, 12 * 6 + 3), None);
}

#[test]
fn numpad_guides_end_after_twenty_keys() {
    assert!(numpad_text_guide(3, 4).is_some());
    assert_eq!(numpad_text_guide(0, 5), None);
    assert_eq!(numpad_text_guide(usize::MAX, usize::MAX), None);
}

#[test]
fn numpad_crops_follow_each_row_and_source() {
    assert_eq!(
        numpad_key_source_rect(0, 0),
        SourceRect { x: 0, y: 0, width: 168, height: 158 }
    );
    assert_eq!(
        clean_numpad_key_source_rect(3, 4),
        SourceRect { x: 845, y: 1051, width: 321, height: 298 }
    );
}
