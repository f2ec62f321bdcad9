use std::collections::HashSet;

use k2_viewer::render::drum_pad_name;

#[test]
fn every_drum_pad_has_a_distinct_display_name() {
    let names: Vec<&str> = (36..=55).filter_map(drum_pad_name).collect();
    let distinct: HashSet<&str> = names.iter().copied().collect();

    assert_eq!(names.len(), 20);
    assert_eq!(distinct.len(), 20);
    assert_eq!(drum_pad_name(35), None);
    assert_eq!(drum_pad_name(56), None);
}
