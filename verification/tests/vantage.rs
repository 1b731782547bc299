use voxelcraft::harness::vantage::{find, select, vantage_names};

#[test]
fn find_gives_the_position_of_a_named_vantage() {
    let names = vantage_names();
    assert_eq!(names.len(), 21);
    assert_eq!(find("default", &names), Some(0));
    assert_eq!(find("shore", &names), Some(3));
    assert_eq!(find("offscreen-shadow", &names), Some(20));
    assert_eq!(find("Shore", &names), None);
    assert_eq!(find("", &names), None);
}

#[test]
fn a_blank_selection_is_every_vantage() {
    let names = vantage_names();
    assert_eq!(select("", &names), Ok((0..21).collect::<Vec<usize>>()));
    assert_eq!(select("  \t", &names), Ok((0..21).collect::<Vec<usize>>()));
}

#[test]
fn a_selection_picks_each_trimmed_name_in_order() {
    let names = vantage_names();
    assert_eq!(select("lattice, default ,night", &names), Ok(vec![4, 0, 14]));
    assert_eq!(select("sky,sky", &names), Ok(vec![8, 8]));
}

#[test]
fn a_selection_with_an_unknown_name_is_refused_with_it() {
    let names = vantage_names();
    assert_eq!(select("shore, moon ,mars", &names), Err("moon".to_string()));
    assert_eq!(select("shore,,sky", &names), Err(String::new()));
}
