use voxelcraft::text::{is_float_text, split_ranges};

fn float_ok(s: &str) -> bool {
    let c: Vec<char> = s.chars().collect();
    is_float_text(&c, 0, c.len())
}

#[test]
fn float_text_agrees_with_str_parse() {
    for s in [
        "0", "1", "1.", ".5", "-.5", "+3.25", "1e5", "1E-5", "2.5e+10", "inf", "-INF", "Infinity",
        "+infinity", "NaN", "nan", "0.00050", "5e-4", "1_000", "", " 1", "1 ", ".", "e5", "1e",
        "1e+", "--1", "+-1", "1.2.3", "0x10", "infinit", "nana", "1.e3", ".e3", "١", "12e3.5",
        "-", "+", "-nan", "iNf",
    ] {
        assert_eq!(float_ok(s), s.parse::<f32>().is_ok(), "{s:?}");
    }
}

#[test]
fn float_text_of_a_slice() {
    let c: Vec<char> = "scale=0.75;".chars().collect();
    assert!(is_float_text(&c, 6, 10));
    assert!(!is_float_text(&c, 6, 11));
    assert!(!is_float_text(&c, 0, 5));
}

#[test]
fn split_ranges_at_a_separator() {
    let c: Vec<char> = "a\nbc\n\nd".chars().collect();
    assert_eq!(split_ranges(&c, '\n'), vec![(0, 1), (2, 4), (5, 5), (6, 7)]);
    let e: Vec<char> = Vec::new();
    assert_eq!(split_ranges(&e, ','), vec![(0, 0)]);
}
