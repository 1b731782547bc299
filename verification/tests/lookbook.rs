use voxelcraft::lookbook::{compose_group, compose_sheet, covered, draw_text, glyph, LookView, Tile};

const STRIP: [u8; 4] = [0x20, 0x28, 0x33, 0xFF];

fn px(buf: &[u8], w: u32, x: u32, y: u32) -> [u8; 4] {
    let i = ((y * w + x) * 4) as usize;
    [buf[i], buf[i + 1], buf[i + 2], buf[i + 3]]
}

fn tile(label: &str, w: u32, h: u32, f: impl Fn(u32, u32) -> [u8; 4]) -> Tile {
    let mut pixels = Vec::new();
    for y in 0..h {
        for x in 0..w {
            pixels.extend_from_slice(&f(x, y));
        }
    }
    Tile { label: label.to_string(), width: w, height: h, pixels }
}

fn view(name: &'static str) -> LookView {
    LookView { name, about: "", args: &[] }
}

#[test]
fn glyph_rows_of_the_font() {
    assert_eq!(glyph('A'), [0x0E, 0x11, 0x11, 0x1F, 0x11, 0x11, 0x11]);
    assert_eq!(glyph('0'), [0x0E, 0x11, 0x13, 0x15, 0x19, 0x11, 0x0E]);
    assert_eq!(glyph(' '), [0; 7]);
    assert_eq!(glyph('+'), [0x00, 0x04, 0x04, 0x1F, 0x04, 0x04, 0x00]);
}

#[test]
fn glyph_outside_the_font_is_a_question_mark() {
    let q = [0x1F, 0x11, 0x01, 0x06, 0x04, 0x00, 0x04];
    assert_eq!(glyph('a'), q);
    assert_eq!(glyph('?'), q);
    assert_eq!(glyph('é'), q);
}

#[test]
fn covered_checks_every_character() {
    assert!(covered("SEA-SUNSET"));
    assert!(covered("CINE-HALF 0.5: A+B"));
    assert!(covered(""));
    assert!(!covered("Sea"));
    assert!(!covered("G2_PAIR"));
}

#[test]
fn draw_text_lights_the_glyph_bits() {
    let w = 12u32;
    let mut buf = vec![0u8; (w * 8 * 4) as usize];
    draw_text(&mut buf, w, 0, 0, "-", 1, 200);
    for x in 0..5 {
        assert_eq!(px(&buf, w, x, 3), [200, 200, 200, 255]);
    }
    assert_eq!(px(&buf, w, 5, 3), [0, 0, 0, 0]);
    assert_eq!(px(&buf, w, 0, 2), [0, 0, 0, 0]);
    assert_eq!(px(&buf, w, 0, 4), [0, 0, 0, 0]);
}

#[test]
fn draw_text_scales_and_spaces_cells() {
    let w = 40u32;
    let mut buf = vec![0u8; (w * 16 * 4) as usize];
    draw_text(&mut buf, w, 1, 0, "--", 2, 9);
    assert_eq!(px(&buf, w, 1, 6), [9, 9, 9, 255]);
    assert_eq!(px(&buf, w, 10, 7), [9, 9, 9, 255]);
    assert_eq!(px(&buf, w, 11, 7), [0, 0, 0, 0]);
    assert_eq!(px(&buf, w, 13, 6), [9, 9, 9, 255]);
    assert_eq!(px(&buf, w, 22, 7), [9, 9, 9, 255]);
    assert_eq!(px(&buf, w, 23, 6), [0, 0, 0, 0]);
    assert_eq!(px(&buf, w, 5, 8), [0, 0, 0, 0]);
}

#[test]
fn draw_text_drops_pixels_right_of_the_sheet() {
    let w = 12u32;
    let mut buf = vec![0u8; (w * 8 * 4) as usize];
    draw_text(&mut buf, w, 10, 0, "I", 1, 77);
    assert_eq!(px(&buf, w, 11, 0), [77, 77, 77, 255]);
    assert_eq!(px(&buf, w, 0, 1), [0, 0, 0, 0]);
    assert_eq!(px(&buf, w, 1, 1), [0, 0, 0, 0]);
}

#[test]
fn compose_group_lays_out_header_labels_and_shrunk_tiles() {
    let t0 = tile("A", 4, 4, |x, y| [(x * 10) as u8, (y * 10) as u8, (x + y) as u8, 255]);
    let t1 = tile("B", 4, 4, |_, _| [100, 100, 100, 200]);
    let (w, h, p) = compose_group(&view("V"), &[t0, t1]);
    assert_eq!((w, h), (8, 44));
    assert_eq!(p.len(), 8 * 44 * 4);
    assert_eq!(px(&p, w, 0, 0), STRIP);
    assert_eq!(px(&p, w, 7, 25), STRIP);
    assert_eq!(px(&p, w, 0, 26), STRIP);
    assert_eq!(px(&p, w, 2, 26), STRIP);
    assert_eq!(px(&p, w, 6, 26), [0, 0, 0, 0]);
    assert_eq!(px(&p, w, 6, 27), [204, 204, 204, 255]);
    assert_eq!(px(&p, w, 4, 27), [0, 0, 0, 0]);
    assert_eq!(px(&p, w, 0, 42), [5, 5, 1, 255]);
    assert_eq!(px(&p, w, 1, 42), [25, 5, 3, 255]);
    assert_eq!(px(&p, w, 0, 43), [5, 25, 3, 255]);
    assert_eq!(px(&p, w, 1, 43), [25, 25, 5, 255]);
    assert_eq!(px(&p, w, 3, 43), [100, 100, 100, 200]);
    assert_eq!(px(&p, w, 4, 42), [0, 0, 0, 0]);
}

#[test]
fn compose_group_later_strip_covers_an_overlong_label() {
    let t0 = tile("AB", 16, 4, |_, _| [1, 2, 3, 4]);
    let t1 = tile("I", 16, 4, |_, _| [9, 9, 9, 9]);
    let (w, h, p) = compose_group(&view("-"), &[t0, t1]);
    assert_eq!((w, h), (32, 44));
    assert_eq!(px(&p, w, 6, 27), [204, 204, 204, 255]);
    assert_eq!(px(&p, w, 10, 27), STRIP);
    assert_eq!(px(&p, w, 14, 27), [204, 204, 204, 255]);
    assert_eq!(px(&p, w, 20, 27), [204, 204, 204, 255]);
    assert_eq!(px(&p, w, 20, 29), [0, 0, 0, 0]);
    assert_eq!(px(&p, w, 30, 27), [0, 0, 0, 0]);
    assert_eq!(px(&p, w, 8, 12), [238, 238, 238, 255]);
    assert_eq!(px(&p, w, 8, 11), STRIP);
    assert_eq!(px(&p, w, 0, 42), [1, 2, 3, 4]);
    assert_eq!(px(&p, w, 9, 43), [9, 9, 9, 9]);
}

#[test]
fn compose_group_wraps_after_four_tiles() {
    let tiles: Vec<Tile> = (0..5).map(|i| tile("", 2, 2, move |_, _| [i as u8, 0, 0, 255])).collect();
    let (w, h, p) = compose_group(&view(""), &tiles);
    assert_eq!((w, h), (4, 26 + 2 * 17));
    assert_eq!(px(&p, w, 3, 26 + 16), [3, 0, 0, 255]);
    assert_eq!(px(&p, w, 0, 26 + 17 + 16), [4, 0, 0, 255]);
    assert_eq!(px(&p, w, 1, 26 + 17 + 16), [0, 0, 0, 0]);
    assert_eq!(px(&p, w, 0, 26 + 17), STRIP);
}

#[test]
fn compose_sheet_stacks_groups() {
    let g0 = (2u32, 1u32, vec![1u8; 8]);
    let g1 = (2u32, 2u32, vec![2u8; 16]);
    let (w, h, p) = compose_sheet(&[g0, g1]);
    assert_eq!((w, h), (2, 3));
    let mut want = vec![1u8; 8];
    want.extend(vec![2u8; 16]);
    assert_eq!(p, want);
}
