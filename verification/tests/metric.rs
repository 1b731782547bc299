use voxelcraft::harness::metric::{diff_bbox, max_delta, pixels_differing, sha256_hex, Img, Rect};

fn img(w: u32, h: u32, fill: [u8; 4]) -> Img {
    let mut px = Vec::new();
    for _ in 0..(w * h) {
        px.extend_from_slice(&fill);
    }
    Img { w, h, px }
}

fn set(i: &mut Img, x: u32, y: u32, rgba: [u8; 4]) {
    let k = ((y * i.w + x) * 4) as usize;
    i.px[k..k + 4].copy_from_slice(&rgba);
}

#[test]
fn img_new_is_black_and_transparent() {
    let i = Img::new(3, 2);
    assert_eq!(i.w, 3);
    assert_eq!(i.h, 2);
    assert_eq!(i.px, vec![0u8; 24]);
}

#[test]
fn img_get_clamps_to_the_last_pixel() {
    let mut i = img(2, 2, [0, 0, 0, 255]);
    set(&mut i, 1, 1, [9, 8, 7, 6]);
    assert_eq!(i.get(1, 1, 0), 9);
    assert_eq!(i.get(5, 7, 2), 7);
    assert_eq!(i.get(0, 0, 3), 255);
}

#[test]
fn rect_basics() {
    let r = Rect::full(4, 3);
    assert_eq!(r, Rect { x0: 0, y0: 0, x1: 4, y1: 3 });
    assert_eq!(r.pixels(), 12);
    assert!(!r.is_empty());
    let e = Rect { x0: 5, y0: 0, x1: 2, y1: 9 };
    assert!(e.is_empty());
    assert_eq!(e.pixels(), 0);
    let big = Rect { x0: 1, y0: 1, x1: 100, y1: 100 };
    assert_eq!(big.clamped(&Img::new(10, 20)), Rect { x0: 1, y0: 1, x1: 10, y1: 20 });
}

#[test]
fn max_delta_ignores_alpha_and_outside_pixels() {
    let a = img(4, 4, [10, 10, 10, 255]);
    let mut b = img(4, 4, [10, 10, 10, 255]);
    set(&mut b, 0, 0, [10, 10, 10, 0]);
    assert_eq!(max_delta(&a, &b, Rect::full(4, 4)), 0);
    set(&mut b, 2, 2, [40, 10, 3, 255]);
    assert_eq!(max_delta(&a, &b, Rect::full(4, 4)), 30);
    assert_eq!(max_delta(&a, &b, Rect { x0: 0, y0: 0, x1: 2, y1: 2 }), 0);
}

#[test]
fn pixels_differing_counts_colour_changes() {
    let a = img(4, 4, [0, 0, 0, 255]);
    let mut b = img(4, 4, [0, 0, 0, 255]);
    set(&mut b, 1, 1, [1, 0, 0, 255]);
    set(&mut b, 3, 2, [0, 0, 200, 255]);
    set(&mut b, 0, 3, [0, 0, 0, 7]);
    assert_eq!(pixels_differing(&a, &b, Rect::full(4, 4)), 2);
    assert_eq!(pixels_differing(&a, &b, Rect { x0: 2, y0: 0, x1: 9, y1: 9 }), 1);
    assert_eq!(pixels_differing(&a, &b, Rect { x0: 3, y0: 3, x1: 1, y1: 1 }), 0);
}

#[test]
fn max_delta_zero_exactly_when_nothing_differs() {
    let a = img(3, 3, [5, 5, 5, 5]);
    let b = img(3, 3, [5, 5, 5, 99]);
    let r = Rect::full(3, 3);
    assert_eq!(max_delta(&a, &b, r), 0);
    assert_eq!(pixels_differing(&a, &b, r), 0);
    let mut c = img(3, 3, [5, 5, 5, 5]);
    set(&mut c, 2, 0, [5, 6, 5, 5]);
    assert_eq!(max_delta(&a, &c, r), 1);
    assert_eq!(pixels_differing(&a, &c, r), 1);
}

#[test]
fn diff_bbox_bounds_the_changes() {
    let a = img(8, 6, [0, 0, 0, 255]);
    let mut b = img(8, 6, [0, 0, 0, 255]);
    assert_eq!(diff_bbox(&a, &b), None);
    set(&mut b, 2, 4, [1, 1, 1, 255]);
    set(&mut b, 6, 1, [1, 1, 1, 255]);
    assert_eq!(diff_bbox(&a, &b), Some(Rect { x0: 2, y0: 1, x1: 7, y1: 5 }));
    let c = img(8, 5, [0, 0, 0, 255]);
    assert_eq!(diff_bbox(&a, &c), None);
}

#[test]
fn sha256_known_digests() {
    assert_eq!(
        sha256_hex(b""),
        "e3b0c44298fc1c149afbf4c8996fb92427ae41e4649b934ca495991b7852b855"
    );
    assert_eq!(
        sha256_hex(b"abc"),
        "ba7816bf8f01cfea414140de5dae2223b00361a396177a9cb410ff61f20015ad"
    );
    assert_eq!(
        sha256_hex(b"abcdbcdecdefdefgefghfghighijhijkijkljklmklmnlmnomnopnopq"),
        "248d6a61d20638b8e5c026930c3e6039a33ce45964ff2167f6ecedd419db06c1"
    );
}

#[test]
fn sha256_of_a_long_message() {
    let data = vec![b'a'; 1000];
    assert_eq!(
        sha256_hex(&data),
        "41edece42d63e8d9bf515a9ba6932e1c20cbc9f5a5d134645adb5db1b9737ea3"
    );
}

#[test]
fn rect_prints_as_size_and_offset() {
    assert_eq!(Rect { x0: 3, y0: 4, x1: 10, y1: 6 }.to_string(), "7x2+3+4");
    assert_eq!(Rect::full(1280, 720).to_string(), "1280x720+0+0");
}

#[test]
fn images_survive_png() {
    let img = Img { w: 2, h: 1, px: vec![255, 0, 0, 255, 0, 128, 255, 64] };
    let png = img.to_png().unwrap();
    assert_eq!(&png[..8], &[0x89, b'P', b'N', b'G', 0x0D, 0x0A, 0x1A, 0x0A]);
    let back = Img::from_bytes(&png).unwrap();
    assert_eq!((back.w, back.h), (2, 1));
    assert_eq!(back.px, img.px);
}

#[test]
fn bytes_that_are_no_picture_decode_to_nothing() {
    assert!(Img::from_bytes(b"not a picture").is_none());
    assert!(Img::from_bytes(&[]).is_none());
}
