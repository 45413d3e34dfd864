use signature_image::build_signature_image;

#[test]
fn dimensions_are_fixed() {
    let inputs: [&[u8]; 4] = [
        &[],
        &[0x00],
        &[b'p', b'p', b'p', b'p', b'p'],
        &[0x41, 0x42, 0x43, b'p', 0x00, 0x21, 0x20, 0x20],
    ];
    for bytes in inputs {
        let img = build_signature_image(bytes);
        assert_eq!(img.width(), 640);
        assert_eq!(img.height(), 200);
    }
}

#[test]
fn same_bytes_give_identical_pixels() {
    let bytes = [
        0x00, 0x21, 0x20, 0x20, 0x21, 0x20, 0x20, b'p', 0x04, 0x20, 0x20, 0x20, 0x20, 0x20, 0x20,
    ];
    let first = build_signature_image(&bytes);
    let second = build_signature_image(&bytes);
    for y in 0..200 {
        for x in 0..640 {
            assert_eq!(first.pixel(x, y), second.pixel(x, y));
        }
    }
}

#[test]
fn empty_input_gives_a_blank_white_canvas() {
    let img = build_signature_image(&[]);
    for y in 0..200 {
        for x in 0..640 {
            assert_eq!(img.pixel(x, y), (255, 255, 255));
        }
    }
}

#[test]
fn stroke_with_a_single_point_draws_nothing() {
    let img = build_signature_image(&[0x00, 0x21, 0x20, 0x20]);
    for y in 0..200 {
        for x in 0..640 {
            assert_eq!(img.pixel(x, y), (255, 255, 255));
        }
    }
}

#[test]
fn short_run_after_header_draws_nothing() {
    let img = build_signature_image(&[0x00, 0x21, 0x22]);
    for y in 0..200 {
        for x in 0..640 {
            assert_eq!(img.pixel(x, y), (255, 255, 255));
        }
    }
}

#[test]
fn horizontal_stroke_is_black_and_mirrored() {
    // Points (8, 0) and (16, 0): drawn on row 0, shown on row 199 after the
    // vertical flip, black after the inversion.
    let bytes = [0x00, 0x21, 0x20, 0x20, 0x21, 0x20, 0x20];
    let img = build_signature_image(&bytes);
    for x in 8..=16 {
        assert_eq!(img.pixel(x, 199), (0, 0, 0));
    }
    assert_eq!(img.pixel(12, 0), (255, 255, 255));
    assert_eq!(img.pixel(7, 199), (255, 255, 255));
    assert_eq!(img.pixel(17, 199), (255, 255, 255));
}

#[test]
fn coincident_points_draw_a_single_pixel() {
    // Two zero deltas from start (512, 0): a degenerate segment, which the
    // line drawing resolves to the one covered pixel.
    let bytes = [0x04, 0x20, 0x20, 0x20, 0x20, 0x20, 0x20];
    let img = build_signature_image(&bytes);
    assert_eq!(img.pixel(512, 199), (0, 0, 0));
    assert_eq!(img.pixel(511, 199), (255, 255, 255));
    assert_eq!(img.pixel(513, 199), (255, 255, 255));
    assert_eq!(img.pixel(512, 198), (255, 255, 255));
}

#[test]
fn pixel_reads_match_the_underlying_buffer() {
    let bytes = [0x00, 0x21, 0x20, 0x20, 0x21, 0x20, 0x20];
    let img = build_signature_image(&bytes);
    assert_eq!(img.buffer.dimensions(), (640, 200));
    for y in 0..200 {
        for x in 0..640 {
            let p = img.buffer.get_pixel(x, y);
            assert_eq!((p.0[0], p.0[1], p.0[2]), img.pixel(x, y));
        }
    }
}

#[test]
fn two_strokes_do_not_share_accumulator_state() {
    // First stroke: x = 520..=528 on the top row; second stroke starts from
    // its own header, x = 8..=16, not offset by the first stroke's endpoint.
    let bytes = [
        0x04, 0x21, 0x20, 0x20, 0x21, 0x20, 0x20, b'p', 0x00, 0x21, 0x20, 0x20, 0x21, 0x20, 0x20,
    ];
    let img = build_signature_image(&bytes);
    assert_eq!(img.pixel(524, 199), (0, 0, 0));
    assert_eq!(img.pixel(12, 199), (0, 0, 0));
    // Where a leaked accumulator would have put the second stroke: white.
    assert_eq!(img.pixel(540, 199), (255, 255, 255));
}
