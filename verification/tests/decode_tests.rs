use signature_image::decode::{
    decode_signature, decode_stroke, decode_triplet, header_coordinate, split_strokes, DELIMITER,
};

#[test]
fn delimiter_is_ascii_p() {
    assert_eq!(DELIMITER, b'p');
}

#[test]
fn header_all_zero() {
    assert_eq!(header_coordinate(0), (0, 0));
}

#[test]
fn header_high_bits_of_each_axis() {
    assert_eq!(header_coordinate(0x0f), (1536, 1536));
    assert_eq!(header_coordinate(0x04), (512, 0));
    assert_eq!(header_coordinate(0x03), (0, 1536));
}

#[test]
fn header_ignores_high_nibble() {
    assert_eq!(header_coordinate(0xf0), (0, 0));
}

#[test]
fn triplet_small_positive_x() {
    assert_eq!(decode_triplet(0x21, 0x20, 0x20), (8, 0));
}

#[test]
fn triplet_max_positive_x() {
    assert_eq!(decode_triplet(0x3f, 0x20, 0x58), (255, 0));
}

#[test]
fn triplet_most_negative_x() {
    assert_eq!(decode_triplet(0x40, 0x20, 0x20), (-256, 0));
}

#[test]
fn triplet_minus_one_x() {
    assert_eq!(decode_triplet(0x5f, 0x20, 0x5f), (-1, 7));
}

#[test]
fn triplet_y_axis_low_bits() {
    assert_eq!(decode_triplet(0x20, 0x21, 0x21), (0, 9));
}

#[test]
fn triplet_bias_wraps_below_space() {
    assert_eq!(decode_triplet(0x00, 0x20, 0x20), (-256, 0));
}

#[test]
fn split_empty_yields_one_empty_run() {
    assert_eq!(split_strokes(&[]), vec![Vec::<u8>::new()]);
}

#[test]
fn split_consumes_delimiters() {
    assert_eq!(split_strokes(&[1, 2, b'p', 3]), vec![vec![1u8, 2], vec![3u8]]);
}

#[test]
fn split_adjacent_and_edge_delimiters_yield_empty_runs() {
    let runs = split_strokes(&[b'p', b'p']);
    assert_eq!(runs.len(), 3);
    assert!(runs.iter().all(|r| r.is_empty()));
    assert_eq!(split_strokes(&[1, b'p']), vec![vec![1u8], vec![]]);
}

#[test]
fn inserting_a_delimiter_adds_one_stroke() {
    let base = vec![1u8, 2, 3, 4];
    let n = split_strokes(&base).len();
    for k in 0..=base.len() {
        let mut with = base.clone();
        with.insert(k, b'p');
        assert_eq!(split_strokes(&with).len(), n + 1);
    }
}

#[test]
fn stroke_accumulates_deltas() {
    let run = [0x00, 0x21, 0x20, 0x20, 0x21, 0x20, 0x20];
    assert_eq!(decode_stroke(&run), vec![(8, 0), (16, 0)]);
}

#[test]
fn stroke_seed_is_not_emitted() {
    assert_eq!(decode_stroke(&[0x07]), Vec::<(i16, i16)>::new());
}

#[test]
fn empty_run_has_no_points() {
    assert_eq!(decode_stroke(&[]), Vec::<(i16, i16)>::new());
}

#[test]
fn short_run_after_header_has_no_points() {
    assert_eq!(decode_stroke(&[0x00, 0x21]), Vec::<(i16, i16)>::new());
    assert_eq!(decode_stroke(&[0x00, 0x21, 0x22]), Vec::<(i16, i16)>::new());
}

#[test]
fn trailing_partial_triplet_is_dropped() {
    let run = vec![0x00u8, 0x21, 0x20, 0x20];
    let pts = decode_stroke(&run);
    let mut one_extra = run.clone();
    one_extra.push(0x41);
    let mut two_extra = one_extra.clone();
    two_extra.push(0x42);
    assert_eq!(decode_stroke(&one_extra), pts);
    assert_eq!(decode_stroke(&two_extra), pts);
}

#[test]
fn zero_deltas_stay_at_the_start_coordinate() {
    let run = [0x04, 0x20, 0x20, 0x20, 0x20, 0x20, 0x20];
    assert_eq!(decode_stroke(&run), vec![(512, 0), (512, 0)]);
}

#[test]
fn accumulator_wraps_at_sixteen_bits() {
    let mut run = vec![0x00u8];
    for _ in 0..129 {
        run.extend_from_slice(&[0x40, 0x20, 0x20]);
    }
    let pts = decode_stroke(&run);
    assert_eq!(pts[127].0, -32768);
    assert_eq!(pts[128].0, 32512);
}

#[test]
fn strokes_are_seeded_independently() {
    let bytes = [0x03, 0x21, 0x20, 0x20, b'p', 0x00, 0x21, 0x20, 0x20];
    assert_eq!(decode_signature(&bytes), vec![vec![(8, 1536)], vec![(8, 0)]]);
}
