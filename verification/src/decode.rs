//! The decoding pipeline: splitting the byte stream into stroke runs,
//! recovering each stroke's coarse starting coordinate, unpacking the 3-byte
//! delta triplets, and accumulating the absolute points of each stroke.
use vstd::prelude::*;

verus! {

/// The reserved byte value (ASCII 'p') that separates stroke runs.
pub const DELIMITER: u8 = 0x70;

/// The stroke runs of a byte stream: the stream split on every occurrence of
/// the delimiter byte. Delimiters are consumed; adjacent, leading or trailing
/// delimiters yield empty runs, and the empty stream yields exactly one empty
/// run.
pub open spec fn spec_stroke_runs(s: Seq<u8>) -> Seq<Seq<u8>>
    decreases s.len(),
{
    if s.len() == 0 {
        seq![Seq::<u8>::empty()]
    } else if s.last() == DELIMITER {
        spec_stroke_runs(s.drop_last()).push(Seq::<u8>::empty())
    } else {
        let prev = spec_stroke_runs(s.drop_last());
        prev.update(prev.len() - 1, prev.last().push(s.last()))
    }
}

/// The number of delimiter bytes in a byte stream.
pub open spec fn spec_delimiter_count(s: Seq<u8>) -> nat
    decreases s.len(),
{
    if s.len() == 0 {
        0
    } else if s.last() == DELIMITER {
        spec_delimiter_count(s.drop_last()) + 1
    } else {
        spec_delimiter_count(s.drop_last())
    }
}

/// Splitting always yields one more run than there are delimiters; in
/// particular at least one run, even for the empty stream.
pub proof fn lemma_stroke_runs_count(s: Seq<u8>)
    ensures
        spec_stroke_runs(s).len() == spec_delimiter_count(s) + 1,
    decreases s.len(),
{
    if s.len() > 0 {
        lemma_stroke_runs_count(s.drop_last());
    }
}

/// By construction of the split, a delimiter byte never appears inside a
/// stroke run.
pub proof fn lemma_runs_hold_no_delimiter(s: Seq<u8>)
    ensures
        forall|i: int, j: int|
            0 <= i < spec_stroke_runs(s).len() && 0 <= j < spec_stroke_runs(s)[i].len()
                ==> #[trigger] spec_stroke_runs(s)[i][j] != DELIMITER,
    decreases s.len(),
{
    if s.len() > 0 {
        lemma_runs_hold_no_delimiter(s.drop_last());
        lemma_stroke_runs_count(s.drop_last());
        let prev = spec_stroke_runs(s.drop_last());
        let runs = spec_stroke_runs(s);
        if s.last() == DELIMITER {
            assert(forall|i: int| 0 <= i < prev.len() ==> runs[i] == prev[i]);
        } else {
            assert(forall|i: int| 0 <= i < prev.len() - 1 ==> runs[i] == prev[i]);
            assert(runs[prev.len() - 1] == prev.last().push(s.last()));
        }
    }
}

/// Inserting one delimiter byte anywhere in a byte stream raises the stroke
/// count by exactly one.
pub proof fn lemma_delimiter_insert(s: Seq<u8>, k: int)
    requires
        0 <= k <= s.len(),
    ensures
        spec_stroke_runs(s.insert(k, DELIMITER)).len() == spec_stroke_runs(s).len() + 1,
{
    lemma_stroke_runs_count(s);
    lemma_stroke_runs_count(s.insert(k, DELIMITER));
    lemma_delimiter_count_insert(s, k);
}

proof fn lemma_delimiter_count_insert(s: Seq<u8>, k: int)
    requires
        0 <= k <= s.len(),
    ensures
        spec_delimiter_count(s.insert(k, DELIMITER)) == spec_delimiter_count(s) + 1,
    decreases s.len(),
{
    let t = s.insert(k, DELIMITER);
    if k == s.len() {
        assert(t.drop_last() =~= s);
    } else {
        assert(t.last() == s.last());
        assert(t.drop_last() =~= s.drop_last().insert(k, DELIMITER));
        lemma_delimiter_count_insert(s.drop_last(), k);
    }
}

/// Splits a signature byte stream into its stroke runs.
pub fn split_strokes(signature: &[u8]) -> (runs: Vec<Vec<u8>>)
    ensures
        runs@.len() == spec_stroke_runs(signature@).len(),
        forall|i: int| 0 <= i < runs@.len() ==> runs@[i]@ == spec_stroke_runs(signature@)[i],
{
    let mut done: Vec<Vec<u8>> = Vec::new();
    let mut current: Vec<u8> = Vec::new();
    let mut i: usize = 0;
    while i < signature.len()
        invariant
            0 <= i <= signature@.len(),
            done@.len() + 1 == spec_stroke_runs(signature@.take(i as int)).len(),
            forall|j: int| 0 <= j < done@.len()
                ==> done@[j]@ == spec_stroke_runs(signature@.take(i as int))[j],
            current@ == spec_stroke_runs(signature@.take(i as int)).last(),
        decreases signature@.len() - i,
    {
        let ghost prefix = signature@.take(i as int);
        let ghost next_prefix = signature@.take(i + 1);
        proof {
            assert(next_prefix.drop_last() =~= prefix);
            assert(next_prefix.last() == signature@[i as int]);
        }
        let b = signature[i];
        if b == DELIMITER {
            done.push(current);
            current = Vec::new();
        } else {
            current.push(b);
            proof {
                let prev = spec_stroke_runs(prefix);
                let next = spec_stroke_runs(next_prefix);
                assert(next == prev.update(prev.len() - 1, prev.last().push(b)));
                assert(forall|j: int| 0 <= j < done@.len() ==> next[j] == prev[j]);
            }
        }
        i = i + 1;
    }
    proof {
        assert(signature@.take(signature@.len() as int) =~= signature@);
    }
    done.push(current);
    done
}

/// The coarse starting coordinate carried by a stroke run's header byte:
/// bits 2 and 3 are the two high bits (bits 9 and 10) of the x axis, bits 0
/// and 1 the two high bits of the y axis; all lower bits are implicitly zero.
pub open spec fn spec_header_coordinate(b: u8) -> (i16, i16) {
    ((((b as int / 4) % 4) * 512) as i16, ((b as int % 4) * 512) as i16)
}

/// The starting coordinate of a stroke run: decoded from its first byte, or
/// from a zero byte if the run is empty (a missing header is not an error).
pub open spec fn spec_start_coordinate(run: Seq<u8>) -> (i16, i16) {
    if run.len() == 0 {
        spec_header_coordinate(0)
    } else {
        spec_header_coordinate(run[0])
    }
}

/// Decodes the starting coordinate from a stroke run's header byte.
pub fn header_coordinate(b: u8) -> (c: (i16, i16))
    ensures
        c == spec_header_coordinate(b),
        0 <= c.0 <= 1536,
        0 <= c.1 <= 1536,
{
    let wide = b as u16;
    let x = ((wide & 0x0c) << 7) as i16;
    let y = ((wide & 0x03) << 9) as i16;
    proof {
        assert((wide & 0x0c) << 7 == ((wide / 4) % 4) * 512 && (wide & 0x0c) << 7 <= 1536)
            by (bit_vector);
        assert((wide & 0x03) << 9 == (wide % 4) * 512 && (wide & 0x03) << 9 <= 1536)
            by (bit_vector);
    }
    (x, y)
}

/// A byte of a triplet with the encoder's printable-character bias of 0x20
/// removed, as the original 8-bit wrapping subtraction leaves it.
pub open spec fn spec_unbiased(b: u8) -> int {
    (b + 224) % 256
}

/// Two's-complement sign recovery over a 9-bit field: a raw value with bit 8
/// set stands for a negative number.
pub open spec fn spec_sign_extended(raw: int) -> int {
    if raw >= 256 {
        raw - 512
    } else {
        raw
    }
}

/// The x delta packed in a triplet: the low 6 bits of the first byte are the
/// high bits, bits 3 to 5 of the third byte the low bits, sign-extended.
pub open spec fn spec_delta_x(b1: u8, b2: u8, b3: u8) -> int {
    spec_sign_extended((spec_unbiased(b1) % 64) * 8 + (spec_unbiased(b3) / 8) % 8)
}

/// The y delta packed in a triplet: the low 6 bits of the second byte are the
/// high bits, the low 3 bits of the third byte the low bits, sign-extended.
pub open spec fn spec_delta_y(b1: u8, b2: u8, b3: u8) -> int {
    spec_sign_extended((spec_unbiased(b2) % 64) * 8 + spec_unbiased(b3) % 8)
}

/// A decoded delta always lies in the 9-bit signed range.
pub proof fn lemma_delta_range(b1: u8, b2: u8, b3: u8)
    ensures
        -256 <= spec_delta_x(b1, b2, b3) <= 255,
        -256 <= spec_delta_y(b1, b2, b3) <= 255,
{
}

/// Sign-extension property: a raw 9-bit field whose bit 8 is clear decodes to
/// a value in [0, 255]; one whose bit 8 is set decodes to a value in
/// [-256, -1].
pub proof fn lemma_sign_extension(raw: u16)
    requires
        raw < 512,
    ensures
        raw & 0x100 == 0 ==> 0 <= spec_sign_extended(raw as int) <= 255,
        raw & 0x100 != 0 ==> -256 <= spec_sign_extended(raw as int) <= -1,
{
    assert(raw < 512 ==> ((raw & 0x100 == 0) <==> raw < 256)) by (bit_vector);
}

fn unbias(b: u8) -> (u: u16)
    ensures
        u as int == spec_unbiased(b),
        u < 256,
{
    let u = b.wrapping_sub(0x20) as u16;
    proof {
        if b >= 0x20 {
            assert((b + 224) % 256 == b - 32);
        } else {
            assert((b + 224) % 256 == b + 224);
        }
    }
    u
}

fn sign_extend(raw: u16) -> (v: i16)
    requires
        raw < 512,
    ensures
        v as int == spec_sign_extended(raw as int),
{
    if raw >= 256 {
        -((512 - raw) as i16)
    } else {
        raw as i16
    }
}

/// Decodes one 3-byte triplet into its (dx, dy) delta offset.
pub fn decode_triplet(b1: u8, b2: u8, b3: u8) -> (d: (i16, i16))
    ensures
        d.0 as int == spec_delta_x(b1, b2, b3),
        d.1 as int == spec_delta_y(b1, b2, b3),
{
    let u1 = unbias(b1);
    let u2 = unbias(b2);
    let u3 = unbias(b3);
    let xraw = ((u1 & 0x3f) << 3) | ((u3 & 0x38) >> 3);
    let yraw = ((u2 & 0x3f) << 3) | (u3 & 0x07);
    proof {
        assert(((u1 & 0x3f) << 3) | ((u3 & 0x38) >> 3) == (u1 % 64) * 8 + (u3 / 8) % 8
            && ((u1 & 0x3f) << 3) | ((u3 & 0x38) >> 3) < 512) by (bit_vector);
        assert(((u2 & 0x3f) << 3) | (u3 & 0x07) == (u2 % 64) * 8 + u3 % 8
            && ((u2 & 0x3f) << 3) | (u3 & 0x07) < 512) by (bit_vector);
    }
    (sign_extend(xraw), sign_extend(yraw))
}

/// The delta offsets of a stroke run's body (the bytes after the header),
/// taken in consecutive non-overlapping triplets; a trailing group of fewer
/// than 3 bytes is silently dropped.
pub open spec fn spec_deltas(body: Seq<u8>) -> Seq<(int, int)>
    decreases body.len(),
{
    if body.len() < 3 {
        Seq::empty()
    } else {
        seq![(spec_delta_x(body[0], body[1], body[2]), spec_delta_y(body[0], body[1], body[2]))]
            + spec_deltas(body.skip(3))
    }
}

/// 16-bit wrapping addition of a small delta, as the accumulator performs it.
pub open spec fn spec_wrap_add(a: i16, d: int) -> i16 {
    if a + d > i16::MAX {
        (a + d - 0x10000) as i16
    } else if a + d < i16::MIN {
        (a + d + 0x10000) as i16
    } else {
        (a + d) as i16
    }
}

/// The absolute points of a stroke: the running sum of the seed coordinate
/// and the successive deltas. The seed itself is only the accumulator's
/// initial state and is not emitted, so a stroke with no deltas has no
/// points.
pub open spec fn spec_points_from(seed: (i16, i16), deltas: Seq<(int, int)>) -> Seq<(i16, i16)>
    decreases deltas.len(),
{
    if deltas.len() == 0 {
        Seq::empty()
    } else {
        let p = (spec_wrap_add(seed.0, deltas[0].0), spec_wrap_add(seed.1, deltas[0].1));
        seq![p] + spec_points_from(p, deltas.skip(1))
    }
}

/// The body of a stroke run: what remains after the header byte.
pub open spec fn spec_run_body(run: Seq<u8>) -> Seq<u8> {
    if run.len() == 0 {
        Seq::empty()
    } else {
        run.skip(1)
    }
}

/// The absolute point sequence decoded from one stroke run.
pub open spec fn spec_stroke_points(run: Seq<u8>) -> Seq<(i16, i16)> {
    spec_points_from(spec_start_coordinate(run), spec_deltas(spec_run_body(run)))
}

/// The point sequences of all strokes decoded from a signature byte stream.
pub open spec fn spec_signature_points(s: Seq<u8>) -> Seq<Seq<(i16, i16)>> {
    spec_stroke_runs(s).map_values(|run: Seq<u8>| spec_stroke_points(run))
}

/// Triplet-drop property: appending one or two extra bytes to a stroke run
/// whose body is whole triplets leaves the decoded point sequence unchanged.
pub proof fn lemma_trailing_bytes_dropped(run: Seq<u8>, extra: Seq<u8>)
    requires
        run.len() >= 1,
        (run.len() - 1) % 3 == 0,
        1 <= extra.len() <= 2,
    ensures
        spec_stroke_points(run + extra) == spec_stroke_points(run),
{
    assert((run + extra)[0] == run[0]);
    assert(spec_run_body(run + extra) =~= spec_run_body(run) + extra);
    lemma_deltas_ignore_tail(spec_run_body(run), extra);
}

proof fn lemma_deltas_ignore_tail(body: Seq<u8>, extra: Seq<u8>)
    requires
        body.len() % 3 == 0,
        extra.len() < 3,
    ensures
        spec_deltas(body + extra) == spec_deltas(body),
    decreases body.len(),
{
    if body.len() == 0 {
        assert(body + extra =~= extra);
    } else {
        assert(body.len() >= 3);
        assert((body + extra).skip(3) =~= body.skip(3) + extra);
        lemma_deltas_ignore_tail(body.skip(3), extra);
    }
}

/// Decodes one stroke run into its absolute point sequence.
pub fn decode_stroke(run: &[u8]) -> (points: Vec<(i16, i16)>)
    ensures
        points@ == spec_stroke_points(run@),
{
    let mut points: Vec<(i16, i16)> = Vec::new();
    if run.len() == 0 {
        return points;
    }
    let seed = header_coordinate(run[0]);
    let mut cx = seed.0;
    let mut cy = seed.1;
    let mut i: usize = 1;
    proof {
        assert(points@ + spec_stroke_points(run@) =~= spec_stroke_points(run@));
    }
    while run.len() - i >= 3
        invariant
            1 <= i <= run@.len(),
            points@ + spec_points_from((cx, cy), spec_deltas(run@.skip(i as int)))
                == spec_stroke_points(run@),
        decreases run@.len() - i,
    {
        let d = decode_triplet(run[i], run[i + 1], run[i + 2]);
        let ghost suffix = run@.skip(i as int);
        let ghost rest = run@.skip(i + 3);
        let nx = cx.wrapping_add(d.0);
        let ny = cy.wrapping_add(d.1);
        proof {
            lemma_delta_range(run@[i as int], run@[i + 1], run@[i + 2]);
            assert(suffix[0] == run@[i as int]);
            assert(suffix[1] == run@[i + 1]);
            assert(suffix[2] == run@[i + 2]);
            assert(suffix.skip(3) =~= rest);
            let ds = spec_deltas(suffix);
            assert(ds[0] == (d.0 as int, d.1 as int));
            assert(ds.skip(1) =~= spec_deltas(rest));
            assert(nx == spec_wrap_add(cx, ds[0].0));
            assert(ny == spec_wrap_add(cy, ds[0].1));
            assert(spec_points_from((cx, cy), ds)
                == seq![(nx, ny)] + spec_points_from((nx, ny), spec_deltas(rest)));
            assert(points@.push((nx, ny)) + spec_points_from((nx, ny), spec_deltas(rest))
                =~= points@ + spec_points_from((cx, cy), ds));
        }
        points.push((nx, ny));
        cx = nx;
        cy = ny;
        i = i + 3;
    }
    proof {
        assert(spec_deltas(run@.skip(i as int)) =~= Seq::<(int, int)>::empty());
        assert(points@ + Seq::<(i16, i16)>::empty() =~= points@);
    }
    points
}

/// Decodes a whole signature byte stream into the point sequences of its
/// strokes, one per stroke run, in original order.
pub fn decode_signature(signature: &[u8]) -> (strokes: Vec<Vec<(i16, i16)>>)
    ensures
        strokes@.len() == spec_signature_points(signature@).len(),
        forall|i: int| 0 <= i < strokes@.len()
            ==> strokes@[i]@ == spec_signature_points(signature@)[i],
{
    let runs = split_strokes(signature);
    let mut strokes: Vec<Vec<(i16, i16)>> = Vec::new();
    let mut k: usize = 0;
    while k < runs.len()
        invariant
            0 <= k <= runs@.len(),
            runs@.len() == spec_stroke_runs(signature@).len(),
            forall|i: int| 0 <= i < runs@.len() ==> runs@[i]@ == spec_stroke_runs(signature@)[i],
            strokes@.len() == k,
            forall|i: int| 0 <= i < k
                ==> strokes@[i]@ == spec_signature_points(signature@)[i],
        decreases runs@.len() - k,
    {
        let pts = decode_stroke(runs[k].as_slice());
        strokes.push(pts);
        k = k + 1;
    }
    strokes
}

} // verus!
