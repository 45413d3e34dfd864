//! Decoder and rasterizer for a compact binary signature encoding.
//!
//! A signature byte stream holds one or more pen strokes separated by the
//! delimiter byte `0x70`. Each stroke run starts with a header byte that
//! carries the two high bits of each axis of the starting coordinate; the
//! remaining bytes are consumed in triplets, each triplet packing a 9-bit
//! two's-complement delta for each axis. Running sums of the deltas give the
//! absolute points of the stroke, which are rendered as connected line
//! segments onto a fixed 640 by 200 canvas, inverted and mirrored vertically.
use vstd::prelude::*;

pub mod canvas;
pub mod decode;
pub mod raster;

use canvas::{canvas_pixels, spec_segment_drawn, Canvas};
use decode::{decode_signature, spec_signature_points};
use raster::{
    spec_foreground, spec_signature_grid, spec_stroke_drawn, spec_strokes_drawn, CANVAS_HEIGHT,
    CANVAS_WIDTH,
};

verus! {

/// Decodes a signature byte stream and rasterizes it: every stroke's
/// consecutive point pairs are drawn in white onto a black 640 by 200 canvas,
/// which is then inverted (black strokes on white background) and mirrored
/// vertically. Any byte sequence is valid input; the result is a pure
/// function of the bytes.
pub fn build_signature_image(signature: &[u8]) -> (img: Canvas)
    ensures
        canvas_pixels(img) == spec_signature_grid(signature@),
        canvas_pixels(img).len() == CANVAS_HEIGHT,
        forall|y: int| 0 <= y < canvas_pixels(img).len()
            ==> #[trigger] canvas_pixels(img)[y].len() == CANVAS_WIDTH,
{
    let strokes = decode_signature(signature);
    let mut img = Canvas::new(CANVAS_WIDTH, CANVAS_HEIGHT);
    let ghost all = spec_signature_points(signature@);
    let ghost color = spec_foreground();
    let ghost target = spec_strokes_drawn(canvas_pixels(img), all, color);
    proof {
        assert(all.skip(0) =~= all);
    }
    let mut k: usize = 0;
    while k < strokes.len()
        invariant
            0 <= k <= strokes@.len(),
            strokes@.len() == all.len(),
            color == spec_foreground(),
            forall|i: int| 0 <= i < all.len() ==> strokes@[i]@ == all[i],
            spec_strokes_drawn(canvas_pixels(img), all.skip(k as int), color) == target,
            canvas_pixels(img).len() == CANVAS_HEIGHT,
            forall|y: int| 0 <= y < canvas_pixels(img).len()
                ==> #[trigger] canvas_pixels(img)[y].len() == CANVAS_WIDTH,
        decreases strokes@.len() - k,
    {
        let ghost entry_grid = canvas_pixels(img);
        let ghost remaining = all.skip(k as int);
        proof {
            assert(remaining[0] == all[k as int]);
            assert(remaining.skip(1) =~= all.skip(k + 1));
            assert(all[k as int].skip(0) =~= all[k as int]);
        }
        let mut j: usize = 0;
        while strokes[k].len() - j >= 2
            invariant
                0 <= k < strokes@.len(),
                0 <= j <= strokes@[k as int]@.len(),
                color == spec_foreground(),
                strokes@[k as int]@ == all[k as int],
                spec_stroke_drawn(canvas_pixels(img), all[k as int].skip(j as int), color)
                    == spec_stroke_drawn(entry_grid, all[k as int], color),
                canvas_pixels(img).len() == CANVAS_HEIGHT,
                forall|y: int| 0 <= y < canvas_pixels(img).len()
                    ==> #[trigger] canvas_pixels(img)[y].len() == CANVAS_WIDTH,
            decreases strokes@[k as int]@.len() - j,
        {
            let ghost tail = all[k as int].skip(j as int);
            let ghost before = canvas_pixels(img);
            proof {
                assert(tail.len() >= 2);
                assert(tail[0] == all[k as int][j as int]);
                assert(tail[1] == all[k as int][j + 1]);
                assert(tail.skip(1) =~= all[k as int].skip(j + 1));
            }
            let a = strokes[k][j];
            let b = strokes[k][j + 1];
            img.draw_segment(a.0, a.1, b.0, b.1, 255, 255, 255);
            proof {
                assert(color == (255u8, 255u8, 255u8));
                assert(canvas_pixels(img)
                    == spec_segment_drawn(before, tail[0].0, tail[0].1, tail[1].0, tail[1].1, color));
                assert(spec_stroke_drawn(before, tail, color)
                    == spec_stroke_drawn(canvas_pixels(img), tail.skip(1), color));
            }
            j = j + 1;
        }
        proof {
            assert(all[k as int].skip(j as int).len() < 2);
            assert(spec_stroke_drawn(canvas_pixels(img), all[k as int].skip(j as int), color)
                == canvas_pixels(img));
        }
        k = k + 1;
    }
    proof {
        assert(all.skip(k as int) =~= Seq::<Seq<(i16, i16)>>::empty());
    }
    img.invert();
    let out = img.flipped_vertically();
    out
}

} // verus!
