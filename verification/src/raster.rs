//! The rendering model: what grid a decoded signature leaves on the canvas.
//! Each stroke's consecutive point pairs are drawn in path order, strokes in
//! original order; the grid is then inverted and mirrored vertically.
use vstd::prelude::*;

use crate::canvas::{
    spec_blank_grid, spec_flipped_grid, spec_inverted_grid, spec_inverted_pixel,
    spec_segment_drawn,
};
use crate::decode::spec_signature_points;

verus! {

/// The width of the canvas, in pixels.
pub const CANVAS_WIDTH: u32 = 640;

/// The height of the canvas, in pixels.
pub const CANVAS_HEIGHT: u32 = 200;

/// The color the strokes are drawn in before inversion: white.
pub open spec fn spec_foreground() -> (u8, u8, u8) {
    (255u8, 255u8, 255u8)
}

/// A grid with one stroke drawn onto it: one segment per consecutive pair of
/// the stroke's points, in path order. A stroke with fewer than 2 points
/// draws nothing.
pub open spec fn spec_stroke_drawn(
    grid: Seq<Seq<(u8, u8, u8)>>,
    points: Seq<(i16, i16)>,
    color: (u8, u8, u8),
) -> Seq<Seq<(u8, u8, u8)>>
    decreases points.len(),
{
    if points.len() < 2 {
        grid
    } else {
        spec_stroke_drawn(
            spec_segment_drawn(
                grid,
                points[0].0,
                points[0].1,
                points[1].0,
                points[1].1,
                color,
            ),
            points.skip(1),
            color,
        )
    }
}

/// A grid with a sequence of strokes drawn onto it, in original order.
pub open spec fn spec_strokes_drawn(
    grid: Seq<Seq<(u8, u8, u8)>>,
    strokes: Seq<Seq<(i16, i16)>>,
    color: (u8, u8, u8),
) -> Seq<Seq<(u8, u8, u8)>>
    decreases strokes.len(),
{
    if strokes.len() == 0 {
        grid
    } else {
        spec_strokes_drawn(spec_stroke_drawn(grid, strokes[0], color), strokes.skip(1), color)
    }
}

/// The final image of a signature byte stream: every decoded stroke drawn in
/// white onto a black 640 by 200 canvas, which is then inverted and mirrored
/// vertically.
pub open spec fn spec_signature_grid(s: Seq<u8>) -> Seq<Seq<(u8, u8, u8)>> {
    spec_flipped_grid(
        spec_inverted_grid(
            spec_strokes_drawn(
                spec_blank_grid(CANVAS_WIDTH as nat, CANVAS_HEIGHT as nat),
                spec_signature_points(s),
                spec_foreground(),
            ),
        ),
    )
}

/// The fully-inverted blank canvas: every pixel white.
pub open spec fn spec_white_grid() -> Seq<Seq<(u8, u8, u8)>> {
    Seq::new(
        CANVAS_HEIGHT as nat,
        |y: int| Seq::new(CANVAS_WIDTH as nat, |x: int| (255u8, 255u8, 255u8)),
    )
}

/// Re-decoding the same bytes yields pixel-identical images: the grid of a
/// signature is a pure function of its bytes, so any two canvases that carry
/// the grid of the same byte stream are equal, pixel for pixel.
pub proof fn lemma_signature_image_deterministic(
    s: Seq<u8>,
    first: Seq<Seq<(u8, u8, u8)>>,
    second: Seq<Seq<(u8, u8, u8)>>,
)
    requires
        first == spec_signature_grid(s),
        second == spec_signature_grid(s),
    ensures
        first == second,
{
}

/// The empty byte stream decodes to one empty stroke, which draws nothing:
/// its image is the fully-inverted blank canvas, pure background with no
/// foreground pixel.
pub proof fn lemma_empty_signature_white()
    ensures
        spec_signature_grid(Seq::empty()) == spec_white_grid(),
{
    let runs = crate::decode::spec_stroke_runs(Seq::empty());
    assert(runs == seq![Seq::<u8>::empty()]);
    let pts = spec_signature_points(Seq::empty());
    assert(pts == seq![crate::decode::spec_stroke_points(Seq::empty())]);
    assert(crate::decode::spec_stroke_points(Seq::empty())
        == Seq::<(i16, i16)>::empty());
    let blank = spec_blank_grid(CANVAS_WIDTH as nat, CANVAS_HEIGHT as nat);
    assert(pts.skip(1) =~= Seq::<Seq<(i16, i16)>>::empty());
    assert(pts[0] == crate::decode::spec_stroke_points(runs[0]));
    assert(spec_stroke_drawn(blank, pts[0], spec_foreground()) == blank);
    assert(spec_strokes_drawn(blank, pts.skip(1), spec_foreground()) == blank);
    assert(spec_strokes_drawn(blank, pts, spec_foreground()) == blank);
    let inv = spec_inverted_grid(blank);
    assert forall|y: int| 0 <= y < inv.len() implies inv[y] =~= spec_white_grid()[y] by {
        assert(blank[y].len() == CANVAS_WIDTH as nat);
        assert(forall|x: int| 0 <= x < CANVAS_WIDTH
            ==> inv[y][x] == spec_inverted_pixel((0u8, 0u8, 0u8)));
    }
    assert(inv =~= spec_white_grid());
    let flipped = spec_flipped_grid(inv);
    assert forall|y: int| 0 <= y < flipped.len()
        implies flipped[y] == spec_white_grid()[y] by {
        assert(flipped[y] == inv[inv.len() - 1 - y]);
    }
    assert(flipped =~= spec_white_grid());
}

} // verus!
