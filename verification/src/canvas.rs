//! The canvas: the outside image buffer modelled as a pixel grid, and the
//! trusted interface to its construction, line drawing, inversion, vertical
//! flip and pixel reads. The grid is a row-major sequence of rows, one
//! (r, g, b) value per pixel, with row `y` counted from the top.
use vstd::prelude::*;

verus! {

/// The raster canvas. It holds image's pixel buffer, which the verified code
/// never looks into directly; the buffer's contents are modelled by
/// [`canvas_pixels`]. The buffer itself stays reachable for callers that
/// hand the finished image on.
#[verifier::external_body]
pub struct Canvas {
    pub buffer: image::RgbImage,
}

/// The pixel grid that a canvas holds.
pub uninterp spec fn canvas_pixels(c: Canvas) -> Seq<Seq<(u8, u8, u8)>>;

/// The grid that the line segment between two points is drawn onto: what
/// imageproc's line drawing leaves of the given grid. The drawing is a pure
/// function of the grid, the endpoints and the color.
pub uninterp spec fn spec_segment_drawn(
    grid: Seq<Seq<(u8, u8, u8)>>,
    ax: i16,
    ay: i16,
    bx: i16,
    by: i16,
    color: (u8, u8, u8),
) -> Seq<Seq<(u8, u8, u8)>>;

/// An all-black grid of the given width and height.
pub open spec fn spec_blank_grid(width: nat, height: nat) -> Seq<Seq<(u8, u8, u8)>> {
    Seq::new(height, |y: int| Seq::new(width, |x: int| (0u8, 0u8, 0u8)))
}

/// A pixel with every color channel complemented.
pub open spec fn spec_inverted_pixel(p: (u8, u8, u8)) -> (u8, u8, u8) {
    ((255 - p.0) as u8, (255 - p.1) as u8, (255 - p.2) as u8)
}

/// A grid with every pixel's color channels complemented.
pub open spec fn spec_inverted_grid(grid: Seq<Seq<(u8, u8, u8)>>) -> Seq<Seq<(u8, u8, u8)>> {
    Seq::new(
        grid.len(),
        |y: int| Seq::new(grid[y].len(), |x: int| spec_inverted_pixel(grid[y][x])),
    )
}

/// A grid mirrored vertically: the row order reversed.
pub open spec fn spec_flipped_grid(grid: Seq<Seq<(u8, u8, u8)>>) -> Seq<Seq<(u8, u8, u8)>> {
    Seq::new(grid.len(), |y: int| grid[grid.len() - 1 - y])
}

impl Canvas {
    /// Relies on image::ImageBuffer::new: a fresh buffer of the given
    /// dimensions with every sample zeroed, so every pixel black. The size
    /// bound keeps the allocation's byte count within usize, on which the
    /// outside call insists.
    #[verifier::external_body]
    pub(crate) fn new(width: u32, height: u32) -> (c: Canvas)
        requires
            width * height * 3 <= usize::MAX,
        ensures
            canvas_pixels(c) == spec_blank_grid(width as nat, height as nat),
    {
        Canvas { buffer: image::RgbImage::new(width, height) }
    }

    /// Relies on imageproc::drawing::draw_line_segment_mut: draws the segment
    /// between the two points onto the buffer as a pure function of grid,
    /// endpoints and color, writing only in-bounds pixels, so the grid keeps
    /// its dimensions.
    #[verifier::external_body]
    pub(crate) fn draw_segment(
        &mut self,
        ax: i16,
        ay: i16,
        bx: i16,
        by: i16,
        red: u8,
        green: u8,
        blue: u8,
    )
        ensures
            canvas_pixels(*final(self)) == spec_segment_drawn(
                canvas_pixels(*old(self)),
                ax,
                ay,
                bx,
                by,
                (red, green, blue),
            ),
            canvas_pixels(*final(self)).len() == canvas_pixels(*old(self)).len(),
            forall|y: int| 0 <= y < canvas_pixels(*final(self)).len()
                ==> #[trigger] canvas_pixels(*final(self))[y].len() == canvas_pixels(
                *old(self),
            )[y].len(),
    {
        imageproc::drawing::draw_line_segment_mut(
            &mut self.buffer,
            (ax.into(), ay.into()),
            (bx.into(), by.into()),
            image::Rgb([red, green, blue]),
        );
    }

    /// Relies on image::imageops::invert: replaces every pixel channel value
    /// c by 255 - c, in place, leaving the dimensions unchanged.
    #[verifier::external_body]
    pub(crate) fn invert(&mut self)
        ensures
            canvas_pixels(*final(self)) == spec_inverted_grid(canvas_pixels(*old(self))),
    {
        image::imageops::invert(&mut self.buffer);
    }

    /// Relies on image::imageops::flip_vertical: a new buffer of the same
    /// dimensions whose row y holds the source's row height - 1 - y.
    #[verifier::external_body]
    pub(crate) fn flipped_vertically(&self) -> (out: Canvas)
        ensures
            canvas_pixels(out) == spec_flipped_grid(canvas_pixels(*self)),
    {
        Canvas { buffer: image::imageops::flip_vertical(&self.buffer) }
    }

    /// Relies on image::ImageBuffer::height; the buffer is rectangular, its
    /// height the number of rows of the grid.
    #[verifier::external_body]
    pub fn height(&self) -> (h: u32)
        ensures
            h as nat == canvas_pixels(*self).len(),
    {
        self.buffer.height()
    }

    /// Relies on image::ImageBuffer::width; the buffer is rectangular, its
    /// width the length of every row of the grid.
    #[verifier::external_body]
    pub fn width(&self) -> (w: u32)
        ensures
            forall|y: int| 0 <= y < canvas_pixels(*self).len()
                ==> #[trigger] canvas_pixels(*self)[y].len() == w as nat,
    {
        self.buffer.width()
    }

    /// Relies on image::ImageBuffer::get_pixel, which panics out of bounds;
    /// the channels of the pixel at column x of row y.
    #[verifier::external_body]
    pub fn pixel(&self, x: u32, y: u32) -> (p: (u8, u8, u8))
        requires
            (y as nat) < canvas_pixels(*self).len(),
            (x as nat) < canvas_pixels(*self)[y as int].len(),
        ensures
            p == canvas_pixels(*self)[y as int][x as int],
    {
        let q = self.buffer.get_pixel(x, y);
        (q.0[0], q.0[1], q.0[2])
    }
}

} // verus!
