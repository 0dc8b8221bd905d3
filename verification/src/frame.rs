//! Raster frames: an RGBA buffer of the `image` crate, with what the rest of
//! the library relies on stated over its width, height and pixels.
use vstd::prelude::*;

verus! {

/// A frame: 8-bit RGBA pixels in rows. It holds an `image::RgbaImage`, which
/// only this module's functions reach.
#[verifier::external_body]
pub struct Buffer {
    image: image::ImageBuffer<image::Rgba<u8>, Vec<u8>>,
}

/// The width of a frame, in pixels.
pub uninterp spec fn frame_width(b: Buffer) -> u32;

/// The height of a frame, in pixels.
pub uninterp spec fn frame_height(b: Buffer) -> u32;

/// The pixels of a frame, row after row from the top and from left to right
/// in each row, each pixel as its red, green, blue and alpha bytes.
pub uninterp spec fn frame_pixels(b: Buffer) -> Seq<Seq<u8>>;

/// The pixels of the frame that resampling to `new_width` by `new_height`
/// with the nearest-neighbour filter makes of a frame of `width` by `height`
/// that holds `pixels`.
pub uninterp spec fn resampled(
    pixels: Seq<Seq<u8>>,
    width: u32,
    height: u32,
    new_width: u32,
    new_height: u32,
) -> Seq<Seq<u8>>;

/// Whether a vector can hold `bytes` bytes for each of `width * height`
/// pixels.
pub open spec fn fits(bytes: int, width: u32, height: u32) -> bool {
    bytes * width * height <= isize::MAX
}

/// Whether a frame of `width` by `height` can be resampled to `new_width` by
/// `new_height`: a vector can hold the new frame, and the intermediate frame
/// of the old width and the new height, with 16 bytes to the pixel, that
/// resampling allocates unless the old frame is empty or has the new size
/// already.
pub open spec fn scalable(width: u32, height: u32, new_width: u32, new_height: u32) -> bool {
    &&& fits(4, new_width, new_height)
    &&& (width == 0 || height == 0 || (new_width == width && new_height == height) || fits(
        16,
        width,
        new_height,
    ))
}

/// A sequence of `n` pixels in which every byte is zero.
pub open spec fn zeroed(n: nat) -> Seq<Seq<u8>> {
    Seq::new(n, |i: int| seq![0u8, 0u8, 0u8, 0u8])
}

/// The bytes of `pixels` in order, four to the pixel.
pub open spec fn flat(pixels: Seq<Seq<u8>>) -> Seq<u8> {
    Seq::new(4 * pixels.len(), |i: int| pixels[i / 4][i % 4])
}

/// Whether `pixels` holds one pixel of four bytes for each cell of a frame
/// of `width` by `height`.
pub open spec fn well_shaped(pixels: Seq<Seq<u8>>, width: u32, height: u32) -> bool {
    &&& pixels.len() == width * height
    &&& forall|i: int| 0 <= i < pixels.len() ==> (#[trigger] pixels[i]).len() == 4
}

/// The cell in column `x` of row `y` has a position in a frame of `width` by
/// `height`.
pub proof fn lemma_offset_in_range(x: u32, y: u32, width: u32, height: u32)
    requires
        x < width,
        y < height,
    ensures
        0 <= y * width + x < width * height,
{
    assert(y * width + x < width * height) by (nonlinear_arith)
        requires
            0 <= x < width,
            0 <= y < height,
    ;
    assert(0 <= y * width) by (nonlinear_arith)
        requires
            0 <= y,
            0 <= width,
    ;
}

/// `ImageBuffer::new`: a frame of the given size with every byte zero. The
/// call panics where the bytes exceed what a vector can hold, which `requires`
/// leaves out.
#[verifier::external_body]
fn blank(width: u32, height: u32) -> (b: Buffer)
    requires
        fits(4, width, height),
    ensures
        frame_width(b) == width,
        frame_height(b) == height,
        frame_pixels(b) == zeroed((width * height) as nat),
{
    Buffer { image: image::ImageBuffer::new(width, height) }
}

/// `ImageBuffer::width`.
#[verifier::external_body]
fn width_of(b: &Buffer) -> (w: u32)
    ensures
        w == frame_width(*b),
{
    b.image.width()
}

/// `ImageBuffer::height`.
#[verifier::external_body]
fn height_of(b: &Buffer) -> (h: u32)
    ensures
        h == frame_height(*b),
{
    b.image.height()
}

/// `ImageBuffer::get_pixel`: the four bytes of the pixel in column `x` of row
/// `y`. The call panics outside the frame, which `requires` leaves out.
#[verifier::external_body]
fn pixel_at(b: &Buffer, x: u32, y: u32) -> (pixel: [u8; 4])
    requires
        x < frame_width(*b),
        y < frame_height(*b),
    ensures
        pixel@ == frame_pixels(*b)[y * frame_width(*b) + x],
{
    b.image.get_pixel(x, y).0
}

/// `ImageBuffer::put_pixel`: replaces the pixel in column `x` of row `y` and
/// nothing else. The call panics outside the frame, which `requires` leaves
/// out.
#[verifier::external_body]
fn put(b: &mut Buffer, x: u32, y: u32, pixel: [u8; 4])
    requires
        x < frame_width(*old(b)),
        y < frame_height(*old(b)),
    ensures
        frame_width(*final(b)) == frame_width(*old(b)),
        frame_height(*final(b)) == frame_height(*old(b)),
        frame_pixels(*final(b)) == frame_pixels(*old(b)).update(
            y * frame_width(*old(b)) + x,
            pixel@,
        ),
{
    b.image.put_pixel(x, y, image::Rgba(pixel))
}

/// `ImageBuffer::into_raw`: the bytes of the pixels in order, four to the
/// pixel. Every frame of this module holds exactly the bytes of its pixels,
/// since `ImageBuffer::new`, `Clone::clone` and `imageops::resize` make no
/// other.
#[verifier::external_body]
fn bytes_of(b: Buffer) -> (raw: Vec<u8>)
    ensures
        raw@ == flat(frame_pixels(b)),
{
    b.image.into_raw()
}

/// `Clone::clone` of an `ImageBuffer`: a frame of the same size with the same
/// pixels.
#[verifier::external_body]
fn copy_of(b: &Buffer) -> (c: Buffer)
    ensures
        frame_width(c) == frame_width(*b),
        frame_height(c) == frame_height(*b),
        frame_pixels(c) == frame_pixels(*b),
{
    Buffer { image: b.image.clone() }
}

/// `imageops::resize` with `FilterType::Nearest`: a frame of exactly the new
/// size, one pixel of four bytes for each cell, whose pixels depend on the old
/// frame's size and pixels alone. An empty frame gives a frame of zero bytes,
/// and a frame that has the new size already gives a copy. In every other
/// case the call allocates an intermediate frame of the old width and the new
/// height with 16 bytes to the pixel. It panics where that or the result
/// exceeds what a vector can hold, which `requires` leaves out.
#[verifier::external_body]
fn resized(b: &Buffer, new_width: u32, new_height: u32) -> (r: Buffer)
    requires
        scalable(frame_width(*b), frame_height(*b), new_width, new_height),
    ensures
        frame_width(r) == new_width,
        frame_height(r) == new_height,
        well_shaped(frame_pixels(r), new_width, new_height),
        frame_pixels(r) == resampled(
            frame_pixels(*b),
            frame_width(*b),
            frame_height(*b),
            new_width,
            new_height,
        ),
        frame_width(*b) == 0 || frame_height(*b) == 0 ==> frame_pixels(r) == zeroed(
            (new_width * new_height) as nat,
        ),
        frame_width(*b) > 0 && frame_height(*b) > 0 && new_width == frame_width(*b) && new_height
            == frame_height(*b) ==> frame_pixels(r) == frame_pixels(*b),
{
    let filter = image::imageops::FilterType::Nearest;
    Buffer { image: image::imageops::resize(&b.image, new_width, new_height, filter) }
}

/// Tells whether a vector can hold `bytes` bytes for each of `width *
/// height` pixels.
pub fn can_hold(bytes: u8, width: u32, height: u32) -> (ok: bool)
    ensures
        ok == fits(bytes as int, width, height),
{
    assert(bytes * width <= 0xff * 0xffff_ffff) by (nonlinear_arith)
        requires
            0 <= bytes <= 0xff,
            0 <= width <= 0xffff_ffff,
    ;
    let row: u128 = (bytes as u128) * (width as u128);
    assert(row * height <= 0xff * 0xffff_ffff * 0xffff_ffff) by (nonlinear_arith)
        requires
            0 <= row <= 0xff * 0xffff_ffff,
            0 <= height <= 0xffff_ffff,
    ;
    let total: u128 = row * (height as u128);
    total <= isize::MAX as u128
}

impl Buffer {
    /// The frame's width, in pixels.
    pub open spec fn spec_width(&self) -> u32 {
        frame_width(*self)
    }

    /// The frame's height, in pixels.
    pub open spec fn spec_height(&self) -> u32 {
        frame_height(*self)
    }

    /// The frame's pixels in row-major order, four bytes each.
    pub open spec fn view(&self) -> Seq<Seq<u8>> {
        frame_pixels(*self)
    }

    /// The position in the view of the pixel in column `x` of row `y`.
    pub open spec fn offset(&self, x: u32, y: u32) -> int {
        y * self.spec_width() + x
    }

    /// Whether the view holds one pixel of four bytes for each cell.
    pub open spec fn wf(&self) -> bool {
        well_shaped(self@, self.spec_width(), self.spec_height())
    }

    /// A frame of `width` by `height` whose pixels are all transparent black.
    pub fn new(width: u32, height: u32) -> (b: Self)
        requires
            fits(4, width, height),
        ensures
            b.spec_width() == width,
            b.spec_height() == height,
            b@ == zeroed((width * height) as nat),
            b.wf(),
    {
        blank(width, height)
    }

    /// The frame's width, in pixels.
    #[verifier::when_used_as_spec(spec_width)]
    pub fn width(&self) -> (w: u32)
        ensures
            w == self.spec_width(),
    {
        width_of(self)
    }

    /// The frame's height, in pixels.
    #[verifier::when_used_as_spec(spec_height)]
    pub fn height(&self) -> (h: u32)
        ensures
            h == self.spec_height(),
    {
        height_of(self)
    }

    /// The pixel in column `x` of row `y`.
    pub fn get_pixel(&self, x: u32, y: u32) -> (pixel: [u8; 4])
        requires
            x < self.spec_width(),
            y < self.spec_height(),
        ensures
            pixel@ == self@[self.offset(x, y)],
    {
        pixel_at(self, x, y)
    }

    /// Replaces the pixel in column `x` of row `y`.
    pub fn put_pixel(&mut self, x: u32, y: u32, pixel: [u8; 4])
        requires
            x < old(self).spec_width(),
            y < old(self).spec_height(),
        ensures
            final(self).spec_width() == old(self).spec_width(),
            final(self).spec_height() == old(self).spec_height(),
            final(self)@ == old(self)@.update(old(self).offset(x, y), pixel@),
            old(self).wf() ==> final(self).wf(),
    {
        proof {
            lemma_offset_in_range(x, y, self.spec_width(), self.spec_height());
        }
        put(self, x, y, pixel)
    }

    /// The frame's bytes: red, green, blue and alpha of each pixel, row after
    /// row.
    pub fn into_raw(self) -> (raw: Vec<u8>)
        ensures
            raw@ == flat(self@),
    {
        bytes_of(self)
    }

    /// An owned copy of the frame as it is now.
    pub fn snapshot(&self) -> (c: Self)
        ensures
            c.spec_width() == self.spec_width(),
            c.spec_height() == self.spec_height(),
            c@ == self@,
    {
        copy_of(self)
    }

    /// Tells whether the frame can be resampled to `new_width` by
    /// `new_height`.
    pub fn can_scale(&self, new_width: u32, new_height: u32) -> (ok: bool)
        ensures
            ok == scalable(self.spec_width(), self.spec_height(), new_width, new_height),
    {
        let width = self.width();
        let height = self.height();
        can_hold(4, new_width, new_height) && (width == 0 || height == 0 || (new_width == width
            && new_height == height) || can_hold(16, width, new_height))
    }

    /// The frame resampled to `new_width` by `new_height`. A frame without
    /// pixels gives one of transparent black, and a frame that has the new
    /// size already gives a copy.
    pub fn scale(&self, new_width: u32, new_height: u32) -> (r: Self)
        requires
            scalable(self.spec_width(), self.spec_height(), new_width, new_height),
        ensures
            r.spec_width() == new_width,
            r.spec_height() == new_height,
            r@ == resampled(self@, self.spec_width(), self.spec_height(), new_width, new_height),
            r.wf(),
            self.spec_width() == 0 || self.spec_height() == 0 ==> r@ == zeroed(
                (new_width * new_height) as nat,
            ),
            self.spec_width() > 0 && self.spec_height() > 0 && new_width == self.spec_width()
                && new_height == self.spec_height() ==> r@ == self@,
    {
        resized(self, new_width, new_height)
    }

    /// The frame resampled to `new_width` by `new_height`, or `None` where
    /// the new frame, or the intermediate one that resampling allocates,
    /// would be larger than a vector can be.
    pub fn try_scale(&self, new_width: u32, new_height: u32) -> (r: Option<Self>)
        ensures
            r is Some <==> scalable(self.spec_width(), self.spec_height(), new_width, new_height),
            r matches Some(b) ==> {
                &&& b.spec_width() == new_width
                &&& b.spec_height() == new_height
                &&& b@ == resampled(
                    self@,
                    self.spec_width(),
                    self.spec_height(),
                    new_width,
                    new_height,
                )
                &&& b.wf()
            },
    {
        if self.can_scale(new_width, new_height) {
            Some(self.scale(new_width, new_height))
        } else {
            None
        }
    }
}

} // verus!
