//! The colour-noise test pattern that a tile worker paints, one scanline at a
//! time, from a 64-bit xorshift generator.
use vstd::prelude::*;
use crate::frame::{lemma_offset_in_range, Buffer};

verus! {

/// Seed of every freshly made generator.
pub const SEED: u64 = 0xFEFABABE;

/// Number of base colours that worker ids cycle through.
pub const PALETTE_LEN: usize = 7;

/// The base colour (red, green, blue) with the given position in the palette.
pub open spec fn palette(k: int) -> Seq<u8> {
    if k == 0 {
        seq![255u8, 0u8, 0u8]
    } else if k == 1 {
        seq![255u8, 0u8, 255u8]
    } else if k == 2 {
        seq![0u8, 255u8, 255u8]
    } else if k == 3 {
        seq![255u8, 255u8, 0u8]
    } else if k == 4 {
        seq![0u8, 255u8, 0u8]
    } else if k == 5 {
        seq![0u8, 0u8, 255u8]
    } else {
        seq![255u8, 255u8, 255u8]
    }
}

/// One round of the xorshift generator: shifts of 13 to the left, 17 to the
/// right and 5 to the left, each folded back in with exclusive or.
pub open spec fn xorshift(f: u64) -> u64 {
    let a = f ^ (f << 13);
    let b = a ^ (a >> 17);
    b ^ (b << 5)
}

/// The generator's state after `n` rounds from `f`.
pub open spec fn xorshift_n(f: u64, n: nat) -> u64
    decreases n,
{
    if n == 0 {
        f
    } else {
        xorshift(xorshift_n(f, (n - 1) as nat))
    }
}

/// The most significant byte of a generator state.
pub open spec fn top_byte(f: u64) -> u8 {
    (f >> 56) as u8
}

/// The pixel (red, green, blue, alpha) that a generator state `f` gives under
/// the base colour `color`: the state's top byte masked by each channel of the
/// colour, and the byte itself as alpha.
pub open spec fn noise_pixel(f: u64, color: [u8; 3]) -> Seq<u8> {
    let rnd = top_byte(f);
    seq![rnd & color[0], rnd & color[1], rnd & color[2], rnd]
}

/// The scanline that is painted next in a frame of `height` rows when the
/// counter stands at `line`: the counter starts again at the top once it has
/// run past the last row.
pub open spec fn next_line(line: u32, height: u32) -> u32 {
    if line >= height {
        0
    } else {
        line
    }
}

/// The pixels of a frame of `width` columns after the first `count` cells of
/// row `y` have been painted from left to right, starting from generator
/// state `f`: the cell in column `x` holds the pixel of the state after
/// `x + 1` rounds, and every other cell is as it was.
pub open spec fn painted(
    pixels: Seq<Seq<u8>>,
    width: u32,
    y: u32,
    count: int,
    f: u64,
    color: [u8; 3],
) -> Seq<Seq<u8>> {
    Seq::new(
        pixels.len(),
        |i: int|
            if y * width <= i < y * width + count {
                noise_pixel(xorshift_n(f, (i - y * width + 1) as nat), color)
            } else {
                pixels[i]
            },
    )
}

/// What a worker keeps between scanlines.
pub struct DrawState {
    /// The scanline that is painted next.
    pub line: u32,
    /// The generator's state.
    pub factor: u64,
    /// The worker's base colour.
    pub color: [u8; 3],
}

impl DrawState {
    /// The state of worker `id` before its first scanline: line 0, the fixed
    /// seed, and the base colour that the id selects, cycling through the
    /// palette.
    pub fn new(id: usize) -> (s: Self)
        ensures
            s.line == 0,
            s.factor == SEED,
            s.color@ == palette(id as int % PALETTE_LEN as int),
    {
        let color_bases: [[u8; 3]; 7] = [
            [255, 0, 0],
            [255, 0, 255],
            [0, 255, 255],
            [255, 255, 0],
            [0, 255, 0],
            [0, 0, 255],
            [255, 255, 255],
        ];
        let k: usize = id % PALETTE_LEN;
        let color = color_bases[k];
        assert(color@ =~= palette(k as int));
        DrawState { line: 0, factor: SEED, color }
    }

    /// Advances the generator by one round and returns the pixel of the new
    /// state.
    pub fn pixel(&mut self) -> (p: [u8; 4])
        ensures
            final(self).factor == xorshift(old(self).factor),
            final(self).line == old(self).line,
            final(self).color == old(self).color,
            p@ == noise_pixel(final(self).factor, old(self).color),
    {
        self.factor ^= self.factor << 13;
        self.factor ^= self.factor >> 17;
        self.factor ^= self.factor << 5;
        let rnd: u8 = (self.factor >> 56) as u8;
        let p = [rnd & self.color[0], rnd & self.color[1], rnd & self.color[2], rnd];
        assert(p@ =~= noise_pixel(self.factor, self.color));
        p
    }

    /// Paints one scanline of noise into `buf` and moves on to the next: the
    /// whole of row `next_line(line, height)`, one generator round for each
    /// pixel, from left to right. Returns the number of pixels painted, the
    /// frame's width.
    pub fn draw(&mut self, buf: &mut Buffer) -> (n: u32)
        requires
            old(buf).wf(),
            old(buf).spec_height() > 0 || old(buf).spec_width() == 0,
        ensures
            n == old(buf).spec_width(),
            final(buf).spec_width() == old(buf).spec_width(),
            final(buf).spec_height() == old(buf).spec_height(),
            final(buf).wf(),
            final(buf)@ == painted(
                old(buf)@,
                old(buf).spec_width(),
                next_line(old(self).line, old(buf).spec_height()),
                old(buf).spec_width() as int,
                old(self).factor,
                old(self).color,
            ),
            final(self).line == next_line(old(self).line, old(buf).spec_height()) + 1,
            final(self).factor == xorshift_n(old(self).factor, old(buf).spec_width() as nat),
            final(self).color == old(self).color,
    {
        let width: u32 = buf.width();
        let height: u32 = buf.height();
        if self.line >= height {
            self.line = 0;
        }
        let y: u32 = self.line;
        let ghost before = buf@;
        let ghost seed = self.factor;
        let ghost color = self.color;
        assert(buf@ =~= painted(before, width, y, 0, seed, color));
        let mut x: u32 = 0;
        while x < width
            invariant
                x <= width,
                width == buf.spec_width(),
                height == buf.spec_height(),
                height > 0 || width == 0,
                y == self.line,
                y < height || width == 0,
                buf.wf(),
                before.len() == buf@.len(),
                buf@ == painted(before, width, y, x as int, seed, color),
                self.factor == xorshift_n(seed, x as nat),
                self.color == color,
            decreases width - x,
        {
            let p = self.pixel();
            proof {
                lemma_offset_in_range(x, y, width, height);
            }
            buf.put_pixel(x, y, p);
            assert(buf@ =~= painted(before, width, y, x + 1, seed, color));
            x += 1;
        }
        self.line += 1;
        width
    }
}

} // verus!
