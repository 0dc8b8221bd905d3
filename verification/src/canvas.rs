//! The canvas: one colour for each pixel, and the geometry that places the
//! pixels on the Cartesian grid.
use vstd::prelude::*;
use crate::grid::{Geometry, Pixel};

verus! {

/// The colour that marks a pixel through which the curve passes.
pub const ROOT: u32 = 0;

/// The colour of a fresh canvas: opaque white.
pub const BLANK: u32 = 0xFFFF_FFFF;

/// A raster of packed RGBA colours, row after row.
pub struct Canvas {
    geometry: Geometry,
    buffer: Vec<u32>,
}

/// Whether some pixel next to `p`, of the eight around it, is marked in
/// `pixels`.
pub open spec fn root_nearby(g: Geometry, pixels: Seq<u32>, p: Pixel) -> bool {
    exists|dx: int, dy: int|
        -1 <= dx <= 1 && -1 <= dy <= 1 && (#[trigger] g.spec_neighbor(p, dx, dy) matches Some(q)
            && pixels[q.index as int] == ROOT)
}

impl Canvas {
    /// The colours, in row-major order.
    pub closed spec fn view(&self) -> Seq<u32> {
        self.buffer@
    }

    /// The canvas's size and origin.
    pub closed spec fn spec_geometry(&self) -> Geometry {
        self.geometry
    }

    /// There is one colour for each pixel.
    pub open spec fn wf(&self) -> bool {
        &&& self.spec_geometry().wf()
        &&& self@.len() == self.spec_geometry().area()
    }

    /// Whether `p` is marked as a pixel of the curve.
    pub open spec fn spec_is_root(&self, p: Pixel) -> bool {
        self@[p.index as int] == ROOT
    }

    /// A blank canvas of `width` by `height` pixels with the Cartesian origin
    /// at pixel (`origin_x`, `origin_y`).
    pub fn new(width: u32, height: u32, origin_x: i32, origin_y: i32) -> (c: Self)
        requires
            width * height <= usize::MAX,
        ensures
            c.wf(),
            c.spec_geometry() == (Geometry { width, height, origin_x, origin_y }),
            c@ == Seq::new((width * height) as nat, |i: int| BLANK),
    {
        let n: usize = (width as usize) * (height as usize);
        let mut buffer: Vec<u32> = Vec::new();
        let mut i: usize = 0;
        while i < n
            invariant
                i <= n,
                buffer@.len() == i,
                forall|k: int| 0 <= k < i ==> buffer@[k] == BLANK,
            decreases n - i,
        {
            buffer.push(BLANK);
            i += 1;
        }
        assert(buffer@ =~= Seq::new((width * height) as nat, |i: int| BLANK));
        Canvas { geometry: Geometry { width, height, origin_x, origin_y }, buffer }
    }

    /// The canvas's size and origin.
    #[verifier::when_used_as_spec(spec_geometry)]
    pub fn geometry(&self) -> (g: Geometry)
        ensures
            g == self.spec_geometry(),
    {
        self.geometry
    }

    /// The number of pixels.
    pub fn len(&self) -> (n: usize)
        requires
            self.wf(),
        ensures
            n == self@.len(),
            n == self.spec_geometry().area(),
    {
        self.buffer.len()
    }

    /// The colour of `p`.
    pub fn get(&self, p: Pixel) -> (color: u32)
        requires
            p.index < self@.len(),
        ensures
            color == self@[p.index as int],
    {
        self.buffer[p.index]
    }

    /// Gives `p` the colour `color`.
    pub fn set(&mut self, p: Pixel, color: u32)
        requires
            p.index < old(self)@.len(),
        ensures
            final(self)@ == old(self)@.update(p.index as int, color),
            final(self).spec_geometry() == old(self).spec_geometry(),
    {
        self.buffer[p.index] = color;
    }

    /// Whether `p` is marked as a pixel of the curve.
    #[verifier::when_used_as_spec(spec_is_root)]
    pub fn is_root(&self, p: Pixel) -> (r: bool)
        requires
            p.index < self@.len(),
        ensures
            r == self.spec_is_root(p),
    {
        self.buffer[p.index] == ROOT
    }

    /// Marks `p` as a pixel of the curve.
    pub fn mark_root(&mut self, p: Pixel)
        requires
            p.index < old(self)@.len(),
        ensures
            final(self)@ == old(self)@.update(p.index as int, ROOT),
            final(self).spec_geometry() == old(self).spec_geometry(),
    {
        self.buffer[p.index] = ROOT;
    }

    /// Whether one of the eight pixels around `p` is marked. Pixels beyond
    /// the canvas's edge do not count.
    pub fn has_root_neighbor(&self, p: Pixel) -> (r: bool)
        requires
            self.wf(),
            self.spec_geometry().contains(p),
        ensures
            r == root_nearby(self.spec_geometry(), self@, p),
    {
        let mut dy: i64 = -1;
        while dy <= 1
            invariant
                -1 <= dy <= 2,
                self.wf(),
                self.spec_geometry().contains(p),
                forall|ex: int, ey: int|
                    -1 <= ex <= 1 && -1 <= ey < dy ==> !(#[trigger] self.spec_geometry().spec_neighbor(
                        p,
                        ex,
                        ey,
                    ) matches Some(q) && self@[q.index as int] == ROOT),
            decreases 2 - dy,
        {
            let mut dx: i64 = -1;
            while dx <= 1
                invariant
                    -1 <= dx <= 2,
                    -1 <= dy <= 1,
                    self.wf(),
                    self.spec_geometry().contains(p),
                    forall|ex: int, ey: int|
                        -1 <= ex <= 1 && -1 <= ey < dy ==> !(
                        #[trigger] self.spec_geometry().spec_neighbor(p, ex, ey) matches Some(q)
                            && self@[q.index as int] == ROOT),
                    forall|ex: int|
                        -1 <= ex < dx ==> !(#[trigger] self.spec_geometry().spec_neighbor(
                            p,
                            ex,
                            dy as int,
                        ) matches Some(q) && self@[q.index as int] == ROOT),
                decreases 2 - dx,
            {
                match self.geometry.neighbor(p, dx, dy) {
                    Some(q) => {
                        if self.buffer[q.index] == ROOT {
                            return true;
                        }
                    },
                    None => {},
                }
                dx += 1;
            }
            dy += 1;
        }
        false
    }
}

} // verus!
