//! Canvas geometry: which cell of the Cartesian grid a pixel is, which pixel a
//! cell is, the lattice of sample points inside a pixel's cell, and the
//! pixels that lie around a pixel.
//!
//! Lengths are counted in cells: the pixel in column `c` and row `r`, both
//! relative to the origin pixel, covers the Cartesian square that starts at
//! `(c * cell width, r * cell height)`. The cell's size in Cartesian units is
//! the caller's business.
use vstd::prelude::*;
use vstd::arithmetic::div_mod::{lemma_fundamental_div_mod, lemma_fundamental_div_mod_converse};

verus! {

/// A pixel of a canvas, by its position in the row-major buffer.
#[derive(Clone, Copy, PartialEq, Eq, Structural, Debug)]
pub struct Pixel {
    pub index: usize,
}

/// A cell of the Cartesian grid: column and row relative to the origin.
#[derive(Clone, Copy, PartialEq, Eq, Structural, Debug)]
pub struct Cell {
    pub col: i64,
    pub row: i64,
}

/// A sample point inside a cell: point `(i, j)` of the `dim` by `dim` lattice
/// that spans the cell from corner to corner. Its Cartesian coordinates are
/// `(col + i / (dim - 1)) * cell width` and `(row + j / (dim - 1)) * cell
/// height`.
#[derive(Clone, Copy, PartialEq, Eq, Structural, Debug)]
pub struct SamplePoint {
    pub col: i64,
    pub row: i64,
    pub i: u32,
    pub j: u32,
    pub dim: u32,
}

/// The size of a canvas and the pixel at which the Cartesian origin lies.
#[derive(Clone, Copy, PartialEq, Eq, Structural, Debug)]
pub struct Geometry {
    pub width: u32,
    pub height: u32,
    pub origin_x: i32,
    pub origin_y: i32,
}

impl Geometry {
    /// The number of pixels.
    pub open spec fn area(&self) -> int {
        self.width * self.height
    }

    /// The pixels can be counted in a `usize`.
    pub open spec fn wf(&self) -> bool {
        self.area() <= usize::MAX
    }

    /// Whether `p` is a pixel of this canvas.
    pub open spec fn contains(&self, p: Pixel) -> bool {
        p.index < self.area()
    }

    /// The column of `p` in the buffer, from the left.
    pub open spec fn x_of(&self, p: Pixel) -> int {
        p.index as int % self.width as int
    }

    /// The row of `p` in the buffer, from the top.
    pub open spec fn y_of(&self, p: Pixel) -> int {
        p.index as int / self.width as int
    }

    /// The grid cell of `p`: its column and row relative to the origin pixel.
    pub open spec fn spec_cell(&self, p: Pixel) -> Cell {
        Cell {
            col: (self.x_of(p) - self.origin_x) as i64,
            row: (self.y_of(p) - self.origin_y) as i64,
        }
    }

    /// The pixel that covers `cell`, if the canvas has one.
    pub open spec fn spec_pixel(&self, cell: Cell) -> Option<Pixel> {
        let x = cell.col + self.origin_x;
        let y = cell.row + self.origin_y;
        if 0 <= x < self.width && 0 <= y < self.height {
            Some(Pixel { index: (y * self.width + x) as usize })
        } else {
            None
        }
    }

    /// Point `k` of the `dim` by `dim` lattice in the cell of `p`, counting
    /// along `i` first and then along `j`.
    pub open spec fn spec_lattice_point(&self, p: Pixel, dim: u32, k: int) -> SamplePoint {
        let cell = self.spec_cell(p);
        SamplePoint {
            col: cell.col,
            row: cell.row,
            i: (k % dim as int) as u32,
            j: (k / dim as int) as u32,
            dim,
        }
    }

    /// The `dim * dim` sample points in the cell of `p`, in order.
    pub open spec fn lattice(&self, p: Pixel, dim: u32) -> Seq<SamplePoint> {
        Seq::new((dim * dim) as nat, |k: int| self.spec_lattice_point(p, dim, k))
    }

    /// The pixel `dx` columns to the right of `p` and `dy` rows below it, if
    /// that is another pixel of the canvas.
    pub open spec fn spec_neighbor(&self, p: Pixel, dx: int, dy: int) -> Option<Pixel> {
        let x = self.x_of(p) + dx;
        let y = self.y_of(p) + dy;
        if (dx != 0 || dy != 0) && 0 <= x < self.width && 0 <= y < self.height {
            Some(Pixel { index: (y * self.width + x) as usize })
        } else {
            None
        }
    }

    /// Whether `q` is a pixel of the canvas other than `p` and at most
    /// `radius` columns and `radius` rows away from it.
    pub open spec fn near(&self, p: Pixel, q: Pixel, radius: u32) -> bool {
        &&& self.contains(q)
        &&& q != p
        &&& -radius <= self.x_of(q) - self.x_of(p) <= radius
        &&& -radius <= self.y_of(q) - self.y_of(p) <= radius
    }

    /// A pixel of the canvas has a column below the width and a row below the
    /// height, and its index is made of the two.
    pub proof fn lemma_position(&self, p: Pixel)
        requires
            self.contains(p),
        ensures
            0 <= self.x_of(p) < self.width,
            0 <= self.y_of(p) < self.height,
            p.index == self.y_of(p) * self.width + self.x_of(p),
    {
        let w = self.width as int;
        let h = self.height as int;
        let i = p.index as int;
        assert(w > 0) by (nonlinear_arith)
            requires
                0 <= i < w * h,
                0 <= w,
        ;
        lemma_fundamental_div_mod(i, w);
        assert(w * (i / w) == (i / w) * w) by (nonlinear_arith);
        assert(0 <= i / w < h) by (nonlinear_arith)
            requires
                0 <= i < w * h,
                w > 0,
                i == (i / w) * w + i % w,
                0 <= i % w < w,
        ;
    }

    /// The pixel in column `x` of row `y` has that column and that row.
    pub proof fn lemma_index(&self, x: int, y: int)
        requires
            self.wf(),
            0 <= x < self.width,
            0 <= y < self.height,
        ensures
            0 <= y * self.width + x < self.area(),
            self.contains(Pixel { index: (y * self.width + x) as usize }),
            self.x_of(Pixel { index: (y * self.width + x) as usize }) == x,
            self.y_of(Pixel { index: (y * self.width + x) as usize }) == y,
    {
        let w = self.width as int;
        let h = self.height as int;
        assert(0 <= y * w + x < w * h) by (nonlinear_arith)
            requires
                0 <= x < w,
                0 <= y < h,
        ;
        assert(y * w == w * y) by (nonlinear_arith);
        lemma_fundamental_div_mod_converse(y * w + x, w, y, x);
    }

    /// The grid cell of `p`.
    pub fn cell(&self, p: Pixel) -> (c: Cell)
        requires
            self.contains(p),
        ensures
            c == self.spec_cell(p),
            c.col == self.x_of(p) - self.origin_x,
            c.row == self.y_of(p) - self.origin_y,
    {
        proof {
            self.lemma_position(p);
        }
        let w: usize = self.width as usize;
        let x: i64 = (p.index % w) as i64;
        let y: i64 = (p.index / w) as i64;
        Cell { col: x - self.origin_x as i64, row: y - self.origin_y as i64 }
    }

    /// The pixel that covers `cell`, or `None` where the cell lies outside
    /// the canvas.
    pub fn pixel(&self, cell: Cell) -> (p: Option<Pixel>)
        requires
            self.wf(),
        ensures
            p == self.spec_pixel(cell),
            p matches Some(q) ==> self.contains(q) && self.spec_cell(q) == cell,
    {
        let x: i128 = cell.col as i128 + self.origin_x as i128;
        let y: i128 = cell.row as i128 + self.origin_y as i128;
        if 0 <= x && x < self.width as i128 && 0 <= y && y < self.height as i128 {
            proof {
                self.lemma_index(x as int, y as int);
            }
            let index: usize = (y as usize) * (self.width as usize) + (x as usize);
            Some(Pixel { index })
        } else {
            None
        }
    }

    /// The pixel `dx` columns to the right of `p` and `dy` rows below it, or
    /// `None` where that is `p` itself or lies outside the canvas.
    pub fn neighbor(&self, p: Pixel, dx: i64, dy: i64) -> (q: Option<Pixel>)
        requires
            self.wf(),
            self.contains(p),
        ensures
            q == self.spec_neighbor(p, dx as int, dy as int),
            q matches Some(n) ==> {
                &&& self.contains(n)
                &&& n != p
                &&& self.x_of(n) == self.x_of(p) + dx
                &&& self.y_of(n) == self.y_of(p) + dy
            },
    {
        proof {
            self.lemma_position(p);
        }
        let w: usize = self.width as usize;
        let x: i128 = (p.index % w) as i128 + dx as i128;
        let y: i128 = (p.index / w) as i128 + dy as i128;
        if (dx != 0 || dy != 0) && 0 <= x && x < self.width as i128 && 0 <= y && y
            < self.height as i128 {
            proof {
                self.lemma_index(x as int, y as int);
            }
            let index: usize = (y as usize) * w + (x as usize);
            Some(Pixel { index })
        } else {
            None
        }
    }

    /// Point `(i, j)` of the `dim` by `dim` lattice in the cell of `p`.
    pub fn lattice_point(&self, p: Pixel, dim: u32, i: u32, j: u32) -> (s: SamplePoint)
        requires
            self.contains(p),
            dim >= 2,
            i < dim,
            j < dim,
        ensures
            s == self.spec_lattice_point(p, dim, j * dim + i),
            s == self.lattice(p, dim)[j * dim + i],
            0 <= j * dim + i < dim * dim,
            s.i == i,
            s.j == j,
            s.dim == dim,
    {
        let cell = self.cell(p);
        proof {
            let d = dim as int;
            assert(0 <= j * d + i < d * d) by (nonlinear_arith)
                requires
                    0 <= i < d,
                    0 <= j < d,
            ;
            assert(j * d == d * j) by (nonlinear_arith);
            lemma_fundamental_div_mod_converse(j * d + i, d, j as int, i as int);
        }
        SamplePoint { col: cell.col, row: cell.row, i, j, dim }
    }
}

/// The pixels near `p` are those that `spec_neighbor` reaches with offsets up
/// to the radius.
pub proof fn lemma_near_is_neighbor(g: Geometry, p: Pixel, q: Pixel, radius: u32)
    requires
        g.wf(),
        g.contains(p),
    ensures
        g.near(p, q, radius) <==> exists|dx: int, dy: int|
            -radius <= dx <= radius && -radius <= dy <= radius && #[trigger] g.spec_neighbor(
                p,
                dx,
                dy,
            ) == Some(q),
{
    g.lemma_position(p);
    if g.near(p, q, radius) {
        g.lemma_position(q);
        let dx = g.x_of(q) - g.x_of(p);
        let dy = g.y_of(q) - g.y_of(p);
        assert(g.spec_neighbor(p, dx, dy) == Some(q));
    }
    if exists|dx: int, dy: int|
        -radius <= dx <= radius && -radius <= dy <= radius && #[trigger] g.spec_neighbor(p, dx, dy)
            == Some(q) {
        let (dx, dy) = choose|dx: int, dy: int|
            -radius <= dx <= radius && -radius <= dy <= radius && #[trigger] g.spec_neighbor(
                p,
                dx,
                dy,
            ) == Some(q);
        g.lemma_index(g.x_of(p) + dx, g.y_of(p) + dy);
    }
}

/// From a pixel to its cell and back is the pixel again, for every pixel of
/// the canvas: the mapping loses nothing.
pub proof fn lemma_cell_round_trip(g: Geometry, p: Pixel)
    requires
        g.wf(),
        g.contains(p),
    ensures
        g.spec_pixel(g.spec_cell(p)) == Some(p),
{
    g.lemma_position(p);
}

/// From a cell to its pixel and back is the cell again, wherever the canvas
/// covers the cell.
pub proof fn lemma_pixel_round_trip(g: Geometry, cell: Cell)
    requires
        g.wf(),
        g.spec_pixel(cell) is Some,
    ensures
        g.contains(g.spec_pixel(cell).unwrap()),
        g.spec_cell(g.spec_pixel(cell).unwrap()) == cell,
{
    g.lemma_index(cell.col + g.origin_x, cell.row + g.origin_y);
}

} // verus!
