//! The refinement engine: three passes over a canvas that mark the pixels
//! through which the curve passes.
//!
//! The coarse scan tests every pixel on a small lattice. The gated rescan
//! tests the pixels still unmarked on a larger one. The deepening pass then
//! works outward from the marked pixels, on lattices that grow from one
//! iteration to the next, and remembers for each pixel the largest lattice
//! it has been tested on.
use vstd::prelude::*;
use crate::canvas::{Canvas, ROOT};
use crate::grid::{Geometry, Pixel};
use crate::oracle::{detects, sign_change, Field};

verus! {

/// The colours after the first `count` pixels have been tested at lattice
/// dimension `dim`: a pixel in whose cell the test finds a sign change is
/// marked, and every other pixel is as it was.
pub open spec fn marked_to<F: Field>(
    field: &F,
    g: Geometry,
    pixels: Seq<u32>,
    dim: u32,
    count: int,
) -> Seq<u32> {
    Seq::new(
        pixels.len(),
        |i: int|
            if i < count && detects(field, g, Pixel { index: i as usize }, dim) {
                ROOT
            } else {
                pixels[i]
            },
    )
}

/// The colours after every pixel has been tested at lattice dimension `dim`.
pub open spec fn marked<F: Field>(field: &F, g: Geometry, pixels: Seq<u32>, dim: u32) -> Seq<u32> {
    marked_to(field, g, pixels, dim, pixels.len() as int)
}

/// Every pixel marked in `before` is marked in `after`.
pub open spec fn keeps_roots(before: Seq<u32>, after: Seq<u32>) -> bool {
    &&& before.len() == after.len()
    &&& forall|i: int| 0 <= i < before.len() && before[i] == ROOT ==> #[trigger] after[i] == ROOT
}

/// Every pixel marked in `after` and not in `before` is one in whose cell the
/// test finds a sign change of `field` at some lattice dimension.
pub open spec fn justified<F: Field>(
    field: &F,
    g: Geometry,
    before: Seq<u32>,
    after: Seq<u32>,
) -> bool {
    forall|i: int|
        0 <= i < after.len() && #[trigger] after[i] == ROOT && before[i] != ROOT ==> exists|dim: u32|
            #[trigger] detects(field, g, Pixel { index: i as usize }, dim)
}

/// The coarse scan: tests every pixel at lattice dimension `dim` and marks
/// those in whose cell the field changes sign.
pub fn render<F: Field>(field: &F, canvas: &mut Canvas, dim: u32)
    requires
        field.wf(),
        old(canvas).wf(),
        dim >= 2,
    ensures
        final(canvas).wf(),
        final(canvas).spec_geometry() == old(canvas).spec_geometry(),
        final(canvas)@ == marked(field, old(canvas).spec_geometry(), old(canvas)@, dim),
        keeps_roots(old(canvas)@, final(canvas)@),
{
    let g = canvas.geometry();
    let n = canvas.len();
    let ghost before = canvas@;
    assert(canvas@ =~= marked_to(field, g, before, dim, 0));
    let mut i: usize = 0;
    while i < n
        invariant
            field.wf(),
            i <= n,
            n == before.len(),
            dim >= 2,
            canvas.wf(),
            canvas.spec_geometry() == g,
            canvas@ == marked_to(field, g, before, dim, i as int),
        decreases n - i,
    {
        let p = Pixel { index: i };
        if sign_change(field, &g, p, dim) {
            canvas.mark_root(p);
        }
        assert(canvas@ =~= marked_to(field, g, before, dim, i + 1));
        i += 1;
    }
}

/// The gated rescan: tests every pixel that is not marked yet at lattice
/// dimension `dim` and marks those in whose cell the field changes sign.
pub fn up_render<F: Field>(field: &F, canvas: &mut Canvas, dim: u32)
    requires
        field.wf(),
        old(canvas).wf(),
        dim >= 2,
    ensures
        final(canvas).wf(),
        final(canvas).spec_geometry() == old(canvas).spec_geometry(),
        final(canvas)@ == marked(field, old(canvas).spec_geometry(), old(canvas)@, dim),
        keeps_roots(old(canvas)@, final(canvas)@),
{
    let g = canvas.geometry();
    let n = canvas.len();
    let ghost before = canvas@;
    assert(canvas@ =~= marked_to(field, g, before, dim, 0));
    let mut i: usize = 0;
    while i < n
        invariant
            field.wf(),
            i <= n,
            n == before.len(),
            dim >= 2,
            canvas.wf(),
            canvas.spec_geometry() == g,
            canvas@ == marked_to(field, g, before, dim, i as int),
        decreases n - i,
    {
        let p = Pixel { index: i };
        if !canvas.is_root(p) && sign_change(field, &g, p, dim) {
            canvas.mark_root(p);
        }
        assert(canvas@ =~= marked_to(field, g, before, dim, i + 1));
        i += 1;
    }
}

/// A scan never unmarks a pixel: the marked pixels after it include those
/// before it, whatever the field.
pub proof fn lemma_marked_keeps_roots<F: Field>(field: &F, g: Geometry, pixels: Seq<u32>, dim: u32)
    ensures
        keeps_roots(pixels, marked(field, g, pixels, dim)),
{
}

/// A scan marks no pixel without a sign change in its cell.
pub proof fn lemma_marked_is_justified<F: Field>(field: &F, g: Geometry, pixels: Seq<u32>, dim: u32)
    ensures
        justified(field, g, pixels, marked(field, g, pixels, dim)),
{
    let after = marked(field, g, pixels, dim);
    assert forall|i: int|
        0 <= i < after.len() && #[trigger] after[i] == ROOT && pixels[i] != ROOT implies exists|
        dim: u32,
    | #[trigger] detects(field, g, Pixel { index: i as usize }, dim) by {
        assert(detects(field, g, Pixel { index: i as usize }, dim));
    }
}

/// Where the test finds no sign change in any cell, a scan leaves the
/// canvas as it is.
pub proof fn lemma_marked_without_change<F: Field>(field: &F, g: Geometry, pixels: Seq<u32>, dim: u32)
    requires
        forall|p: Pixel| !#[trigger] detects(field, g, p, dim),
    ensures
        marked(field, g, pixels, dim) == pixels,
{
    assert(marked(field, g, pixels, dim) =~= pixels);
}

/// What is justified in two steps is justified.
pub proof fn lemma_justified_chain<F: Field>(
    field: &F,
    g: Geometry,
    a: Seq<u32>,
    b: Seq<u32>,
    c: Seq<u32>,
)
    requires
        a.len() == b.len(),
        b.len() == c.len(),
        justified(field, g, a, b),
        justified(field, g, b, c),
    ensures
        justified(field, g, a, c),
{
    assert forall|i: int| 0 <= i < c.len() && #[trigger] c[i] == ROOT && a[i] != ROOT implies exists|
        dim: u32,
    | #[trigger] detects(field, g, Pixel { index: i as usize }, dim) by {
        if b[i] == ROOT {
        } else {
        }
    }
}

} // verus!
