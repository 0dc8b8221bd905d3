//! The sign-change test: does the field change sign on the lattice of sample
//! points inside one pixel's cell?
use vstd::prelude::*;
use crate::grid::{Geometry, Pixel, SamplePoint};

verus! {

/// What the test reads of one value of the field.
#[derive(Clone, Copy, PartialEq, Eq, Structural, Debug)]
pub enum Sample {
    /// Not a number, or infinite.
    NonFinite,
    /// Finite and greater than zero.
    Positive,
    /// Finite, and zero or less.
    NonPositive,
}

/// A scalar field on the plane, as far as the test needs it: the kind of
/// value it takes at a sample point. The same point always gives the same
/// kind.
pub trait Field {
    /// Whether the field can be evaluated.
    spec fn wf(&self) -> bool;

    /// The kind of value the field takes at `p`.
    spec fn kind_at(&self, p: SamplePoint) -> Sample;

    /// Evaluates the field at `p`.
    fn sample(&self, p: SamplePoint) -> (s: Sample)
        requires
            self.wf(),
            p.dim >= 2,
            p.i < p.dim,
            p.j < p.dim,
        ensures
            s == self.kind_at(p),
    ;
}

/// A field given by a function from sample points to kinds of value.
pub struct Sampled<G: Fn(SamplePoint) -> Sample> {
    pub f: G,
}

impl<G: Fn(SamplePoint) -> Sample> Field for Sampled<G> {
    /// The function can be called at every point of every lattice, and the
    /// same point always gives the same kind of value.
    open spec fn wf(&self) -> bool {
        &&& forall|p: SamplePoint|
            p.dim >= 2 && p.i < p.dim && p.j < p.dim ==> #[trigger] call_requires(self.f, (p,))
        &&& forall|p: SamplePoint, a: Sample, b: Sample|
            #[trigger] call_ensures(self.f, (p,), a) && #[trigger] call_ensures(self.f, (p,), b)
                ==> a == b
    }

    /// What a call of the function at `p` returns.
    open spec fn kind_at(&self, p: SamplePoint) -> Sample {
        choose|s: Sample| call_ensures(self.f, (p,), s)
    }

    fn sample(&self, p: SamplePoint) -> (s: Sample) {
        (self.f)(p)
    }
}

/// Every sample is finite.
pub open spec fn all_finite(samples: Seq<Sample>) -> bool {
    forall|k: int| 0 <= k < samples.len() ==> !(#[trigger] samples[k] is NonFinite)
}

/// Some sample is positive where the first is not, or the other way round.
pub open spec fn sign_differs(samples: Seq<Sample>) -> bool {
    exists|k: int|
        0 < k < samples.len() && (#[trigger] samples[k] is Positive) != (samples[0] is Positive)
}

/// The test's answer on a pixel's samples: a sign change is reported where
/// all samples are finite and not all on one side of zero. One sample that is
/// not finite makes the answer `false`.
pub open spec fn verdict(samples: Seq<Sample>) -> bool {
    all_finite(samples) && sign_differs(samples)
}

/// The kinds of value that `field` takes on the `dim` by `dim` lattice in the
/// cell of `p`.
pub open spec fn samples_of<F: Field>(field: &F, g: Geometry, p: Pixel, dim: u32) -> Seq<Sample> {
    g.lattice(p, dim).map_values(|s: SamplePoint| field.kind_at(s))
}

/// Whether the test finds a sign change of `field` in the cell of `p` at
/// lattice dimension `dim`.
pub open spec fn detects<F: Field>(field: &F, g: Geometry, p: Pixel, dim: u32) -> bool {
    verdict(samples_of(field, g, p, dim))
}

/// The test's answer on a pixel's samples. Once all are known to be finite,
/// it scans for the first sample on the other side of zero than the first
/// one, and stops there.
pub fn decide(samples: &Vec<Sample>) -> (r: bool)
    ensures
        r == verdict(samples@),
{
    let n = samples.len();
    let mut k: usize = 0;
    while k < n
        invariant
            k <= n,
            n == samples@.len(),
            forall|m: int| 0 <= m < k ==> !(#[trigger] samples@[m] is NonFinite),
        decreases n - k,
    {
        if matches!(samples[k], Sample::NonFinite) {
            return false;
        }
        k += 1;
    }
    if n == 0 {
        return false;
    }
    let first: bool = matches!(samples[0], Sample::Positive);
    let mut k: usize = 1;
    while k < n
        invariant
            1 <= k <= n,
            n == samples@.len(),
            all_finite(samples@),
            first == (samples@[0] is Positive),
            forall|m: int| 0 < m < k ==> (#[trigger] samples@[m] is Positive) == first,
        decreases n - k,
    {
        if matches!(samples[k], Sample::Positive) != first {
            return true;
        }
        k += 1;
    }
    false
}

/// Tests the cell of `p` for a sign change of `field` at lattice dimension
/// `dim`: evaluates the field on the lattice, gives up with `false` at the
/// first value that is not finite, and otherwise answers by [`decide`].
pub fn sign_change<F: Field>(field: &F, g: &Geometry, p: Pixel, dim: u32) -> (r: bool)
    requires
        field.wf(),
        g.contains(p),
        dim >= 2,
    ensures
        r == detects(field, *g, p, dim),
{
    let ghost want = samples_of(field, *g, p, dim);
    let mut samples: Vec<Sample> = Vec::new();
    let mut j: u32 = 0;
    while j < dim
        invariant
            j <= dim,
            dim >= 2,
            field.wf(),
            g.contains(p),
            want == samples_of(field, *g, p, dim),
            want.len() == dim * dim,
            samples@.len() == j * dim,
            samples@.len() <= want.len(),
            samples@ == want.subrange(0, samples@.len() as int),
            all_finite(samples@),
        decreases dim - j,
    {
        let mut i: u32 = 0;
        while i < dim
            invariant
                i <= dim,
                j < dim,
                dim >= 2,
                field.wf(),
                g.contains(p),
                want == samples_of(field, *g, p, dim),
                want.len() == dim * dim,
                samples@.len() == j * dim + i,
                samples@.len() <= want.len(),
                samples@ == want.subrange(0, samples@.len() as int),
                all_finite(samples@),
            decreases dim - i,
        {
            let point = g.lattice_point(p, dim, i, j);
            let s = field.sample(point);
            assert(s == want[j * dim + i]);
            if matches!(s, Sample::NonFinite) {
                return false;
            }
            samples.push(s);
            assert(samples@ =~= want.subrange(0, samples@.len() as int));
            i += 1;
        }
        assert(j * dim + dim == (j + 1) * dim) by (nonlinear_arith);
        j += 1;
    }
    assert(samples@ =~= want);
    decide(&samples)
}

/// One sample that is not finite decides the test: whatever the signs of the
/// others, no sign change is reported.
pub proof fn lemma_non_finite_is_no_change(samples: Seq<Sample>, k: int)
    requires
        0 <= k < samples.len(),
        samples[k] is NonFinite,
    ensures
        !verdict(samples),
{
}

/// One lattice point at which the field's value is not finite decides the
/// test of the whole cell, at that lattice dimension: no sign change is
/// reported.
pub proof fn lemma_non_finite_point_is_no_change<F: Field>(
    field: &F,
    g: Geometry,
    p: Pixel,
    dim: u32,
    k: int,
)
    requires
        0 <= k < dim * dim,
        field.kind_at(g.spec_lattice_point(p, dim, k)) is NonFinite,
    ensures
        !detects(field, g, p, dim),
{
    lemma_non_finite_is_no_change(samples_of(field, g, p, dim), k);
}

/// Samples that are all on one side of zero show no sign change.
pub proof fn lemma_one_sign_is_no_change(samples: Seq<Sample>)
    requires
        forall|k: int| 0 <= k < samples.len() ==> #[trigger] samples[k] == samples[0],
    ensures
        !verdict(samples),
{
}

/// A field that takes one kind of value everywhere shows no sign change, in
/// any cell and at any lattice dimension.
pub proof fn lemma_flat_field_is_no_change<F: Field>(field: &F, g: Geometry, kind: Sample)
    requires
        forall|s: SamplePoint| #[trigger] field.kind_at(s) == kind,
    ensures
        forall|p: Pixel, dim: u32| !#[trigger] detects(field, g, p, dim),
{
    assert forall|p: Pixel, dim: u32| !#[trigger] detects(field, g, p, dim) by {
        lemma_one_sign_is_no_change(samples_of(field, g, p, dim));
    }
}

} // verus!
