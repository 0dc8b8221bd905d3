//! The deepening pass: iterations of a sweep along the marked pixels and a
//! flood outward from what the sweep found, on lattices that grow with each
//! iteration. A memo holds for each pixel the largest lattice dimension it
//! has been tested at, so that no pixel is tested twice at one resolution.
use vstd::prelude::*;
use crate::canvas::{root_nearby, Canvas, ROOT};
use crate::engine::{justified, keeps_roots, lemma_justified_chain};
use crate::grid::{Geometry, Pixel};
use crate::oracle::{detects, sign_change, Field};

verus! {

/// What a deepening pass is run with.
#[derive(Clone, Copy, PartialEq, Eq, Structural, Debug)]
pub struct Params {
    /// The lattice dimension that the iterations count up from.
    pub base_lattice: u32,
    /// The number of rounds.
    pub rounds: u32,
    /// How many columns and rows a flood looks out from a found pixel.
    pub radius: u32,
}

impl Params {
    /// The number of iterations after which a round ends even if the last
    /// one found something: the largest for which the flood's lattice
    /// dimension is still a `u32`.
    pub open spec fn spec_limit(&self) -> u32 {
        ((u32::MAX - self.base_lattice) / 2) as u32
    }

    /// The lattice dimension of the sweep in iteration `it`.
    pub open spec fn scan_lattice(&self, it: u32) -> u32 {
        (self.base_lattice + it) as u32
    }

    /// The lattice dimension of the flood in iteration `it`.
    pub open spec fn deep_lattice(&self, it: u32) -> u32 {
        (self.base_lattice + 2 * it) as u32
    }

    /// The number of iterations after which a round ends in any case.
    #[verifier::when_used_as_spec(spec_limit)]
    pub fn limit(&self) -> (n: u32)
        ensures
            n == self.spec_limit(),
    {
        (u32::MAX - self.base_lattice) / 2
    }
}

/// What a round did.
#[derive(Clone, Copy, PartialEq, Eq, Structural, Debug)]
pub struct Tally {
    /// The number of pixels it marked.
    pub marked: usize,
    /// The number of iterations it ran.
    pub iterations: u32,
}

/// The state of a deepening pass as plain values.
pub struct Scan {
    /// The canvas's colours.
    pub pixels: Seq<u32>,
    /// For each pixel, the largest lattice dimension it was tested at.
    pub memo: Seq<u32>,
    /// The pixels marked so far in the current iteration, in the order in
    /// which they were found.
    pub found: Seq<Pixel>,
}

/// The number of pixels that are not marked.
pub open spec fn blanks(pixels: Seq<u32>) -> nat
    decreases pixels.len(),
{
    if pixels.len() == 0 {
        0
    } else {
        blanks(pixels.drop_last()) + if pixels.last() != ROOT {
            1nat
        } else {
            0nat
        }
    }
}

impl Scan {
    /// There is a colour and a memo entry for each pixel of the canvas, and
    /// what was found are pixels of the canvas.
    pub open spec fn wf(self, g: Geometry) -> bool {
        &&& g.wf()
        &&& self.pixels.len() == g.area()
        &&& self.memo.len() == g.area()
        &&& forall|i: int| 0 <= i < self.found.len() ==> g.contains(#[trigger] self.found[i])
    }

    /// Whether `p` is to be tested at lattice dimension `dim`: it is not
    /// marked, and was not tested at this dimension or a larger one.
    pub open spec fn due(self, p: Pixel, dim: u32) -> bool {
        self.pixels[p.index as int] != ROOT && self.memo[p.index as int] < dim
    }

    /// The state after `p` has been looked at for lattice dimension `dim`:
    /// where the pixel is due, its memo entry becomes `dim`, and it is marked
    /// and added to what was found if the test finds a sign change.
    pub open spec fn probe<F: Field>(self, field: &F, g: Geometry, p: Pixel, dim: u32) -> Scan {
        if !self.due(p, dim) {
            self
        } else if detects(field, g, p, dim) {
            Scan {
                pixels: self.pixels.update(p.index as int, ROOT),
                memo: self.memo.update(p.index as int, dim),
                found: self.found.push(p),
            }
        } else {
            Scan { memo: self.memo.update(p.index as int, dim), ..self }
        }
    }

    /// `later` has come of `self` by marking pixels and raising memo
    /// entries: marked pixels stay marked, a colour changes only by being
    /// marked, and no memo entry decreases.
    pub open spec fn grows_to(self, later: Scan) -> bool {
        &&& keeps_roots(self.pixels, later.pixels)
        &&& forall|i: int|
            0 <= i < self.pixels.len() && #[trigger] later.pixels[i] != ROOT ==> later.pixels[i]
                == self.pixels[i]
        &&& self.memo.len() == later.memo.len()
        &&& forall|i: int| 0 <= i < self.memo.len() ==> self.memo[i] <= #[trigger] later.memo[i]
    }

    /// `later` has come of `self` within one iteration: as in `grows_to`, and
    /// each pixel found since is one unmarked pixel less.
    pub open spec fn leads_to(self, later: Scan) -> bool {
        &&& self.grows_to(later)
        &&& blanks(later.pixels) + later.found.len() == blanks(self.pixels) + self.found.len()
    }

    /// The side of the square of pixels that a flood looks at around a
    /// pixel, for a given radius.
    pub open spec fn side(radius: u32) -> int {
        2 * radius + 1
    }

    /// The state after a sweep at lattice dimension `dim` has passed the
    /// first `count` pixels: each pixel that is due and has a marked pixel
    /// next to it, as the canvas stands when the sweep reaches it, has been
    /// looked at.
    pub open spec fn sweep<F: Field>(self, field: &F, g: Geometry, dim: u32, count: nat) -> Scan
        decreases count,
    {
        if count == 0 {
            self
        } else {
            let t = self.sweep(field, g, dim, (count - 1) as nat);
            let p = Pixel { index: (count - 1) as usize };
            if t.due(p, dim) && root_nearby(g, t.pixels, p) {
                t.probe(field, g, p, dim)
            } else {
                t
            }
        }
    }

    /// The state after the first `count` places of the square around `q`
    /// have been visited, row after row: each place that is a pixel of the
    /// canvas other than `q` has been looked at for lattice dimension `dim`.
    pub open spec fn around<F: Field>(
        self,
        field: &F,
        g: Geometry,
        q: Pixel,
        radius: u32,
        dim: u32,
        count: nat,
    ) -> Scan
        decreases count,
    {
        if count == 0 {
            self
        } else {
            let t = self.around(field, g, q, radius, dim, (count - 1) as nat);
            let k = count - 1;
            match g.spec_neighbor(q, k % Self::side(radius) - radius, k / Self::side(radius) - radius) {
                Some(n) => t.probe(field, g, n, dim),
                None => t,
            }
        }
    }

    /// The state once the flood has worked through what was found, from
    /// place `done` on: the square around each found pixel is visited in
    /// turn, and what that finds joins the end of the queue.
    pub open spec fn flood<F: Field>(
        self,
        field: &F,
        g: Geometry,
        radius: u32,
        dim: u32,
        done: nat,
    ) -> Scan
        decreases blanks(self.pixels) + self.found.len() - done,
        when self.wf(g)
    {
        if done >= self.found.len() {
            self
        } else {
            let q = self.found[done as int];
            let count = (Self::side(radius) * Self::side(radius)) as nat;
            proof {
                lemma_around(self, field, g, q, radius, dim, count);
            }
            self.around(field, g, q, radius, dim, count).flood(field, g, radius, dim, done + 1)
        }
    }

    /// The state after iteration `it`: nothing is found yet when it starts,
    /// the sweep passes every pixel at the iteration's scan lattice, and the
    /// flood works through what the sweep and the flood itself find, at the
    /// iteration's deep lattice.
    pub open spec fn iteration<F: Field>(self, field: &F, g: Geometry, params: Params, it: u32) -> Scan {
        (Scan { found: Seq::empty(), ..self }).sweep(
            field,
            g,
            params.scan_lattice(it),
            g.area() as nat,
        ).flood(field, g, params.radius, params.deep_lattice(it), 0)
    }

    /// The state at the end of a round of which `it` iterations are over:
    /// iterations follow one another, each with the next number, until one
    /// finds nothing or the limit is reached.
    pub open spec fn round<F: Field>(self, field: &F, g: Geometry, params: Params, it: u32) -> Scan
        decreases params.spec_limit() - it,
    {
        if it >= params.spec_limit() {
            self
        } else {
            let t = self.iteration(field, g, params, (it + 1) as u32);
            if t.found.len() > 0 {
                t.round(field, g, params, (it + 1) as u32)
            } else {
                t
            }
        }
    }

    /// The number of iterations that a round still runs when `it` of them
    /// are over.
    pub open spec fn round_length<F: Field>(
        self,
        field: &F,
        g: Geometry,
        params: Params,
        it: u32,
    ) -> nat
        decreases params.spec_limit() - it,
    {
        if it >= params.spec_limit() {
            0
        } else {
            let t = self.iteration(field, g, params, (it + 1) as u32);
            if t.found.len() > 0 {
                1 + t.round_length(field, g, params, (it + 1) as u32)
            } else {
                1
            }
        }
    }

    /// The state after `count` rounds, each of which starts with its
    /// iterations at zero and with the memo as the round before left it.
    pub open spec fn rounds<F: Field>(self, field: &F, g: Geometry, params: Params, count: nat) -> Scan
        decreases count,
    {
        if count == 0 {
            self
        } else {
            self.rounds(field, g, params, (count - 1) as nat).round(field, g, params, 0)
        }
    }

    /// The state in which a deepening pass starts on `pixels`: nothing has
    /// been tested and nothing found.
    pub open spec fn start(pixels: Seq<u32>) -> Scan {
        Scan { pixels, memo: Seq::new(pixels.len(), |i: int| 0u32), found: Seq::empty() }
    }
}

/// The state that a canvas, a memo and a queue of found pixels make up.
pub open spec fn state(canvas: Canvas, memo: Vec<u32>, found: Vec<Pixel>) -> Scan {
    Scan { pixels: canvas@, memo: memo@, found: found@ }
}

/// Marking an unmarked pixel leaves one unmarked pixel less.
pub proof fn lemma_blanks_update(pixels: Seq<u32>, i: int)
    requires
        0 <= i < pixels.len(),
        pixels[i] != ROOT,
    ensures
        blanks(pixels.update(i, ROOT)) + 1 == blanks(pixels),
    decreases pixels.len(),
{
    let after = pixels.update(i, ROOT);
    if i == pixels.len() - 1 {
        assert(after.drop_last() =~= pixels.drop_last());
    } else {
        assert(after.drop_last() =~= pixels.drop_last().update(i, ROOT));
        lemma_blanks_update(pixels.drop_last(), i);
    }
}

/// There are no more unmarked pixels than pixels.
pub proof fn lemma_blanks_bound(pixels: Seq<u32>)
    ensures
        blanks(pixels) <= pixels.len(),
    decreases pixels.len(),
{
    if pixels.len() > 0 {
        lemma_blanks_bound(pixels.drop_last());
    }
}

/// What has come of what has come of a state has come of that state.
pub proof fn lemma_leads_to_chain(a: Scan, b: Scan, c: Scan)
    requires
        a.leads_to(b),
        b.leads_to(c),
    ensures
        a.leads_to(c),
{
    lemma_grows_to_chain(a, b, c);
}

/// Looking at one pixel leads to a state that a pass can reach.
pub proof fn lemma_probe<F: Field>(s: Scan, field: &F, g: Geometry, p: Pixel, dim: u32)
    requires
        s.wf(g),
        g.contains(p),
    ensures
        s.probe(field, g, p, dim).wf(g),
        s.leads_to(s.probe(field, g, p, dim)),
        justified(field, g, s.pixels, s.probe(field, g, p, dim).pixels),
{
    if s.due(p, dim) && detects(field, g, p, dim) {
        lemma_blanks_update(s.pixels, p.index as int);
        assert(Pixel { index: p.index as int as usize } == p);
    }
}

/// A sweep keeps the state well formed, and what it finds it marks.
pub proof fn lemma_sweep<F: Field>(s: Scan, field: &F, g: Geometry, dim: u32, count: nat)
    requires
        s.wf(g),
        count <= g.area(),
    ensures
        s.sweep(field, g, dim, count).wf(g),
        s.leads_to(s.sweep(field, g, dim, count)),
        justified(field, g, s.pixels, s.sweep(field, g, dim, count).pixels),
    decreases count,
{
    if count > 0 {
        let t = s.sweep(field, g, dim, (count - 1) as nat);
        let p = Pixel { index: (count - 1) as usize };
        lemma_sweep(s, field, g, dim, (count - 1) as nat);
        lemma_probe(t, field, g, p, dim);
        lemma_leads_to_chain(s, t, t.probe(field, g, p, dim));
        lemma_justified_chain(field, g, s.pixels, t.pixels, t.probe(field, g, p, dim).pixels);
    }
}

/// A visit to the square around a pixel keeps the state well formed, and
/// what it finds it marks.
pub proof fn lemma_around<F: Field>(
    s: Scan,
    field: &F,
    g: Geometry,
    q: Pixel,
    radius: u32,
    dim: u32,
    count: nat,
)
    requires
        s.wf(g),
        g.contains(q),
    ensures
        s.around(field, g, q, radius, dim, count).wf(g),
        s.leads_to(s.around(field, g, q, radius, dim, count)),
        justified(field, g, s.pixels, s.around(field, g, q, radius, dim, count).pixels),
    decreases count,
{
    if count > 0 {
        let t = s.around(field, g, q, radius, dim, (count - 1) as nat);
        let k = count - 1;
        lemma_around(s, field, g, q, radius, dim, (count - 1) as nat);
        let dx = k % Scan::side(radius) - radius;
        let dy = k / Scan::side(radius) - radius;
        match g.spec_neighbor(q, dx, dy) {
            Some(n) => {
                g.lemma_position(q);
                g.lemma_index(g.x_of(q) + dx, g.y_of(q) + dy);
                lemma_probe(t, field, g, n, dim);
                lemma_leads_to_chain(s, t, t.probe(field, g, n, dim));
                lemma_justified_chain(
                    field,
                    g,
                    s.pixels,
                    t.pixels,
                    t.probe(field, g, n, dim).pixels,
                );
            },
            None => {},
        }
    }
}

/// A flood keeps the state well formed, and what it finds it marks.
pub proof fn lemma_flood<F: Field>(
    s: Scan,
    field: &F,
    g: Geometry,
    radius: u32,
    dim: u32,
    done: nat,
)
    requires
        s.wf(g),
    ensures
        s.flood(field, g, radius, dim, done).wf(g),
        s.leads_to(s.flood(field, g, radius, dim, done)),
        justified(field, g, s.pixels, s.flood(field, g, radius, dim, done).pixels),
    decreases blanks(s.pixels) + s.found.len() - done,
{
    if done < s.found.len() {
        let q = s.found[done as int];
        let count = (Scan::side(radius) * Scan::side(radius)) as nat;
        let t = s.around(field, g, q, radius, dim, count);
        lemma_around(s, field, g, q, radius, dim, count);
        lemma_flood(t, field, g, radius, dim, done + 1);
        lemma_leads_to_chain(s, t, t.flood(field, g, radius, dim, done + 1));
        lemma_justified_chain(
            field,
            g,
            s.pixels,
            t.pixels,
            t.flood(field, g, radius, dim, done + 1).pixels,
        );
    }
}

/// An iteration keeps the state well formed and only marks pixels and raises
/// memo entries; what it found is what it marked.
pub proof fn lemma_iteration<F: Field>(s: Scan, field: &F, g: Geometry, params: Params, it: u32)
    requires
        s.wf(g),
    ensures
        s.iteration(field, g, params, it).wf(g),
        s.grows_to(s.iteration(field, g, params, it)),
        blanks(s.iteration(field, g, params, it).pixels) + s.iteration(
            field,
            g,
            params,
            it,
        ).found.len() == blanks(s.pixels),
        justified(field, g, s.pixels, s.iteration(field, g, params, it).pixels),
{
    let fresh = Scan { found: Seq::empty(), ..s };
    let swept = fresh.sweep(field, g, params.scan_lattice(it), g.area() as nat);
    let flooded = swept.flood(field, g, params.radius, params.deep_lattice(it), 0);
    lemma_sweep(fresh, field, g, params.scan_lattice(it), g.area() as nat);
    lemma_flood(swept, field, g, params.radius, params.deep_lattice(it), 0);
    lemma_leads_to_chain(fresh, swept, flooded);
    lemma_justified_chain(field, g, s.pixels, swept.pixels, flooded.pixels);
}

/// What has grown out of what has grown out of a state has grown out of that
/// state.
pub proof fn lemma_grows_to_chain(a: Scan, b: Scan, c: Scan)
    requires
        a.grows_to(b),
        b.grows_to(c),
    ensures
        a.grows_to(c),
{
    assert forall|i: int| 0 <= i < a.pixels.len() && #[trigger] c.pixels[i] != ROOT implies c.pixels[i]
        == a.pixels[i] by {
        assert(b.pixels[i] != ROOT);
    }
    assert forall|i: int| 0 <= i < a.memo.len() implies a.memo[i] <= #[trigger] c.memo[i] by {
        assert(a.memo[i] <= b.memo[i]);
    }
}

/// A round keeps the state well formed and only marks pixels and raises memo
/// entries.
pub proof fn lemma_round<F: Field>(s: Scan, field: &F, g: Geometry, params: Params, it: u32)
    requires
        s.wf(g),
    ensures
        s.round(field, g, params, it).wf(g),
        s.grows_to(s.round(field, g, params, it)),
        justified(field, g, s.pixels, s.round(field, g, params, it).pixels),
    decreases params.spec_limit() - it,
{
    if it < params.spec_limit() {
        let t = s.iteration(field, g, params, (it + 1) as u32);
        lemma_iteration(s, field, g, params, (it + 1) as u32);
        if t.found.len() > 0 {
            let u = t.round(field, g, params, (it + 1) as u32);
            lemma_round(t, field, g, params, (it + 1) as u32);
            lemma_grows_to_chain(s, t, u);
            lemma_justified_chain(field, g, s.pixels, t.pixels, u.pixels);
        }
    }
}

/// Any number of rounds keeps the state well formed and only marks pixels
/// and raises memo entries.
pub proof fn lemma_rounds<F: Field>(s: Scan, field: &F, g: Geometry, params: Params, count: nat)
    requires
        s.wf(g),
    ensures
        s.rounds(field, g, params, count).wf(g),
        s.grows_to(s.rounds(field, g, params, count)),
        justified(field, g, s.pixels, s.rounds(field, g, params, count).pixels),
    decreases count,
{
    if count > 0 {
        let t = s.rounds(field, g, params, (count - 1) as nat);
        let u = t.round(field, g, params, 0);
        lemma_rounds(s, field, g, params, (count - 1) as nat);
        lemma_round(t, field, g, params, 0);
        lemma_grows_to_chain(s, t, u);
        lemma_justified_chain(field, g, s.pixels, t.pixels, u.pixels);
    }
}

/// A round is short: every iteration but the last marks a pixel, so there
/// is at most one iteration more than there are unmarked pixels, whatever the
/// field; and the iterations' numbers stay below the limit.
pub proof fn lemma_round_is_short<F: Field>(s: Scan, field: &F, g: Geometry, params: Params, it: u32)
    requires
        s.wf(g),
    ensures
        s.round_length(field, g, params, it) <= blanks(s.pixels) + 1,
        it <= params.spec_limit() ==> s.round_length(field, g, params, it) <= params.spec_limit()
            - it,
    decreases params.spec_limit() - it,
{
    if it < params.spec_limit() {
        let t = s.iteration(field, g, params, (it + 1) as u32);
        lemma_iteration(s, field, g, params, (it + 1) as u32);
        if t.found.len() > 0 {
            lemma_round_is_short(t, field, g, params, (it + 1) as u32);
        }
    }
}

/// The deepening pass never unmarks a pixel and never lowers a memo entry:
/// after any number of rounds the marked pixels include those it started
/// with, and every memo entry is at least what it was.
pub proof fn lemma_deepening_only_adds<F: Field>(
    s: Scan,
    field: &F,
    g: Geometry,
    params: Params,
    count: nat,
)
    requires
        s.wf(g),
    ensures
        keeps_roots(s.pixels, s.rounds(field, g, params, count).pixels),
        s.rounds(field, g, params, count).memo.len() == s.memo.len(),
        forall|i: int|
            0 <= i < s.memo.len() ==> s.memo[i] <= #[trigger] s.rounds(
                field,
                g,
                params,
                count,
            ).memo[i],
{
    lemma_rounds(s, field, g, params, count);
}

/// The deepening pass marks no pixel without a sign change in its cell: each
/// pixel that it marks is one in which the test finds a sign change at some
/// lattice dimension.
pub proof fn lemma_deepening_is_justified<F: Field>(
    s: Scan,
    field: &F,
    g: Geometry,
    params: Params,
    count: nat,
)
    requires
        s.wf(g),
    ensures
        justified(field, g, s.pixels, s.rounds(field, g, params, count).pixels),
{
    lemma_rounds(s, field, g, params, count);
}

/// Where the test finds no sign change in any cell at any lattice dimension,
/// as with a field that is positive everywhere, the deepening pass leaves the
/// canvas as it is.
pub proof fn lemma_deepening_without_change<F: Field>(
    s: Scan,
    field: &F,
    g: Geometry,
    params: Params,
    count: nat,
)
    requires
        s.wf(g),
        forall|p: Pixel, dim: u32| !#[trigger] detects(field, g, p, dim),
    ensures
        s.rounds(field, g, params, count).pixels == s.pixels,
{
    lemma_rounds(s, field, g, params, count);
    let after = s.rounds(field, g, params, count).pixels;
    assert forall|i: int| 0 <= i < after.len() implies after[i] == s.pixels[i] by {
        if after[i] == ROOT && s.pixels[i] != ROOT {
            let dim = choose|dim: u32| #[trigger] detects(field, g, Pixel { index: i as usize }, dim);
            assert(detects(field, g, Pixel { index: i as usize }, dim));
        }
    }
    assert(after =~= s.pixels);
}

/// Looks at `p` for lattice dimension `dim`. A pixel that is marked, or was
/// tested at `dim` or a larger dimension before, is passed over. Any other is
/// tested: its memo entry becomes `dim`, and where the field changes sign in
/// its cell the pixel is marked and appended to `found`.
pub fn probe<F: Field>(
    field: &F,
    canvas: &mut Canvas,
    memo: &mut Vec<u32>,
    found: &mut Vec<Pixel>,
    p: Pixel,
    dim: u32,
)
    requires
        field.wf(),
        state(*old(canvas), *old(memo), *old(found)).wf(old(canvas).spec_geometry()),
        old(canvas).spec_geometry().contains(p),
        dim >= 2,
    ensures
        final(canvas).spec_geometry() == old(canvas).spec_geometry(),
        state(*final(canvas), *final(memo), *final(found)) == state(
            *old(canvas),
            *old(memo),
            *old(found),
        ).probe(field, old(canvas).spec_geometry(), p, dim),
        state(*final(canvas), *final(memo), *final(found)).wf(old(canvas).spec_geometry()),
        state(*old(canvas), *old(memo), *old(found)).leads_to(
            state(*final(canvas), *final(memo), *final(found)),
        ),
{
    proof {
        lemma_probe(state(*canvas, *memo, *found), field, canvas.spec_geometry(), p, dim);
    }
    let g = canvas.geometry();
    if !canvas.is_root(p) && memo[p.index] < dim {
        memo[p.index] = dim;
        if sign_change(field, &g, p, dim) {
            canvas.mark_root(p);
            found.push(p);
        }
    }
}

/// The broad sweep of one iteration: looks at every pixel that is due at
/// lattice dimension `dim` and has a marked pixel among the eight around it,
/// in the order of the buffer. A pixel marked earlier in the sweep counts for
/// the pixels after it.
pub fn sweep<F: Field>(
    field: &F,
    canvas: &mut Canvas,
    memo: &mut Vec<u32>,
    found: &mut Vec<Pixel>,
    dim: u32,
)
    requires
        field.wf(),
        state(*old(canvas), *old(memo), *old(found)).wf(old(canvas).spec_geometry()),
        dim >= 2,
    ensures
        final(canvas).spec_geometry() == old(canvas).spec_geometry(),
        state(*final(canvas), *final(memo), *final(found)) == state(
            *old(canvas),
            *old(memo),
            *old(found),
        ).sweep(field, old(canvas).spec_geometry(), dim, old(canvas)@.len()),
        state(*final(canvas), *final(memo), *final(found)).wf(old(canvas).spec_geometry()),
        state(*old(canvas), *old(memo), *old(found)).leads_to(
            state(*final(canvas), *final(memo), *final(found)),
        ),
{
    let g = canvas.geometry();
    let n = canvas.len();
    let ghost start = state(*canvas, *memo, *found);
    let mut i: usize = 0;
    while i < n
        invariant
            field.wf(),
            i <= n,
            n == g.area(),
            dim >= 2,
            canvas.spec_geometry() == g,
            start.wf(g),
            state(*canvas, *memo, *found).wf(g),
            state(*canvas, *memo, *found) == start.sweep(field, g, dim, i as nat),
        decreases n - i,
    {
        let p = Pixel { index: i };
        if !canvas.is_root(p) && memo[i] < dim && canvas.has_root_neighbor(p) {
            probe(field, canvas, memo, found, p, dim);
        }
        i += 1;
    }
    proof {
        lemma_sweep(start, field, g, dim, n as nat);
    }
}

/// Visits the square of pixels around `q`, up to `radius` columns and rows
/// away, row after row, and looks at each of them but `q` itself for lattice
/// dimension `dim`. Places beyond the canvas's edge are passed over.
pub fn around<F: Field>(
    field: &F,
    canvas: &mut Canvas,
    memo: &mut Vec<u32>,
    found: &mut Vec<Pixel>,
    q: Pixel,
    radius: u32,
    dim: u32,
)
    requires
        field.wf(),
        state(*old(canvas), *old(memo), *old(found)).wf(old(canvas).spec_geometry()),
        old(canvas).spec_geometry().contains(q),
        dim >= 2,
    ensures
        final(canvas).spec_geometry() == old(canvas).spec_geometry(),
        state(*final(canvas), *final(memo), *final(found)) == state(
            *old(canvas),
            *old(memo),
            *old(found),
        ).around(
            field,
            old(canvas).spec_geometry(),
            q,
            radius,
            dim,
            (Scan::side(radius) * Scan::side(radius)) as nat,
        ),
        state(*final(canvas), *final(memo), *final(found)).wf(old(canvas).spec_geometry()),
        state(*old(canvas), *old(memo), *old(found)).leads_to(
            state(*final(canvas), *final(memo), *final(found)),
        ),
{
    let g = canvas.geometry();
    let r: i64 = radius as i64;
    let ghost start = state(*canvas, *memo, *found);
    let ghost side = Scan::side(radius);
    let mut dy: i64 = -r;
    assert((dy + r) * side == 0) by (nonlinear_arith)
        requires
            dy + r == 0,
    ;
    while dy <= r
        invariant
            field.wf(),
            -r <= dy <= r + 1,
            r == radius,
            side == 2 * r + 1,
            dim >= 2,
            canvas.spec_geometry() == g,
            g.contains(q),
            start.wf(g),
            state(*canvas, *memo, *found).wf(g),
            state(*canvas, *memo, *found) == start.around(
                field,
                g,
                q,
                radius,
                dim,
                ((dy + r) * side) as nat,
            ),
        decreases r + 1 - dy,
    {
        let mut dx: i64 = -r;
        assert((dy + r) * side >= 0) by (nonlinear_arith)
            requires
                dy + r >= 0,
                side >= 0,
        ;
        while dx <= r
            invariant
                field.wf(),
                -r <= dx <= r + 1,
                -r <= dy <= r,
                r == radius,
                side == 2 * r + 1,
                dim >= 2,
                canvas.spec_geometry() == g,
                g.contains(q),
                start.wf(g),
                (dy + r) * side >= 0,
                state(*canvas, *memo, *found).wf(g),
                state(*canvas, *memo, *found) == start.around(
                    field,
                    g,
                    q,
                    radius,
                    dim,
                    ((dy + r) * side + (dx + r)) as nat,
                ),
            decreases r + 1 - dx,
        {
            let ghost k = (dy + r) * side + (dx + r);
            proof {
                assert((dy + r) * side == side * (dy + r)) by (nonlinear_arith);
                vstd::arithmetic::div_mod::lemma_fundamental_div_mod_converse(
                    k,
                    side,
                    dy + r,
                    dx + r,
                );
            }
            match g.neighbor(q, dx, dy) {
                Some(n) => {
                    probe(field, canvas, memo, found, n, dim);
                },
                None => {},
            }
            dx += 1;
        }
        assert((dy + r) * side + (r + 1 + r) == (dy + 1 + r) * side) by (nonlinear_arith)
            requires
                side == 2 * r + 1,
        ;
        dy += 1;
    }
    proof {
        assert((r + 1 + r) * side == side * side);
        lemma_around(start, field, g, q, radius, dim, (side * side) as nat);
    }
}

/// The flood of one iteration: for each pixel in `found`, from the first to
/// the last, visits the square around it at lattice dimension `dim`. What a
/// visit finds is appended to `found` and gets its own visit in turn, so that
/// the flood ends when a whole wave has found nothing.
pub fn flood<F: Field>(
    field: &F,
    canvas: &mut Canvas,
    memo: &mut Vec<u32>,
    found: &mut Vec<Pixel>,
    radius: u32,
    dim: u32,
)
    requires
        field.wf(),
        state(*old(canvas), *old(memo), *old(found)).wf(old(canvas).spec_geometry()),
        dim >= 2,
    ensures
        final(canvas).spec_geometry() == old(canvas).spec_geometry(),
        state(*final(canvas), *final(memo), *final(found)) == state(
            *old(canvas),
            *old(memo),
            *old(found),
        ).flood(field, old(canvas).spec_geometry(), radius, dim, 0),
        state(*final(canvas), *final(memo), *final(found)).wf(old(canvas).spec_geometry()),
        state(*old(canvas), *old(memo), *old(found)).leads_to(
            state(*final(canvas), *final(memo), *final(found)),
        ),
{
    let g = canvas.geometry();
    let ghost start = state(*canvas, *memo, *found);
    let mut done: usize = 0;
    while done < found.len()
        invariant
            field.wf(),
            dim >= 2,
            canvas.spec_geometry() == g,
            start.wf(g),
            state(*canvas, *memo, *found).wf(g),
            state(*canvas, *memo, *found).flood(field, g, radius, dim, done as nat) == start.flood(
                field,
                g,
                radius,
                dim,
                0,
            ),
        decreases blanks(canvas@) + found@.len() - done,
    {
        let q = found[done];
        around(field, canvas, memo, found, q, radius, dim);
        done += 1;
    }
    proof {
        lemma_flood(start, field, g, radius, dim, 0);
    }
}

/// One iteration of a round, with the number `it` from 1 up: empties
/// `found`, sweeps at lattice dimension `base_lattice + it`, and floods from
/// what was found at `base_lattice + 2 * it`. `found` then holds what the
/// iteration marked.
pub fn iterate<F: Field>(
    field: &F,
    canvas: &mut Canvas,
    memo: &mut Vec<u32>,
    found: &mut Vec<Pixel>,
    params: &Params,
    it: u32,
)
    requires
        field.wf(),
        state(*old(canvas), *old(memo), *old(found)).wf(old(canvas).spec_geometry()),
        params.base_lattice >= 1,
        1 <= it <= params.spec_limit(),
    ensures
        final(canvas).spec_geometry() == old(canvas).spec_geometry(),
        state(*final(canvas), *final(memo), *final(found)) == state(
            *old(canvas),
            *old(memo),
            *old(found),
        ).iteration(field, old(canvas).spec_geometry(), *params, it),
        state(*final(canvas), *final(memo), *final(found)).wf(old(canvas).spec_geometry()),
        state(*old(canvas), *old(memo), *old(found)).grows_to(
            state(*final(canvas), *final(memo), *final(found)),
        ),
        blanks(final(canvas)@) + final(found)@.len() == blanks(old(canvas)@),
{
    proof {
        lemma_iteration(
            state(*canvas, *memo, *found),
            field,
            canvas.spec_geometry(),
            *params,
            it,
        );
    }
    found.clear();
    sweep(field, canvas, memo, found, params.base_lattice + it);
    flood(field, canvas, memo, found, params.radius, params.base_lattice + 2 * it);
}

/// One round: iterations numbered from 1, until one marks nothing or the
/// numbers run out. Returns how many pixels the round marked and how many
/// iterations it ran.
pub fn round<F: Field>(
    field: &F,
    canvas: &mut Canvas,
    memo: &mut Vec<u32>,
    found: &mut Vec<Pixel>,
    params: &Params,
) -> (tally: Tally)
    requires
        field.wf(),
        state(*old(canvas), *old(memo), *old(found)).wf(old(canvas).spec_geometry()),
        params.base_lattice >= 1,
    ensures
        final(canvas).spec_geometry() == old(canvas).spec_geometry(),
        state(*final(canvas), *final(memo), *final(found)) == state(
            *old(canvas),
            *old(memo),
            *old(found),
        ).round(field, old(canvas).spec_geometry(), *params, 0),
        state(*final(canvas), *final(memo), *final(found)).wf(old(canvas).spec_geometry()),
        state(*old(canvas), *old(memo), *old(found)).grows_to(
            state(*final(canvas), *final(memo), *final(found)),
        ),
        tally.marked == blanks(old(canvas)@) - blanks(final(canvas)@),
        tally.iterations == state(*old(canvas), *old(memo), *old(found)).round_length(
            field,
            old(canvas).spec_geometry(),
            *params,
            0,
        ),
{
    let g = canvas.geometry();
    let limit = params.limit();
    let ghost start = state(*canvas, *memo, *found);
    let mut marked: usize = 0;
    let mut it: u32 = 0;
    let mut more: bool = true;
    proof {
        lemma_blanks_bound(canvas@);
    }
    while more && it < limit
        invariant
            field.wf(),
            it <= limit,
            limit == params.spec_limit(),
            params.base_lattice >= 1,
            canvas.spec_geometry() == g,
            start.wf(g),
            state(*canvas, *memo, *found).wf(g),
            start.grows_to(state(*canvas, *memo, *found)),
            marked + blanks(canvas@) == blanks(start.pixels),
            blanks(start.pixels) <= usize::MAX,
            more ==> state(*canvas, *memo, *found).round(field, g, *params, it) == start.round(
                field,
                g,
                *params,
                0,
            ),
            more ==> it + state(*canvas, *memo, *found).round_length(field, g, *params, it)
                == start.round_length(field, g, *params, 0),
            !more ==> state(*canvas, *memo, *found) == start.round(field, g, *params, 0),
            !more ==> it == start.round_length(field, g, *params, 0),
        decreases limit - it, more as int,
    {
        let ghost before = state(*canvas, *memo, *found);
        it += 1;
        iterate(field, canvas, memo, found, params, it);
        proof {
            lemma_grows_to_chain(start, before, state(*canvas, *memo, *found));
        }
        marked += found.len();
        more = found.len() > 0;
    }
    Tally { marked, iterations: it }
}

/// The deepening pass on a memo of the caller's: `params.rounds` rounds, one
/// after another. The memo carries over from round to round, so that a later
/// round tests no pixel again at a resolution it was tested at before; no
/// entry of it ever decreases. Returns the number of pixels marked.
pub fn clarify_with<F: Field>(
    field: &F,
    canvas: &mut Canvas,
    memo: &mut Vec<u32>,
    params: &Params,
) -> (marked: usize)
    requires
        field.wf(),
        old(canvas).wf(),
        old(memo)@.len() == old(canvas)@.len(),
        params.base_lattice >= 1,
    ensures
        final(canvas).wf(),
        final(canvas).spec_geometry() == old(canvas).spec_geometry(),
        final(canvas)@ == (Scan {
            pixels: old(canvas)@,
            memo: old(memo)@,
            found: Seq::empty(),
        }).rounds(field, old(canvas).spec_geometry(), *params, params.rounds as nat).pixels,
        final(memo)@ == (Scan {
            pixels: old(canvas)@,
            memo: old(memo)@,
            found: Seq::empty(),
        }).rounds(field, old(canvas).spec_geometry(), *params, params.rounds as nat).memo,
        keeps_roots(old(canvas)@, final(canvas)@),
        final(memo)@.len() == old(memo)@.len(),
        forall|i: int| 0 <= i < old(memo)@.len() ==> old(memo)@[i] <= #[trigger] final(memo)@[i],
        marked == blanks(old(canvas)@) - blanks(final(canvas)@),
{
    let g = canvas.geometry();
    let mut found: Vec<Pixel> = Vec::new();
    let ghost start = state(*canvas, *memo, found);
    let mut marked: usize = 0;
    let mut n: u32 = 0;
    proof {
        lemma_blanks_bound(canvas@);
    }
    while n < params.rounds
        invariant
            field.wf(),
            n <= params.rounds,
            params.base_lattice >= 1,
            canvas.spec_geometry() == g,
            start.wf(g),
            state(*canvas, *memo, found).wf(g),
            start.grows_to(state(*canvas, *memo, found)),
            marked + blanks(canvas@) == blanks(start.pixels),
            blanks(start.pixels) <= usize::MAX,
            state(*canvas, *memo, found) == start.rounds(field, g, *params, n as nat),
        decreases params.rounds - n,
    {
        let ghost before = state(*canvas, *memo, found);
        let tally = round(field, canvas, memo, &mut found, params);
        proof {
            lemma_grows_to_chain(start, before, state(*canvas, *memo, found));
        }
        marked += tally.marked;
        n += 1;
    }
    marked
}

/// The deepening pass: starts a memo in which no pixel has been tested, and
/// runs `params.rounds` rounds on it. Returns the number of pixels marked.
pub fn clarify<F: Field>(field: &F, canvas: &mut Canvas, params: &Params) -> (marked: usize)
    requires
        field.wf(),
        old(canvas).wf(),
        params.base_lattice >= 1,
    ensures
        final(canvas).wf(),
        final(canvas).spec_geometry() == old(canvas).spec_geometry(),
        final(canvas)@ == Scan::start(old(canvas)@).rounds(
            field,
            old(canvas).spec_geometry(),
            *params,
            params.rounds as nat,
        ).pixels,
        keeps_roots(old(canvas)@, final(canvas)@),
        marked == blanks(old(canvas)@) - blanks(final(canvas)@),
{
    let n = canvas.len();
    let mut memo: Vec<u32> = Vec::new();
    let mut i: usize = 0;
    while i < n
        invariant
            i <= n,
            memo@.len() == i,
            forall|k: int| 0 <= k < i ==> memo@[k] == 0,
        decreases n - i,
    {
        memo.push(0);
        i += 1;
    }
    assert(memo@ =~= Scan::start(canvas@).memo);
    clarify_with(field, canvas, &mut memo, params)
}

} // verus!
