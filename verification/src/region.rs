//! Regions: finite unions of rectangles, kept as a list of solid,
//! band-ordered rectangles, and a builder that applies a sequence of
//! additions and subtractions.
use std::rc::Rc;

use smallvec::SmallVec;
use vstd::prelude::*;

use crate::rect::{Rect, RectRaw};
use crate::sweep::{
    all_solid, band_ordered, bands_maximal, bbox, combine, covered_by, lemma_bbox_frames, lemma_frames_unique,
    lemma_hull_frames, within,
};

verus! {

/// Rectangles kept in a `smallvec::SmallVec` with room for one inline.
#[verifier::external_body]
#[derive(Debug)]
pub struct RectList {
    items: SmallVec<[Rect; 1]>,
}

/// The rectangles held by a list, in order.
pub uninterp spec fn rect_items(v: RectList) -> Seq<Rect>;

/// `SmallVec::from_vec`: the small vector holds the vector's items in the
/// same order.
#[verifier::external_body]
fn rects_from_vec(v: Vec<Rect>) -> (r: RectList)
    ensures
        rect_items(r) == v@,
{
    RectList { items: SmallVec::from_vec(v) }
}

/// `SmallVec::as_slice`: a slice of all items, in order.
#[verifier::external_body]
fn rects_as_slice(v: &RectList) -> (s: &[Rect])
    ensures
        s@ == rect_items(*v),
{
    v.items.as_slice()
}

/// `Rc::clone`: another pointer to the same allocation, so the same value.
#[verifier::external_body]
fn share<T>(r: &Rc<T>) -> (s: Rc<T>)
    ensures
        *s == **r,
{
    Rc::clone(r)
}

/// A set of points given as a list of solid rectangles and their bounding
/// box.
#[derive(Debug)]
pub struct Region {
    rects: RectList,
    extents: Rect,
}

impl View for Region {
    type V = Seq<Rect>;

    closed spec fn view(&self) -> Seq<Rect> {
        rect_items(self.rects)
    }
}

impl Region {
    /// The region holds the point `(x, y)`.
    pub open spec fn covers(self, x: int, y: int) -> bool {
        covered_by(self@, x, y)
    }

    /// The stored bounding box.
    pub closed spec fn bounds(self) -> Rect {
        self.extents
    }

    /// Every rectangle is solid and lies in the bounding box; an empty
    /// region has a bounding box without area.
    pub closed spec fn wf(self) -> bool {
        &&& all_solid(self@)
        &&& band_ordered(self@)
        &&& bands_maximal(self@)
        &&& forall|i: int| 0 <= i < self@.len() ==> #[trigger] within(self@[i], self.extents)
        &&& (self@.len() == 0 ==> self.extents.degenerate())
    }

    fn empty_value() -> (r: Region)
        ensures
            r.wf(),
            r@.len() == 0,
            r.bounds() == (Rect { raw: RectRaw { x1: 0, y1: 0, x2: 0, y2: 0 } }),
    {
        Region { rects: rects_from_vec(Vec::new()), extents: Rect { raw: RectRaw { x1: 0, y1: 0, x2: 0, y2: 0 } } }
    }

    /// A fresh empty region.
    pub fn empty() -> (r: Rc<Region>)
        ensures
            r.wf(),
            r@.len() == 0,
            r.bounds() == (Rect { raw: RectRaw { x1: 0, y1: 0, x2: 0, y2: 0 } }),
    {
        Rc::new(Region::empty_value())
    }

    /// The region of one rectangle; empty when the rectangle has no area.
    pub fn new(rect: Rect) -> (r: Region)
        requires
            rect.wf(),
        ensures
            r.wf(),
            rect.degenerate() ==> r@.len() == 0 && r.bounds() == (Rect { raw: RectRaw { x1: 0, y1: 0, x2: 0, y2: 0 } }),
            !rect.degenerate() ==> r@ == seq![rect] && r.bounds() == rect,
    {
        if rect.is_empty() {
            return Region::empty_value();
        }
        let mut v: Vec<Rect> = Vec::new();
        v.push(rect);
        let r = Region { rects: rects_from_vec(v), extents: rect };
        assert(r@ == seq![rect]);
        proof {
            let x = rect.raw.x1 as int;
            assert(r@[0].covers(x, rect.raw.y1 as int));
            assert(covered_by(r@, x, rect.raw.y1 as int));
            assert(!covered_by(r@, x, rect.raw.y1 - 1));
            assert(r@[0].covers(x, rect.raw.y2 - 1));
            assert(covered_by(r@, x, rect.raw.y2 - 1));
            assert(!covered_by(r@, x, rect.raw.y2 as int));
        }
        r
    }

    /// The bounding box.
    pub fn extents(&self) -> (e: Rect)
        ensures
            e == self.bounds(),
    {
        self.extents
    }

    /// The rectangles, band by band.
    pub fn rects(&self) -> (s: &[Rect])
        ensures
            s@ == self@,
    {
        rects_as_slice(&self.rects)
    }

    /// The region holds no point.
    pub fn is_empty(&self) -> (r: bool)
        requires
            self.wf(),
        ensures
            r == (self@.len() == 0),
            r == (forall|x: int, y: int| !self.covers(x, y)),
    {
        let n = rects_as_slice(&self.rects).len();
        let r = n == 0 || self.extents.is_empty();
        proof {
            if self@.len() > 0 {
                let q = self@[0];
                assert(within(q, self.extents));
                assert(q.covers(q.raw.x1 as int, q.raw.y1 as int));
                assert(self.covers(q.raw.x1 as int, q.raw.y1 as int));
            }
        }
        r
    }

    /// The region holds the point `(x, y)`.
    pub fn contains(&self, x: i32, y: i32) -> (r: bool)
        requires
            self.wf(),
        ensures
            r == self.covers(x as int, y as int),
    {
        if !self.extents.contains(x, y) {
            proof {
                if self.covers(x as int, y as int) {
                    let i = choose|i: int| 0 <= i < self@.len() && #[trigger] self@[i].covers(x as int, y as int);
                    assert(within(self@[i], self.extents));
                }
            }
            return false;
        }
        let s = rects_as_slice(&self.rects);
        let mut i: usize = 0;
        while i < s.len()
            invariant
                i <= s.len(),
                s@ == self@,
                forall|k: int| 0 <= k < i ==> !(#[trigger] s@[k].covers(x as int, y as int)),
            decreases s.len() - i,
        {
            if s[i].contains(x, y) {
                return true;
            }
            i = i + 1;
        }
        false
    }

    /// A region with exactly the points of the given rectangles.
    pub fn from_rects2(rects: &[Rect]) -> (r: Region)
        requires
            forall|i: int| 0 <= i < rects@.len() ==> #[trigger] rects@[i].wf(),
        ensures
            r.wf(),
            forall|x: int, y: int| #[trigger] r.covers(x, y) == covered_by(rects@, x, y),
            r.bounds() == (if rects@.len() == 1 && !rects@[0].degenerate() { rects@[0] } else { bbox(r@) }),
    {
        if rects.len() == 0 {
            return Region::empty_value();
        }
        if rects.len() == 1 {
            let r = Region::new(rects[0]);
            assert forall|x: int, y: int| #[trigger] r.covers(x, y) == covered_by(rects@, x, y) by {
                if rects@[0].covers(x, y) {
                    assert(r@[0].covers(x, y));
                }
            }
            return r;
        }
        let none: Vec<Rect> = Vec::new();
        let bands = combine(rects, none.as_slice(), false);
        assert forall|x: int, y: int| #[trigger] covered_by(bands@, x, y) == covered_by(rects@, x, y) by {
            assert(covered_by(bands@, x, y) == (covered_by(rects@, x, y) || covered_by(none@, x, y)));
        }
        if bands.len() == 0 {
            let r = Region::empty_value();
            assert forall|x: int, y: int| #[trigger] r.covers(x, y) == covered_by(rects@, x, y) by {
                assert(!covered_by(bands@, x, y));
            }
            return r;
        }
        let e = crate::sweep::extents(bands.as_slice());
        let r = Region { rects: rects_from_vec(bands), extents: e };
        assert(r@ == bands@);
        r
    }

    /// Shared form of [`Region::from_rects2`].
    pub fn from_rects(rects: &[Rect]) -> (r: Rc<Region>)
        requires
            forall|i: int| 0 <= i < rects@.len() ==> #[trigger] rects@[i].wf(),
        ensures
            r.wf(),
            forall|x: int, y: int| #[trigger] r.covers(x, y) == covered_by(rects@, x, y),
            r.bounds() == (if rects@.len() == 1 && !rects@[0].degenerate() { rects@[0] } else { bbox(r@) }),
    {
        if rects.len() == 0 {
            return Region::empty();
        }
        let region = Region::from_rects2(rects);
        if region.is_empty() {
            let r = Region::empty();
            assert forall|x: int, y: int| #[trigger] r.covers(x, y) == covered_by(rects@, x, y) by {
                assert(!region.covers(x, y));
            }
            return r;
        }
        Rc::new(region)
    }
}

/// Any solid rectangle each of whose points lies in `e` lies within `e`.
proof fn lemma_solid_within(r: Rect, e: Rect)
    requires
        r.raw.x1 < r.raw.x2,
        r.raw.y1 < r.raw.y2,
        e.covers(r.raw.x1 as int, r.raw.y1 as int),
        e.covers(r.raw.x2 - 1, r.raw.y2 - 1),
    ensures
        within(r, e),
{
}

impl Region {
    /// Points of either region.
    pub fn union(self: &Rc<Self>, other: &Rc<Self>) -> (r: Rc<Region>)
        requires
            self.wf(),
            other.wf(),
        ensures
            r.wf(),
            forall|x: int, y: int| #[trigger] r.covers(x, y) == (self.covers(x, y) || other.covers(x, y)),
            self.bounds().degenerate() ==> *r == **other,
            !self.bounds().degenerate() && other.bounds().degenerate() ==> *r == **self,
            !self.bounds().degenerate() && !other.bounds().degenerate() ==> r.bounds() == self.bounds().hull(other.bounds()),
            self.bounds() == bbox(self@) && other.bounds() == bbox(other@) ==> r.bounds() == bbox(r@),
    {
        if self.extents.is_empty() {
            proof {
                lemma_degenerate_bounds_empty(&**self);
            }
            return share(other);
        }
        if other.extents.is_empty() {
            proof {
                lemma_degenerate_bounds_empty(&**other);
            }
            return share(self);
        }
        let rects = combine(rects_as_slice(&self.rects), rects_as_slice(&other.rects), false);
        if rects.len() == 0 {
            proof {
                lemma_nondegenerate_bounds_nonempty(&**self);
                let q = self@[0];
                assert(q.covers(q.raw.x1 as int, q.raw.y1 as int));
                assert(self.covers(q.raw.x1 as int, q.raw.y1 as int));
                assert(covered_by(rects@, q.raw.x1 as int, q.raw.y1 as int));
            }
            return Region::empty();
        }
        let e = self.extents.union(other.extents);
        proof {
            assert forall|i: int| 0 <= i < rects@.len() implies #[trigger] within(rects@[i], e) by {
                let q = rects@[i];
                assert(q.covers(q.raw.x1 as int, q.raw.y1 as int));
                assert(q.covers(q.raw.x2 - 1, q.raw.y2 - 1));
                assert(covered_by(rects@, q.raw.x1 as int, q.raw.y1 as int));
                assert(covered_by(rects@, q.raw.x2 - 1, q.raw.y2 - 1));
                lemma_in_bounds(&**self, q.raw.x1 as int, q.raw.y1 as int);
                lemma_in_bounds(&**other, q.raw.x1 as int, q.raw.y1 as int);
                lemma_in_bounds(&**self, q.raw.x2 - 1, q.raw.y2 - 1);
                lemma_in_bounds(&**other, q.raw.x2 - 1, q.raw.y2 - 1);
                lemma_solid_within(q, e);
            }
        }
        let r = Rc::new(Region { rects: rects_from_vec(rects), extents: e });
        proof {
            let a: &Region = &**self;
            let b: &Region = &**other;
            if a.bounds() == bbox(a@) && b.bounds() == bbox(b@) {
                lemma_union_tight(a, b, &*r);
            }
        }
        r
    }
}

/// The union of two regions with tight bounding boxes has a tight one.
proof fn lemma_union_tight(a: &Region, b: &Region, r: &Region)
    requires
        a.wf(),
        b.wf(),
        r.wf(),
        a.bounds() == bbox(a@),
        b.bounds() == bbox(b@),
        !a.bounds().degenerate(),
        !b.bounds().degenerate(),
        r.bounds() == a.bounds().hull(b.bounds()),
        forall|x: int, y: int| #[trigger] r.covers(x, y) == (a.covers(x, y) || b.covers(x, y)),
    ensures
        r.bounds() == bbox(r@),
{
    lemma_wf_parts(a);
    lemma_wf_parts(b);
    lemma_wf_parts(r);
    assert(a@.len() > 0);
    assert(b@.len() > 0);
    lemma_bbox_frames(a@);
    lemma_bbox_frames(b@);
    assert forall|x: int, y: int| #[trigger] covered_by(r@, x, y) == (covered_by(a@, x, y) || covered_by(b@, x, y)) by {
        assert(r.covers(x, y) == (a.covers(x, y) || b.covers(x, y)));
    }
    lemma_hull_frames(a@, bbox(a@), b@, bbox(b@), r@);
    let q = a@[0];
    assert(q.covers(q.raw.x1 as int, q.raw.y1 as int));
    assert(covered_by(a@, q.raw.x1 as int, q.raw.y1 as int));
    assert(covered_by(r@, q.raw.x1 as int, q.raw.y1 as int));
    assert(r@.len() > 0);
    lemma_bbox_frames(r@);
    lemma_frames_unique(r@, bbox(r@), r@, a.bounds().hull(b.bounds()));
}

impl Region {
    /// Points of this region that are not in `other`.
    pub fn subtract(self: &Rc<Self>, other: &Rc<Self>) -> (r: Rc<Region>)
        requires
            self.wf(),
            other.wf(),
        ensures
            r.wf(),
            forall|x: int, y: int| #[trigger] r.covers(x, y) == (self.covers(x, y) && !other.covers(x, y)),
            self.bounds().degenerate() || other.bounds().degenerate() ==> *r == **self,
            !self.bounds().intersects_spec(other.bounds()) ==> *r == **self,
            r.bounds() == (if self.bounds().degenerate() || other.bounds().degenerate()
                || !self.bounds().intersects_spec(other.bounds()) { self.bounds() } else { bbox(r@) }),
    {
        if self.extents.is_empty() || other.extents.is_empty() {
            proof {
                if self.extents.degenerate() {
                    lemma_degenerate_bounds_empty(&**self);
                } else {
                    lemma_degenerate_bounds_empty(&**other);
                }
            }
            return share(self);
        }
        if !self.extents.intersects(other.extents) {
            assert forall|x: int, y: int| !(self.covers(x, y) && #[trigger] other.covers(x, y)) by {
                lemma_in_bounds(&**self, x, y);
                lemma_in_bounds(&**other, x, y);
            }
            return share(self);
        }
        let rects = combine(rects_as_slice(&self.rects), rects_as_slice(&other.rects), true);
        if rects.len() == 0 {
            let r = Region::empty();
            assert forall|x: int, y: int| #[trigger] r.covers(x, y) == (self.covers(x, y) && !other.covers(x, y)) by {
                assert(!covered_by(rects@, x, y));
            }
            return r;
        }
        let e = crate::sweep::extents(rects.as_slice());
        let r = Region { extents: e, rects: rects_from_vec(rects) };
        assert(r@ == rects@);
        Rc::new(r)
    }
}

/// Which operation the pending rectangles of a builder apply.
#[derive(Copy, Clone, PartialEq, Eq, Debug, Structural)]
enum BuilderOp {
    Add,
    Sub,
}

/// Accumulates additions and subtractions of rectangles, batching runs of
/// the same operation.
#[derive(Debug)]
pub struct RegionBuilder {
    base: Rc<Region>,
    op: BuilderOp,
    pending: Vec<Rect>,
}

impl RegionBuilder {
    /// The base region is well formed and the pending rectangles are
    /// solid.
    pub closed spec fn wf(self) -> bool {
        &&& self.base.wf()
        &&& forall|i: int| 0 <= i < self.pending@.len() ==> #[trigger] self.pending@[i].wf()
    }

    /// The point `(x, y)` belongs to the region built so far.
    pub closed spec fn holds(self, x: int, y: int) -> bool {
        match self.op {
            BuilderOp::Add => self.base.covers(x, y) || covered_by(self.pending@, x, y),
            BuilderOp::Sub => self.base.covers(x, y) && !covered_by(self.pending@, x, y),
        }
    }

    /// An empty builder.
    pub fn new() -> (b: RegionBuilder)
        ensures
            b.wf(),
            forall|x: int, y: int| !#[trigger] b.holds(x, y),
    {
        RegionBuilder { base: Region::empty(), op: BuilderOp::Add, pending: Vec::new() }
    }

    /// Adds the points of `rect`.
    pub fn add(&mut self, rect: Rect)
        requires
            old(self).wf(),
            rect.wf(),
        ensures
            final(self).wf(),
            forall|x: int, y: int| #[trigger] final(self).holds(x, y) == (old(self).holds(x, y) || rect.covers(x, y)),
    {
        if rect.is_empty() {
            return;
        }
        self.set_op(BuilderOp::Add);
        let ghost mid = *self;
        let ghost before = self.pending@;
        self.pending.push(rect);
        assert forall|x: int, y: int| #[trigger] covered_by(self.pending@, x, y) == (covered_by(before, x, y) || rect.covers(x, y)) by {
            if covered_by(self.pending@, x, y) {
                let i = choose|i: int| 0 <= i < self.pending@.len() && #[trigger] self.pending@[i].covers(x, y);
                if i < before.len() {
                    assert(before[i].covers(x, y));
                }
            }
            if covered_by(before, x, y) {
                let i = choose|i: int| 0 <= i < before.len() && #[trigger] before[i].covers(x, y);
                assert(self.pending@[i].covers(x, y));
            }
            if rect.covers(x, y) {
                assert(self.pending@[before.len() as int].covers(x, y));
            }
        }
        assert forall|x: int, y: int| #[trigger] self.holds(x, y) == (mid.holds(x, y) || rect.covers(x, y)) by {
            assert(covered_by(self.pending@, x, y) == (covered_by(before, x, y) || rect.covers(x, y)));
        }
    }

    /// Removes the points of `rect`.
    pub fn sub(&mut self, rect: Rect)
        requires
            old(self).wf(),
            rect.wf(),
        ensures
            final(self).wf(),
            forall|x: int, y: int| #[trigger] final(self).holds(x, y) == (old(self).holds(x, y) && !rect.covers(x, y)),
    {
        if rect.is_empty() {
            return;
        }
        self.set_op(BuilderOp::Sub);
        let ghost mid = *self;
        let ghost before = self.pending@;
        self.pending.push(rect);
        assert forall|x: int, y: int| #[trigger] covered_by(self.pending@, x, y) == (covered_by(before, x, y) || rect.covers(x, y)) by {
            if covered_by(self.pending@, x, y) {
                let i = choose|i: int| 0 <= i < self.pending@.len() && #[trigger] self.pending@[i].covers(x, y);
                if i < before.len() {
                    assert(before[i].covers(x, y));
                }
            }
            if covered_by(before, x, y) {
                let i = choose|i: int| 0 <= i < before.len() && #[trigger] before[i].covers(x, y);
                assert(self.pending@[i].covers(x, y));
            }
            if rect.covers(x, y) {
                assert(self.pending@[before.len() as int].covers(x, y));
            }
        }
        assert forall|x: int, y: int| #[trigger] self.holds(x, y) == (mid.holds(x, y) && !rect.covers(x, y)) by {
            assert(covered_by(self.pending@, x, y) == (covered_by(before, x, y) || rect.covers(x, y)));
        }
    }

    /// The region built so far.
    pub fn get(&mut self) -> (r: Rc<Region>)
        requires
            old(self).wf(),
        ensures
            final(self).wf(),
            r.wf(),
            forall|x: int, y: int| #[trigger] r.covers(x, y) == old(self).holds(x, y),
            forall|x: int, y: int| #[trigger] final(self).holds(x, y) == old(self).holds(x, y),
    {
        self.flush();
        share(&self.base)
    }

    fn set_op(&mut self, op: BuilderOp)
        requires
            old(self).wf(),
        ensures
            final(self).wf(),
            final(self).op == op,
            old(self).op != op ==> final(self).pending@.len() == 0,
            old(self).op == op ==> final(self).pending@ == old(self).pending@,
            forall|x: int, y: int| #[trigger] final(self).holds(x, y) == old(self).holds(x, y),
    {
        if self.op != op {
            self.flush();
            self.op = op;
            assert forall|x: int, y: int| #[trigger] self.holds(x, y) == self.base.covers(x, y) by {
                assert(self.pending@.len() == 0);
            }
        }
    }

    fn flush(&mut self)
        requires
            old(self).wf(),
        ensures
            final(self).wf(),
            final(self).op == old(self).op,
            final(self).pending@.len() == 0,
            forall|x: int, y: int| #[trigger] final(self).holds(x, y) == old(self).holds(x, y),
            forall|x: int, y: int| #[trigger] final(self).base.covers(x, y) == old(self).holds(x, y),
    {
        if self.pending.len() == 0 {
            assert forall|x: int, y: int| #[trigger] self.holds(x, y) == self.base.covers(x, y) by {}
            return;
        }
        let region = Region::from_rects(self.pending.as_slice());
        let next = match self.op {
            BuilderOp::Add => self.base.union(&region),
            BuilderOp::Sub => self.base.subtract(&region),
        };
        let ghost before = *self;
        self.base = next;
        self.pending.clear();
        assert forall|x: int, y: int| #[trigger] self.holds(x, y) == before.holds(x, y) by {
            assert(self.base.covers(x, y) == before.holds(x, y));
        }
    }
}

impl Default for RegionBuilder {
    fn default() -> (b: RegionBuilder)
        ensures
            b.wf(),
            forall|x: int, y: int| !#[trigger] b.holds(x, y),
    {
        RegionBuilder::new()
    }
}

/// What well-formedness says of a region's rectangles.
pub(crate) proof fn lemma_wf_parts(g: &Region)
    requires
        g.wf(),
    ensures
        all_solid(g@),
        band_ordered(g@),
        bands_maximal(g@),
{
}

/// No point of a well-formed region lies in two of its rectangles.
pub proof fn lemma_region_rects_disjoint(g: &Region, i: int, j: int, x: int, y: int)
    requires
        g.wf(),
        0 <= i < j < g@.len(),
    ensures
        !(g@[i].covers(x, y) && g@[j].covers(x, y)),
{
    assert(band_ordered(g@));
    let (p, q) = (g@[i], g@[j]);
    assert(p.raw.y2 <= q.raw.y1 || (p.raw.y1 == q.raw.y1 && p.raw.y2 == q.raw.y2 && p.raw.x2 < q.raw.x1));
}

/// A well-formed region whose bounding box has no area holds no point.
proof fn lemma_degenerate_bounds_empty(g: &Region)
    requires
        g.wf(),
        g.bounds().degenerate(),
    ensures
        g@.len() == 0,
        forall|x: int, y: int| !#[trigger] g.covers(x, y),
{
    if g@.len() > 0 {
        assert(within(g@[0], g.extents));
    }
}

/// A well-formed region whose bounding box has area has a rectangle.
proof fn lemma_nondegenerate_bounds_nonempty(g: &Region)
    requires
        g.wf(),
        !g.bounds().degenerate(),
    ensures
        g@.len() > 0,
{
}

/// Every point of a well-formed region lies in its bounding box.
proof fn lemma_in_bounds(g: &Region, x: int, y: int)
    requires
        g.wf(),
    ensures
        g.covers(x, y) ==> g.bounds().covers(x, y),
{
    if !g.covers(x, y) {
        return;
    }
    let i = choose|i: int| 0 <= i < g@.len() && #[trigger] g@[i].covers(x, y);
    assert(within(g@[i], g.extents));
}

} // verus!
