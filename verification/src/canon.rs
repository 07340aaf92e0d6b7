//! The rectangle list of a region is determined by its points: solid,
//! band-ordered lists with maximal bands that cover the same points are
//! equal. And what a builder holds after a sequence of additions and
//! removals.
use vstd::prelude::*;

use crate::rect::Rect;
use crate::region::{lemma_region_rects_disjoint, lemma_wf_parts, Region, RegionBuilder};
use crate::sweep::{all_solid, band_ordered, bands_maximal, covered_by, row_changes};

verus! {

/// Solid, band-ordered, with maximal bands.
pub open spec fn canonical(rs: Seq<Rect>) -> bool {
    &&& all_solid(rs)
    &&& band_ordered(rs)
    &&& bands_maximal(rs)
}

/// `r` is one of the pieces the points of `rs` break into: a maximal run
/// of its top row, over rows that do not change, bounded by rows that do.
pub open spec fn is_piece(rs: Seq<Rect>, r: Rect) -> bool {
    &&& r.raw.x1 < r.raw.x2
    &&& r.raw.y1 < r.raw.y2
    &&& forall|x: int| r.raw.x1 <= x < r.raw.x2 ==> #[trigger] covered_by(rs, x, r.raw.y1 as int)
    &&& !covered_by(rs, r.raw.x1 - 1, r.raw.y1 as int)
    &&& !covered_by(rs, r.raw.x2 as int, r.raw.y1 as int)
    &&& forall|y: int| r.raw.y1 < y < r.raw.y2 ==> !#[trigger] row_changes(rs, y)
    &&& row_changes(rs, r.raw.y1 as int)
    &&& row_changes(rs, r.raw.y2 as int)
}

/// A rectangle that covers a point of row `y` shares its band with
/// `rs[i]` when `y` lies in the rows of `rs[i]`.
proof fn lemma_same_band(rs: Seq<Rect>, i: int, j: int, x: int, y: int)
    requires
        canonical(rs),
        0 <= i < rs.len(),
        0 <= j < rs.len(),
        rs[i].raw.y1 <= y < rs[i].raw.y2,
        rs[j].covers(x, y),
    ensures
        rs[j].raw.y1 == rs[i].raw.y1,
        rs[j].raw.y2 == rs[i].raw.y2,
        i < j ==> rs[i].raw.x2 < rs[j].raw.x1,
        j < i ==> rs[j].raw.x2 < rs[i].raw.x1,
{
    if i < j {
        assert(rs[i].raw.y2 <= rs[j].raw.y1 || (rs[i].raw.y1 == rs[j].raw.y1 && rs[i].raw.y2 == rs[j].raw.y2 && rs[i].raw.x2 < rs[j].raw.x1));
    } else if j < i {
        assert(rs[j].raw.y2 <= rs[i].raw.y1 || (rs[j].raw.y1 == rs[i].raw.y1 && rs[j].raw.y2 == rs[i].raw.y2 && rs[j].raw.x2 < rs[i].raw.x1));
    }
}

/// Rows inside the rows of one rectangle hold the same points.
proof fn lemma_rows_constant(rs: Seq<Rect>, i: int, y: int, x: int)
    requires
        canonical(rs),
        0 <= i < rs.len(),
        rs[i].raw.y1 < y < rs[i].raw.y2,
    ensures
        covered_by(rs, x, y - 1) == covered_by(rs, x, y),
{
    if covered_by(rs, x, y - 1) {
        let j = choose|j: int| 0 <= j < rs.len() && #[trigger] rs[j].covers(x, y - 1);
        lemma_same_band(rs, i, j, x, y - 1);
        assert(rs[j].covers(x, y));
    }
    if covered_by(rs, x, y) {
        let j = choose|j: int| 0 <= j < rs.len() && #[trigger] rs[j].covers(x, y);
        lemma_same_band(rs, i, j, x, y);
        assert(rs[j].covers(x, y - 1));
    }
}

/// Every rectangle of a canonical list is a piece of its points.
proof fn lemma_member_is_piece(rs: Seq<Rect>, i: int)
    requires
        canonical(rs),
        0 <= i < rs.len(),
    ensures
        is_piece(rs, rs[i]),
{
    let r = rs[i];
    assert(r.raw.x1 < r.raw.x2 && r.raw.y1 < r.raw.y2);
    assert forall|x: int| r.raw.x1 <= x < r.raw.x2 implies #[trigger] covered_by(rs, x, r.raw.y1 as int) by {
        assert(rs[i].covers(x, r.raw.y1 as int));
    }
    assert(!covered_by(rs, r.raw.x1 - 1, r.raw.y1 as int)) by {
        if covered_by(rs, r.raw.x1 - 1, r.raw.y1 as int) {
            let j = choose|j: int| 0 <= j < rs.len() && #[trigger] rs[j].covers(r.raw.x1 - 1, r.raw.y1 as int);
            lemma_same_band(rs, i, j, r.raw.x1 - 1, r.raw.y1 as int);
        }
    }
    assert(!covered_by(rs, r.raw.x2 as int, r.raw.y1 as int)) by {
        if covered_by(rs, r.raw.x2 as int, r.raw.y1 as int) {
            let j = choose|j: int| 0 <= j < rs.len() && #[trigger] rs[j].covers(r.raw.x2 as int, r.raw.y1 as int);
            lemma_same_band(rs, i, j, r.raw.x2 as int, r.raw.y1 as int);
        }
    }
    assert forall|y: int| r.raw.y1 < y < r.raw.y2 implies !#[trigger] row_changes(rs, y) by {
        assert forall|x: int| covered_by(rs, x, y - 1) == covered_by(rs, x, y) by {
            lemma_rows_constant(rs, i, y, x);
        }
    }
    assert(rs[i] == r);
}

/// Every piece of a canonical list's points is one of its rectangles.
proof fn lemma_piece_is_member(rs: Seq<Rect>, r: Rect)
    requires
        canonical(rs),
        is_piece(rs, r),
    ensures
        exists|i: int| 0 <= i < rs.len() && rs[i] == r,
{
    assert(covered_by(rs, r.raw.x1 as int, r.raw.y1 as int));
    let i = choose|i: int| 0 <= i < rs.len() && #[trigger] rs[i].covers(r.raw.x1 as int, r.raw.y1 as int);
    let q = rs[i];
    // the top edges agree
    if q.raw.y1 < r.raw.y1 {
        assert(!row_changes(rs, r.raw.y1 as int)) by {
            assert forall|x: int| covered_by(rs, x, r.raw.y1 - 1) == covered_by(rs, x, r.raw.y1 as int) by {
                lemma_rows_constant(rs, i, r.raw.y1 as int, x);
            }
        }
    }
    assert(q.raw.y1 == r.raw.y1);
    // the bottom edges agree
    if q.raw.y2 < r.raw.y2 {
        lemma_member_is_piece(rs, i);
        assert(row_changes(rs, q.raw.y2 as int));
        assert(!row_changes(rs, q.raw.y2 as int));
    }
    if r.raw.y2 < q.raw.y2 {
        assert(!row_changes(rs, r.raw.y2 as int)) by {
            assert forall|x: int| covered_by(rs, x, r.raw.y2 - 1) == covered_by(rs, x, r.raw.y2 as int) by {
                lemma_rows_constant(rs, i, r.raw.y2 as int, x);
            }
        }
    }
    assert(q.raw.y2 == r.raw.y2);
    // the left edges agree
    if q.raw.x1 < r.raw.x1 {
        assert(rs[i].covers(r.raw.x1 - 1, r.raw.y1 as int));
    }
    assert(q.raw.x1 == r.raw.x1);
    // the right edges agree
    lemma_member_is_piece(rs, i);
    if q.raw.x2 < r.raw.x2 {
        assert(covered_by(rs, q.raw.x2 as int, r.raw.y1 as int));
    }
    if r.raw.x2 < q.raw.x2 {
        assert(rs[i].covers(r.raw.x2 as int, r.raw.y1 as int));
    }
    assert(q.raw.x2 == r.raw.x2);
    assert(rs[i] == r);
}

/// Lists covering the same points have the same pieces.
proof fn lemma_piece_same_points(a: Seq<Rect>, b: Seq<Rect>, r: Rect)
    requires
        forall|x: int, y: int| #[trigger] covered_by(a, x, y) == covered_by(b, x, y),
        is_piece(a, r),
    ensures
        is_piece(b, r),
{
    assert forall|x: int| r.raw.x1 <= x < r.raw.x2 implies #[trigger] covered_by(b, x, r.raw.y1 as int) by {
        assert(covered_by(a, x, r.raw.y1 as int));
    }
    assert(!covered_by(b, r.raw.x1 - 1, r.raw.y1 as int)) by {
        assert(covered_by(a, r.raw.x1 - 1, r.raw.y1 as int) == covered_by(b, r.raw.x1 - 1, r.raw.y1 as int));
    }
    assert(!covered_by(b, r.raw.x2 as int, r.raw.y1 as int)) by {
        assert(covered_by(a, r.raw.x2 as int, r.raw.y1 as int) == covered_by(b, r.raw.x2 as int, r.raw.y1 as int));
    }
    assert forall|y: int| #[trigger] row_changes(b, y) == row_changes(a, y) by {
        if row_changes(a, y) {
            let x = choose|x: int| covered_by(a, x, y - 1) != covered_by(a, x, y);
            assert(covered_by(b, x, y - 1) != covered_by(b, x, y));
        }
        if row_changes(b, y) {
            let x = choose|x: int| covered_by(b, x, y - 1) != covered_by(b, x, y);
            assert(covered_by(a, x, y - 1) != covered_by(a, x, y));
        }
    }
}

/// Rectangle `r` comes before `s`: higher, or in the same band further
/// left.
pub open spec fn key_lt(r: Rect, s: Rect) -> bool {
    r.raw.y1 < s.raw.y1 || (r.raw.y1 == s.raw.y1 && r.raw.x1 < s.raw.x1)
}

proof fn lemma_sorted(rs: Seq<Rect>, i: int, j: int)
    requires
        canonical(rs),
        0 <= i < j < rs.len(),
    ensures
        key_lt(rs[i], rs[j]),
{
    assert(rs[i].raw.y2 <= rs[j].raw.y1 || (rs[i].raw.y1 == rs[j].raw.y1 && rs[i].raw.y2 == rs[j].raw.y2 && rs[i].raw.x2 < rs[j].raw.x1));
}

/// Two lists sorted by `key_lt` holding the same rectangles are equal.
proof fn lemma_sorted_same_members(a: Seq<Rect>, b: Seq<Rect>)
    requires
        forall|i: int, j: int| 0 <= i < j < a.len() ==> key_lt(#[trigger] a[i], #[trigger] a[j]),
        forall|i: int, j: int| 0 <= i < j < b.len() ==> key_lt(#[trigger] b[i], #[trigger] b[j]),
        forall|i: int| 0 <= i < a.len() ==> #[trigger] b.contains(a[i]),
        forall|j: int| 0 <= j < b.len() ==> #[trigger] a.contains(b[j]),
    ensures
        a == b,
    decreases a.len() + b.len(),
{
    if a.len() == 0 {
        if b.len() > 0 {
            assert(a.contains(b[0]));
        }
        assert(a =~= b);
    } else if b.len() == 0 {
        assert(b.contains(a[0]));
    } else {
        assert(b.contains(a[0]));
        assert(a.contains(b[0]));
        let ja = choose|j: int| 0 <= j < b.len() && b[j] == a[0];
        let ib = choose|i: int| 0 <= i < a.len() && a[i] == b[0];
        if ja > 0 {
            assert(key_lt(b[0], b[ja]));
        }
        if ib > 0 {
            assert(key_lt(a[0], a[ib]));
        }
        assert(a[0] == b[0]) by {
            if ja > 0 && ib > 0 {
                assert(key_lt(b[0], a[0]) && key_lt(a[0], b[0]));
            }
        }
        let at = a.drop_first();
        let bt = b.drop_first();
        assert forall|i: int, j: int| 0 <= i < j < at.len() implies key_lt(#[trigger] at[i], #[trigger] at[j]) by {
            assert(key_lt(a[i + 1], a[j + 1]));
        }
        assert forall|i: int, j: int| 0 <= i < j < bt.len() implies key_lt(#[trigger] bt[i], #[trigger] bt[j]) by {
            assert(key_lt(b[i + 1], b[j + 1]));
        }
        assert forall|i: int| 0 <= i < at.len() implies #[trigger] bt.contains(at[i]) by {
            assert(b.contains(a[i + 1]));
            let j = choose|j: int| 0 <= j < b.len() && b[j] == a[i + 1];
            assert(key_lt(a[0], a[i + 1]));
            assert(j != 0);
            assert(bt[j - 1] == at[i]);
        }
        assert forall|j: int| 0 <= j < bt.len() implies #[trigger] at.contains(bt[j]) by {
            assert(a.contains(b[j + 1]));
            let i = choose|i: int| 0 <= i < a.len() && a[i] == b[j + 1];
            assert(key_lt(b[0], b[j + 1]));
            assert(i != 0);
            assert(at[i - 1] == bt[j]);
        }
        lemma_sorted_same_members(at, bt);
        assert(a =~= seq![a[0]] + at);
        assert(b =~= seq![b[0]] + bt);
    }
}

/// Canonical lists covering the same points are equal.
proof fn lemma_canonical_unique(a: Seq<Rect>, b: Seq<Rect>)
    requires
        canonical(a),
        canonical(b),
        forall|x: int, y: int| #[trigger] covered_by(a, x, y) == covered_by(b, x, y),
    ensures
        a == b,
{
    assert forall|i: int| 0 <= i < a.len() implies #[trigger] b.contains(a[i]) by {
        lemma_member_is_piece(a, i);
        lemma_piece_same_points(a, b, a[i]);
        lemma_piece_is_member(b, a[i]);
    }
    assert forall|j: int| 0 <= j < b.len() implies #[trigger] a.contains(b[j]) by {
        lemma_member_is_piece(b, j);
        assert forall|x: int, y: int| #[trigger] covered_by(b, x, y) == covered_by(a, x, y) by {
            assert(covered_by(a, x, y) == covered_by(b, x, y));
        }
        lemma_piece_same_points(b, a, b[j]);
        lemma_piece_is_member(a, b[j]);
    }
    assert forall|i: int, j: int| 0 <= i < j < a.len() implies key_lt(#[trigger] a[i], #[trigger] a[j]) by {
        lemma_sorted(a, i, j);
    }
    assert forall|i: int, j: int| 0 <= i < j < b.len() implies key_lt(#[trigger] b[i], #[trigger] b[j]) by {
        lemma_sorted(b, i, j);
    }
    lemma_sorted_same_members(a, b);
}

/// A region's rectangles are determined by its points: well-formed regions
/// holding the same points hold the same rectangles, in the same order.
pub proof fn lemma_region_determined_by_points(g: &Region, h: &Region)
    requires
        g.wf(),
        h.wf(),
        forall|x: int, y: int| #[trigger] g.covers(x, y) == h.covers(x, y),
    ensures
        g@ == h@,
{
    lemma_wf_parts(g);
    lemma_wf_parts(h);
    let (a, b) = (g@, h@);
    assert forall|x: int, y: int| #[trigger] covered_by(a, x, y) == covered_by(b, x, y) by {
        assert(g.covers(x, y) == h.covers(x, y));
    }
    lemma_canonical_unique(a, b);
}

/// Whether `(x, y)` is in the region built from nothing by `ops`, in order:
/// `(true, r)` adds the points of `r`, `(false, r)` removes them.
pub open spec fn ops_hold(ops: Seq<(bool, Rect)>, x: int, y: int) -> bool
    decreases ops.len(),
{
    if ops.len() == 0 {
        false
    } else if ops.last().0 {
        ops_hold(ops.drop_last(), x, y) || ops.last().1.covers(x, y)
    } else {
        ops_hold(ops.drop_last(), x, y) && !ops.last().1.covers(x, y)
    }
}

/// `after` is `before` once `op` was applied, as `RegionBuilder::add`
/// (`op.0`) or `RegionBuilder::sub` states it.
pub open spec fn builder_step(before: RegionBuilder, after: RegionBuilder, op: (bool, Rect)) -> bool {
    forall|x: int, y: int|
        #[trigger] after.holds(x, y) == (if op.0 {
            before.holds(x, y) || op.1.covers(x, y)
        } else {
            before.holds(x, y) && !op.1.covers(x, y)
        })
}

proof fn lemma_builder_holds(bs: Seq<RegionBuilder>, ops: Seq<(bool, Rect)>)
    requires
        bs.len() == ops.len() + 1,
        forall|x: int, y: int| !#[trigger] bs[0].holds(x, y),
        forall|i: int| 0 <= i < ops.len() ==> builder_step(#[trigger] bs[i], bs[i + 1], ops[i]),
    ensures
        forall|x: int, y: int| #[trigger] bs.last().holds(x, y) == ops_hold(ops, x, y),
    decreases ops.len(),
{
    if ops.len() == 0 {
        assert forall|x: int, y: int| #[trigger] bs.last().holds(x, y) == ops_hold(ops, x, y) by {
            assert(!bs[0].holds(x, y));
        }
    } else {
        let n = ops.len() as int;
        let bs2 = bs.drop_last();
        let ops2 = ops.drop_last();
        assert forall|i: int| 0 <= i < ops2.len() implies builder_step(#[trigger] bs2[i], bs2[i + 1], ops2[i]) by {
            assert(builder_step(bs[i], bs[i + 1], ops[i]));
        }
        assert forall|x: int, y: int| !#[trigger] bs2[0].holds(x, y) by {
            assert(!bs[0].holds(x, y));
        }
        lemma_builder_holds(bs2, ops2);
        assert(builder_step(bs[n - 1], bs[n], ops[n - 1]));
        assert forall|x: int, y: int| #[trigger] bs.last().holds(x, y) == ops_hold(ops, x, y) by {
            assert(bs2.last().holds(x, y) == ops_hold(ops2, x, y));
            assert(bs[n].holds(x, y) == (if ops[n - 1].0 {
                bs[n - 1].holds(x, y) || ops[n - 1].1.covers(x, y)
            } else {
                bs[n - 1].holds(x, y) && !ops[n - 1].1.covers(x, y)
            }));
        }
    }
}

/// A builder that starts empty and then adds and removes the rectangles of
/// `ops`, one after the other (each step as `RegionBuilder::add` or
/// `RegionBuilder::sub` states it), holds exactly the points `ops_hold`
/// gives; a region `g` got from it (as `RegionBuilder::get` states)
/// covers exactly those points, and its rectangles are solid and pairwise
/// disjoint.
pub proof fn lemma_builder_sequence(bs: Seq<RegionBuilder>, ops: Seq<(bool, Rect)>, g: Region)
    requires
        bs.len() == ops.len() + 1,
        forall|x: int, y: int| !#[trigger] bs[0].holds(x, y),
        forall|i: int| 0 <= i < ops.len() ==> builder_step(#[trigger] bs[i], bs[i + 1], ops[i]),
        g.wf(),
        forall|x: int, y: int| #[trigger] g.covers(x, y) == bs.last().holds(x, y),
    ensures
        forall|x: int, y: int| #[trigger] bs.last().holds(x, y) == ops_hold(ops, x, y),
        forall|x: int, y: int| #[trigger] g.covers(x, y) == ops_hold(ops, x, y),
        forall|i: int| 0 <= i < g@.len() ==> !(#[trigger] g@[i]).degenerate(),
        forall|i: int, j: int, x: int, y: int|
            0 <= i < j < g@.len() ==> !(#[trigger] g@[i].covers(x, y) && #[trigger] g@[j].covers(x, y)),
{
    lemma_builder_holds(bs, ops);
    assert forall|x: int, y: int| #[trigger] g.covers(x, y) == ops_hold(ops, x, y) by {
        assert(bs.last().holds(x, y) == ops_hold(ops, x, y));
    }
    assert forall|i: int| 0 <= i < g@.len() implies !(#[trigger] g@[i]).degenerate() by {
        lemma_wf_parts(&g);
    }
    assert forall|i: int, j: int, x: int, y: int|
        0 <= i < j < g@.len() implies !(#[trigger] g@[i].covers(x, y) && #[trigger] g@[j].covers(x, y)) by {
        lemma_region_rects_disjoint(&g, i, j, x, y);
    }
}

} // verus!
