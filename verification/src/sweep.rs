//! Boolean combination of rectangle sets by a sweep over the elementary
//! grid cells spanned by all rectangle edges.
use vstd::prelude::*;
use crate::rect::{Rect, RectRaw};

verus! {

/// Some rectangle of `rs` holds the point `(x, y)`.
pub open spec fn covered_by(rs: Seq<Rect>, x: int, y: int) -> bool {
    exists|i: int| 0 <= i < rs.len() && #[trigger] rs[i].covers(x, y)
}

/// Strictly increasing sequence.
pub open spec fn strictly_sorted(s: Seq<i32>) -> bool {
    forall|i: int, j: int| 0 <= i < j < s.len() ==> s[i] < s[j]
}

/// Every vertical edge of `rs` occurs in `xs`, every horizontal one in `ys`.
pub open spec fn edges_in(rs: Seq<Rect>, xs: Seq<i32>, ys: Seq<i32>) -> bool {
    forall|i: int|
        #![trigger rs[i]]
        0 <= i < rs.len() ==> {
            &&& xs.contains(rs[i].raw.x1)
            &&& xs.contains(rs[i].raw.x2)
            &&& ys.contains(rs[i].raw.y1)
            &&& ys.contains(rs[i].raw.y2)
        }
}

/// The operation applied point by point: union, or difference when `sub`.
pub open spec fn combine_op(a: bool, b: bool, sub: bool) -> bool {
    if sub {
        a && !b
    } else {
        a || b
    }
}

/// `x` lies in the `c`-th elementary interval `[xs[c], xs[c + 1])`.
pub open spec fn in_cell(xs: Seq<i32>, c: int, x: int) -> bool {
    0 <= c && c + 1 < xs.len() && xs[c] <= x < xs[c + 1]
}

/// Inserts `x` into a strictly sorted vector unless already present.
fn insert_sorted(v: &mut Vec<i32>, x: i32)
    requires
        strictly_sorted(old(v)@),
    ensures
        strictly_sorted(final(v)@),
        forall|t: i32| final(v)@.contains(t) <==> (old(v)@.contains(t) || t == x),
{
    let mut p: usize = 0;
    while p < v.len() && v[p] < x
        invariant
            p <= v.len(),
            v@ == old(v)@,
            forall|i: int| 0 <= i < p ==> v@[i] < x,
        decreases v.len() - p,
    {
        p = p + 1;
    }
    if p < v.len() && v[p] == x {
        assert(v@.contains(x)) by {
            assert(v@[p as int] == x);
        }
        return;
    }
    let ghost before = v@;
    v.insert(p, x);
    assert forall|i: int, j: int| 0 <= i < j < v@.len() implies v@[i] < v@[j] by {
        if j < p {
        } else if j == p {
        } else if i < p {
            assert(before[j - 1] >= before[p as int] || j - 1 == p);
        } else if i == p {
            assert(before[j - 1] >= before[p as int] || j - 1 == p);
        } else {
        }
    }
    assert forall|t: i32| #[trigger] v@.contains(t) implies (before.contains(t) || t == x) by {
        let k = choose|k: int| 0 <= k < v@.len() && v@[k] == t;
        if k < p {
            assert(before[k] == t);
        } else if k > p {
            assert(before[k - 1] == t);
        }
    }
    assert forall|t: i32| #[trigger] before.contains(t) implies v@.contains(t) by {
        let k = choose|k: int| 0 <= k < before.len() && before[k] == t;
        if k < p {
            assert(v@[k] == t);
        } else {
            assert(v@[k + 1] == t);
        }
    }
    assert(v@[p as int] == x);
}

/// The sorted distinct edge coordinates of both rectangle lists.
fn collect_edges(a: &[Rect], b: &[Rect]) -> (res: (Vec<i32>, Vec<i32>))
    ensures
        strictly_sorted(res.0@),
        strictly_sorted(res.1@),
        edges_in(a@, res.0@, res.1@),
        edges_in(b@, res.0@, res.1@),
{
    let mut xs: Vec<i32> = Vec::new();
    let mut ys: Vec<i32> = Vec::new();
    let mut i: usize = 0;
    while i < a.len()
        invariant
            i <= a.len(),
            strictly_sorted(xs@),
            strictly_sorted(ys@),
            edges_in(a@.take(i as int), xs@, ys@),
        decreases a.len() - i,
    {
        let r = a[i];
        insert_sorted(&mut xs, r.raw.x1);
        insert_sorted(&mut xs, r.raw.x2);
        insert_sorted(&mut ys, r.raw.y1);
        insert_sorted(&mut ys, r.raw.y2);
        assert(a@.take(i + 1)[i as int] == r);
        i = i + 1;
    }
    assert(a@.take(a.len() as int) == a@);
    let mut j: usize = 0;
    while j < b.len()
        invariant
            j <= b.len(),
            strictly_sorted(xs@),
            strictly_sorted(ys@),
            edges_in(a@, xs@, ys@),
            edges_in(b@.take(j as int), xs@, ys@),
        decreases b.len() - j,
    {
        let r = b[j];
        insert_sorted(&mut xs, r.raw.x1);
        insert_sorted(&mut xs, r.raw.x2);
        insert_sorted(&mut ys, r.raw.y1);
        insert_sorted(&mut ys, r.raw.y2);
        assert(b@.take(j + 1)[j as int] == r);
        j = j + 1;
    }
    assert(b@.take(b.len() as int) == b@);
    (xs, ys)
}

/// Whether some rectangle of `rs` holds `(x, y)`.
fn any_covers(rs: &[Rect], x: i32, y: i32) -> (r: bool)
    ensures
        r == covered_by(rs@, x as int, y as int),
{
    let mut i: usize = 0;
    while i < rs.len()
        invariant
            i <= rs.len(),
            forall|k: int| 0 <= k < i ==> !(#[trigger] rs@[k].covers(x as int, y as int)),
        decreases rs.len() - i,
    {
        if rs[i].contains(x, y) {
            return true;
        }
        i = i + 1;
    }
    false
}


/// Between two breakpoints `xs[s] <= x < xs[e]` exactly when `x` lies in
/// one of the elementary intervals `s .. e`.
proof fn lemma_range_cells(xs: Seq<i32>, s: int, e: int, x: int)
    requires
        strictly_sorted(xs),
        0 <= s <= e < xs.len(),
    ensures
        (xs[s] <= x < xs[e]) <==> (exists|c: int| s <= c < e && #[trigger] in_cell(xs, c, x)),
    decreases e - s,
{
    if s < e {
        lemma_range_cells(xs, s + 1, e, x);
        if xs[s] <= x < xs[e] {
            if x < xs[s + 1] {
                assert(in_cell(xs, s, x));
            }
        }
        if exists|c: int| s <= c < e && #[trigger] in_cell(xs, c, x) {
            let c = choose|c: int| s <= c < e && #[trigger] in_cell(xs, c, x);
            assert(xs[s] <= xs[c]);
            assert(xs[c + 1] <= xs[e]);
        }
    }
}

/// A point lies in at most one elementary interval.
proof fn lemma_cell_unique(xs: Seq<i32>, c1: int, c2: int, x: int)
    requires
        strictly_sorted(xs),
        in_cell(xs, c1, x),
        in_cell(xs, c2, x),
    ensures
        c1 == c2,
{
    if c1 < c2 {
        assert(xs[c1 + 1] <= xs[c2]);
    } else if c2 < c1 {
        assert(xs[c2 + 1] <= xs[c1]);
    }
}

/// Inside an elementary interval, comparing against breakpoints gives the
/// same answer for every point as for the interval's left end.
proof fn lemma_interval_uniform(xs: Seq<i32>, j: int, x: int, a: i32, b: i32)
    requires
        strictly_sorted(xs),
        xs.contains(a),
        xs.contains(b),
        in_cell(xs, j, x),
    ensures
        (a <= x < b) == (a <= xs[j] < b),
{
    let p = choose|p: int| 0 <= p < xs.len() && xs[p] == a;
    let q = choose|q: int| 0 <= q < xs.len() && xs[q] == b;
    if p > j {
        assert(xs[j + 1] <= xs[p]);
    }
    if q > j {
        assert(xs[j + 1] <= xs[q]);
    }
}

/// Coverage is constant on each grid cell.
proof fn lemma_cell_uniform(rs: Seq<Rect>, xs: Seq<i32>, ys: Seq<i32>, j: int, k: int, x: int, y: int)
    requires
        strictly_sorted(xs),
        strictly_sorted(ys),
        edges_in(rs, xs, ys),
        in_cell(xs, j, x),
        in_cell(ys, k, y),
    ensures
        covered_by(rs, x, y) == covered_by(rs, xs[j] as int, ys[k] as int),
{
    assert forall|i: int| 0 <= i < rs.len() implies
        #[trigger] rs[i].covers(x, y) == rs[i].covers(xs[j] as int, ys[k] as int) by {
        lemma_interval_uniform(xs, j, x, rs[i].raw.x1, rs[i].raw.x2);
        lemma_interval_uniform(ys, k, y, rs[i].raw.y1, rs[i].raw.y2);
    }
    if covered_by(rs, x, y) {
        let i = choose|i: int| 0 <= i < rs.len() && #[trigger] rs[i].covers(x, y);
        assert(rs[i].covers(xs[j] as int, ys[k] as int));
    }
    if covered_by(rs, xs[j] as int, ys[k] as int) {
        let i = choose|i: int| 0 <= i < rs.len() && #[trigger] rs[i].covers(xs[j] as int, ys[k] as int);
        assert(rs[i].covers(x, y));
    }
}

/// A point outside every grid column (or row) is covered by no rectangle.
proof fn lemma_outside_grid(rs: Seq<Rect>, xs: Seq<i32>, ys: Seq<i32>, x: int, y: int)
    requires
        strictly_sorted(xs),
        strictly_sorted(ys),
        edges_in(rs, xs, ys),
        (forall|c: int| !#[trigger] in_cell(xs, c, x)) || (forall|c: int| !#[trigger] in_cell(ys, c, y)),
    ensures
        !covered_by(rs, x, y),
{
    if covered_by(rs, x, y) {
        let i = choose|i: int| 0 <= i < rs.len() && #[trigger] rs[i].covers(x, y);
        let r = rs[i];
        let p = choose|p: int| 0 <= p < xs.len() && xs[p] == r.raw.x1;
        let q = choose|q: int| 0 <= q < xs.len() && xs[q] == r.raw.x2;
        let u = choose|u: int| 0 <= u < ys.len() && ys[u] == r.raw.y1;
        let w = choose|w: int| 0 <= w < ys.len() && ys[w] == r.raw.y2;
        if p > q {
            assert(xs[q] < xs[p]);
        }
        if u > w {
            assert(ys[w] < ys[u]);
        }
        lemma_range_cells(xs, p, q, x);
        lemma_range_cells(ys, u, w, y);
    }
}


/// The span `[s.0, s.1)` holds `x`.
pub open spec fn span_has(s: (i32, i32), x: int) -> bool {
    s.0 <= x < s.1
}

/// Some span of `sp` holds `x`.
pub open spec fn spans_cover(sp: Seq<(i32, i32)>, x: int) -> bool {
    exists|i: int| 0 <= i < sp.len() && #[trigger] span_has(sp[i], x)
}

/// The grid cell in column `c` of the row whose lower edge is `y` belongs
/// to the combined set.
pub open spec fn cell_on(a: Seq<Rect>, b: Seq<Rect>, sub: bool, xs: Seq<i32>, y: int, c: int) -> bool {
    combine_op(covered_by(a, xs[c] as int, y), covered_by(b, xs[c] as int, y), sub)
}

pub open spec fn cell_hit(a: Seq<Rect>, b: Seq<Rect>, sub: bool, xs: Seq<i32>, y: int, c: int, x: int) -> bool {
    in_cell(xs, c, x) && cell_on(a, b, sub, xs, y, c)
}

/// Spans are non-empty, lie within the grid and are ordered with gaps
/// between them.
pub open spec fn spans_ok(sp: Seq<(i32, i32)>) -> bool {
    &&& forall|i: int| #![trigger sp[i]] 0 <= i < sp.len() ==> sp[i].0 < sp[i].1
    &&& forall|i: int, j: int| #![trigger sp[i], sp[j]] 0 <= i < j < sp.len() ==> sp[i].1 < sp[j].0
}

/// The maximal runs of combined cells along the row whose lower edge is `y`.
fn row_spans(a: &[Rect], b: &[Rect], sub: bool, xs: &Vec<i32>, y: i32) -> (sp: Vec<(i32, i32)>)
    requires
        strictly_sorted(xs@),
    ensures
        spans_ok(sp@),
        forall|x: int| spans_cover(sp@, x) <==> exists|c: int| #[trigger] cell_hit(a@, b@, sub, xs@, y as int, c, x),
{
    let mut sp: Vec<(i32, i32)> = Vec::new();
    if xs.len() < 2 {
        return sp;
    }
    let n = xs.len();
    let mut j: usize = 0;
    let mut in_run = false;
    let mut start: usize = 0;
    while j + 1 < n
        invariant
            n == xs.len(),
            n >= 2,
            strictly_sorted(xs@),
            j + 1 <= n,
            in_run ==> start < j,
            in_run ==> forall|c: int| start <= c < j ==> #[trigger] cell_on(a@, b@, sub, xs@, y as int, c),
            spans_ok(sp@),
            forall|i: int| #![trigger sp@[i]] 0 <= i < sp@.len() ==>
                sp@[i].1 < xs@[(if in_run { start } else { j }) as int],
            forall|x: int| spans_cover(sp@, x) <==> exists|c: int|
                0 <= c < (if in_run { start } else { j }) && #[trigger] cell_hit(a@, b@, sub, xs@, y as int, c, x),
        decreases n - j,
    {
        let on_a = any_covers(a, xs[j], y);
        let on_b = any_covers(b, xs[j], y);
        let on = if sub { on_a && !on_b } else { on_a || on_b };
        assert(on == cell_on(a@, b@, sub, xs@, y as int, j as int));
        if on {
            if !in_run {
                in_run = true;
                start = j;
            }
        } else if in_run {
            let ghost old_sp = sp@;
            let ghost lim = start as int;
            sp.push((xs[start], xs[j]));
            assert forall|x: int| spans_cover(sp@, x) <==> exists|c: int|
                0 <= c < j + 1 && #[trigger] cell_hit(a@, b@, sub, xs@, y as int, c, x) by {
                lemma_range_cells(xs@, start as int, j as int, x);
                if spans_cover(sp@, x) {
                    let i = choose|i: int| 0 <= i < sp@.len() && #[trigger] span_has(sp@[i], x);
                    if i < old_sp.len() {
                        assert(span_has(old_sp[i], x));
                        assert(spans_cover(old_sp, x));
                        let c = choose|c: int| 0 <= c < lim && #[trigger] cell_hit(a@, b@, sub, xs@, y as int, c, x);
                        assert(cell_hit(a@, b@, sub, xs@, y as int, c, x));
                    } else {
                        let c = choose|c: int| start <= c < j && #[trigger] in_cell(xs@, c, x);
                        assert(cell_on(a@, b@, sub, xs@, y as int, c));
                        assert(cell_hit(a@, b@, sub, xs@, y as int, c, x));
                    }
                }
                if exists|c: int| 0 <= c < j + 1 && #[trigger] cell_hit(a@, b@, sub, xs@, y as int, c, x) {
                    let c = choose|c: int| 0 <= c < j + 1 && #[trigger] cell_hit(a@, b@, sub, xs@, y as int, c, x);
                    if c < start {
                        assert(spans_cover(old_sp, x));
                        let i = choose|i: int| 0 <= i < old_sp.len() && #[trigger] span_has(old_sp[i], x);
                        assert(span_has(sp@[i], x));
                    } else {
                        assert(c != j);
                        assert(in_cell(xs@, c, x));
                        assert(span_has(sp@[old_sp.len() as int], x));
                    }
                }
            }
            in_run = false;
        } else {
            assert forall|x: int| spans_cover(sp@, x) <==> exists|c: int|
                0 <= c < j + 1 && #[trigger] cell_hit(a@, b@, sub, xs@, y as int, c, x) by {
                if exists|c: int| 0 <= c < j + 1 && #[trigger] cell_hit(a@, b@, sub, xs@, y as int, c, x) {
                    let c = choose|c: int| 0 <= c < j + 1 && #[trigger] cell_hit(a@, b@, sub, xs@, y as int, c, x);
                    assert(c != j);
                    assert(cell_hit(a@, b@, sub, xs@, y as int, c, x));
                }
            }
        }
        j = j + 1;
    }
    if in_run {
        let ghost old_sp = sp@;
        let ghost lim = start as int;
        sp.push((xs[start], xs[j]));
        assert forall|x: int| spans_cover(sp@, x) <==> exists|c: int|
            0 <= c < j && #[trigger] cell_hit(a@, b@, sub, xs@, y as int, c, x) by {
            lemma_range_cells(xs@, start as int, j as int, x);
            if spans_cover(sp@, x) {
                let i = choose|i: int| 0 <= i < sp@.len() && #[trigger] span_has(sp@[i], x);
                if i < old_sp.len() {
                    assert(span_has(old_sp[i], x));
                    assert(spans_cover(old_sp, x));
                    let c = choose|c: int| 0 <= c < lim && #[trigger] cell_hit(a@, b@, sub, xs@, y as int, c, x);
                    assert(cell_hit(a@, b@, sub, xs@, y as int, c, x));
                } else {
                    let c = choose|c: int| start <= c < j && #[trigger] in_cell(xs@, c, x);
                    assert(cell_on(a@, b@, sub, xs@, y as int, c));
                    assert(cell_hit(a@, b@, sub, xs@, y as int, c, x));
                }
            }
            if exists|c: int| 0 <= c < j && #[trigger] cell_hit(a@, b@, sub, xs@, y as int, c, x) {
                let c = choose|c: int| 0 <= c < j && #[trigger] cell_hit(a@, b@, sub, xs@, y as int, c, x);
                if c < start {
                    assert(spans_cover(old_sp, x));
                    let i = choose|i: int| 0 <= i < old_sp.len() && #[trigger] span_has(old_sp[i], x);
                    assert(span_has(sp@[i], x));
                } else {
                    assert(in_cell(xs@, c, x));
                    assert(span_has(sp@[old_sp.len() as int], x));
                }
            }
        }
    }
    assert forall|x: int| #[trigger] spans_cover(sp@, x) <==>
        exists|c: int| #[trigger] cell_hit(a@, b@, sub, xs@, y as int, c, x) by {
        if exists|c: int| #[trigger] cell_hit(a@, b@, sub, xs@, y as int, c, x) {
            let c = choose|c: int| #[trigger] cell_hit(a@, b@, sub, xs@, y as int, c, x);
            assert(0 <= c < j && cell_hit(a@, b@, sub, xs@, y as int, c, x));
        }
    }
    sp
}


/// Within row `k`, the row's spans hold `x` exactly when the combined set
/// holds `(x, y)`.
proof fn lemma_row(a: Seq<Rect>, b: Seq<Rect>, sub: bool, xs: Seq<i32>, ys: Seq<i32>, k: int, sp: Seq<(i32, i32)>, x: int, y: int)
    requires
        strictly_sorted(xs),
        strictly_sorted(ys),
        edges_in(a, xs, ys),
        edges_in(b, xs, ys),
        in_cell(ys, k, y),
        forall|x: int| spans_cover(sp, x) <==> exists|c: int| #[trigger] cell_hit(a, b, sub, xs, ys[k] as int, c, x),
    ensures
        spans_cover(sp, x) == combine_op(covered_by(a, x, y), covered_by(b, x, y), sub),
{
    if exists|c: int| #[trigger] in_cell(xs, c, x) {
        let c0 = choose|c: int| #[trigger] in_cell(xs, c, x);
        lemma_cell_uniform(a, xs, ys, c0, k, x, y);
        lemma_cell_uniform(b, xs, ys, c0, k, x, y);
        if spans_cover(sp, x) {
            let c = choose|c: int| #[trigger] cell_hit(a, b, sub, xs, ys[k] as int, c, x);
            lemma_cell_unique(xs, c, c0, x);
        }
        if combine_op(covered_by(a, x, y), covered_by(b, x, y), sub) {
            assert(cell_hit(a, b, sub, xs, ys[k] as int, c0, x));
        }
    } else {
        lemma_outside_grid(a, xs, ys, x, y);
        lemma_outside_grid(b, xs, ys, x, y);
        if spans_cover(sp, x) {
            let c = choose|c: int| #[trigger] cell_hit(a, b, sub, xs, ys[k] as int, c, x);
            assert(in_cell(xs, c, x));
        }
    }
}

/// Different well-formed span lists differ at some point.
proof fn lemma_spans_differ(p: Seq<(i32, i32)>, q: Seq<(i32, i32)>)
    requires
        spans_ok(p),
        spans_ok(q),
        p != q,
    ensures
        exists|x: int| spans_cover(p, x) != spans_cover(q, x),
    decreases p.len() + q.len(),
{
    if p.len() == 0 {
        assert(q.len() > 0) by {
            if q.len() == 0 {
                assert(p =~= q);
            }
        }
        let x = q[0].0 as int;
        assert(span_has(q[0], x));
        assert(spans_cover(q, x) != spans_cover(p, x));
    } else if q.len() == 0 {
        let x = p[0].0 as int;
        assert(span_has(p[0], x));
        assert(spans_cover(q, x) != spans_cover(p, x));
    } else if p[0] == q[0] {
        let pt = p.drop_first();
        let qt = q.drop_first();
        assert(pt != qt) by {
            if pt == qt {
                assert(p =~= seq![p[0]] + pt);
                assert(q =~= seq![q[0]] + qt);
            }
        }
        assert(spans_ok(pt)) by {
            assert forall|i: int, j: int| 0 <= i < j < pt.len() implies #[trigger] pt[i].1 < #[trigger] pt[j].0 by {
                assert(pt[i] == p[i + 1] && pt[j] == p[j + 1]);
            }
            assert forall|i: int| 0 <= i < pt.len() implies #[trigger] pt[i].0 < pt[i].1 by {
                assert(pt[i] == p[i + 1]);
            }
        }
        assert(spans_ok(qt)) by {
            assert forall|i: int, j: int| 0 <= i < j < qt.len() implies #[trigger] qt[i].1 < #[trigger] qt[j].0 by {
                assert(qt[i] == q[i + 1] && qt[j] == q[j + 1]);
            }
            assert forall|i: int| 0 <= i < qt.len() implies #[trigger] qt[i].0 < qt[i].1 by {
                assert(qt[i] == q[i + 1]);
            }
        }
        lemma_spans_differ(pt, qt);
        let x = choose|x: int| spans_cover(pt, x) != spans_cover(qt, x);
        assert(!span_has(p[0], x)) by {
            if span_has(p[0], x) {
                if spans_cover(pt, x) {
                    let i = choose|i: int| 0 <= i < pt.len() && #[trigger] span_has(pt[i], x);
                    assert(pt[i] == p[i + 1]);
                    assert(p[0].1 < p[i + 1].0);
                } else {
                    let i = choose|i: int| 0 <= i < qt.len() && #[trigger] span_has(qt[i], x);
                    assert(qt[i] == q[i + 1]);
                    assert(q[0].1 < q[i + 1].0);
                }
            }
        }
        assert(spans_cover(p, x) == spans_cover(pt, x)) by {
            if spans_cover(p, x) {
                let i = choose|i: int| 0 <= i < p.len() && #[trigger] span_has(p[i], x);
                assert(i > 0);
                assert(span_has(pt[i - 1], x));
            }
            if spans_cover(pt, x) {
                let i = choose|i: int| 0 <= i < pt.len() && #[trigger] span_has(pt[i], x);
                assert(span_has(p[i + 1], x));
            }
        }
        assert(spans_cover(q, x) == spans_cover(qt, x)) by {
            if spans_cover(q, x) {
                let i = choose|i: int| 0 <= i < q.len() && #[trigger] span_has(q[i], x);
                assert(i > 0);
                assert(span_has(qt[i - 1], x));
            }
            if spans_cover(qt, x) {
                let i = choose|i: int| 0 <= i < qt.len() && #[trigger] span_has(qt[i], x);
                assert(span_has(q[i + 1], x));
            }
        }
    } else {
        let (a, b) = (p[0], q[0]);
        if a.0 != b.0 {
            let (u, w) = if a.0 < b.0 { (p, q) } else { (q, p) };
            let x = u[0].0 as int;
            assert(span_has(u[0], x));
            assert(!spans_cover(w, x)) by {
                if spans_cover(w, x) {
                    let i = choose|i: int| 0 <= i < w.len() && #[trigger] span_has(w[i], x);
                    if i > 0 {
                        assert(w[0].1 < w[i].0);
                    }
                }
            }
            assert(spans_cover(u, x));
        } else {
            assert(a.1 != b.1);
            let (u, w) = if a.1 < b.1 { (p, q) } else { (q, p) };
            let x = u[0].1 as int;
            assert(span_has(w[0], x));
            assert(!spans_cover(u, x)) by {
                if spans_cover(u, x) {
                    let i = choose|i: int| 0 <= i < u.len() && #[trigger] span_has(u[i], x);
                    if i > 0 {
                        assert(u[0].1 < u[i].0);
                    }
                }
            }
            assert(spans_cover(w, x));
        }
    }
}

/// A horizontal band `[y1, y2)` holding the same spans on every row.
struct Band {
    y1: i32,
    y2: i32,
    spans: Vec<(i32, i32)>,
}

spec fn band_has(bd: Band, x: int, y: int) -> bool {
    bd.y1 <= y < bd.y2 && spans_cover(bd.spans@, x)
}

spec fn bands_cover(bs: Seq<Band>, x: int, y: int) -> bool {
    exists|i: int| 0 <= i < bs.len() && #[trigger] band_has(bs[i], x, y)
}

fn same_spans(p: &Vec<(i32, i32)>, q: &Vec<(i32, i32)>) -> (r: bool)
    ensures
        r == (p@ == q@),
{
    if p.len() != q.len() {
        return false;
    }
    let mut i: usize = 0;
    while i < p.len()
        invariant
            i <= p.len(),
            p.len() == q.len(),
            forall|k: int| 0 <= k < i ==> p@[k] == q@[k],
        decreases p.len() - i,
    {
        if p[i].0 != q[i].0 || p[i].1 != q[i].1 {
            return false;
        }
        i = i + 1;
    }
    assert(p@ =~= q@);
    true
}


spec fn bands_ok(bs: Seq<Band>, top: int) -> bool {
    &&& forall|i: int| #![trigger bs[i]] 0 <= i < bs.len() ==> {
        &&& bs[i].y1 < bs[i].y2 <= top
        &&& spans_ok(bs[i].spans@)
        &&& bs[i].spans@.len() > 0
    }
    &&& forall|i: int, j: int| #![trigger bs[i], bs[j]] 0 <= i < j < bs.len() ==> bs[i].y2 <= bs[j].y1
}

/// Touching bands carry different spans (equal neighbours are merged).
spec fn coalesced(bs: Seq<Band>) -> bool {
    forall|i: int| #![trigger bs[i]] 0 <= i < bs.len() - 1 ==> (bs[i].y2 == bs[i + 1].y1 ==> bs[i].spans@ != bs[i + 1].spans@)
}

/// A row inside band `q` holds exactly the band's spans.
proof fn lemma_row_of_band(bs: Seq<Band>, top: int, q: int, x: int, y: int)
    requires
        bands_ok(bs, top),
        0 <= q < bs.len(),
        bs[q].y1 <= y < bs[q].y2,
    ensures
        bands_cover(bs, x, y) == spans_cover(bs[q].spans@, x),
{
    if bands_cover(bs, x, y) {
        let i = choose|i: int| 0 <= i < bs.len() && #[trigger] band_has(bs[i], x, y);
        if i < q {
            assert(bs[i].y2 <= bs[q].y1);
        } else if i > q {
            assert(bs[q].y2 <= bs[i].y1);
        }
    }
    if spans_cover(bs[q].spans@, x) {
        assert(band_has(bs[q], x, y));
    }
}

/// A row outside every band holds nothing.
proof fn lemma_row_outside(bs: Seq<Band>, x: int, y: int)
    requires
        forall|q: int| 0 <= q < bs.len() ==> !(#[trigger] bs[q].y1 <= y && y < bs[q].y2),
    ensures
        !bands_cover(bs, x, y),
{
    if bands_cover(bs, x, y) {
        let i = choose|i: int| 0 <= i < bs.len() && #[trigger] band_has(bs[i], x, y);
        assert(!(bs[i].y1 <= y && y < bs[i].y2));
    }
}

/// A band's spans hold some point.
proof fn lemma_band_nonempty(bs: Seq<Band>, top: int, q: int)
    requires
        bands_ok(bs, top),
        0 <= q < bs.len(),
    ensures
        spans_cover(bs[q].spans@, bs[q].spans@[0].0 as int),
{
    assert(span_has(bs[q].spans@[0], bs[q].spans@[0].0 as int));
}

/// The row just above a band, and the row just below it, differ from the
/// band's own rows.
proof fn lemma_band_edges(bs: Seq<Band>, top: int, q: int)
    requires
        bands_ok(bs, top),
        coalesced(bs),
        0 <= q < bs.len(),
    ensures
        exists|x: int| bands_cover(bs, x, bs[q].y1 - 1) != bands_cover(bs, x, bs[q].y1 as int),
        exists|x: int| bands_cover(bs, x, bs[q].y2 - 1) != bands_cover(bs, x, bs[q].y2 as int),
{
    let b = bs[q];
    lemma_band_nonempty(bs, top, q);
    let x0 = b.spans@[0].0 as int;
    // the upper edge
    if q > 0 && bs[q - 1].y2 == b.y1 {
        assert(bs[q - 1].spans@ != b.spans@);
        lemma_spans_differ(bs[q - 1].spans@, b.spans@);
        let x = choose|x: int| spans_cover(bs[q - 1].spans@, x) != spans_cover(b.spans@, x);
        lemma_row_of_band(bs, top, q - 1, x, b.y1 - 1);
        lemma_row_of_band(bs, top, q, x, b.y1 as int);
        assert(bands_cover(bs, x, b.y1 - 1) != bands_cover(bs, x, b.y1 as int));
    } else {
        assert forall|i: int| 0 <= i < bs.len() implies !(#[trigger] bs[i].y1 <= b.y1 - 1 && b.y1 - 1 < bs[i].y2) by {
            if i < q {
                if i < q - 1 {
                    assert(bs[i].y2 <= bs[q - 1].y1);
                }
                assert(bs[q - 1].y2 <= b.y1);
            }
        }
        lemma_row_outside(bs, x0, b.y1 - 1);
        lemma_row_of_band(bs, top, q, x0, b.y1 as int);
        assert(bands_cover(bs, x0, b.y1 - 1) != bands_cover(bs, x0, b.y1 as int));
    }
    // the lower edge
    if q + 1 < bs.len() && bs[q + 1].y1 == b.y2 {
        assert(b.spans@ != bs[q + 1].spans@);
        lemma_spans_differ(b.spans@, bs[q + 1].spans@);
        let x = choose|x: int| spans_cover(b.spans@, x) != spans_cover(bs[q + 1].spans@, x);
        lemma_row_of_band(bs, top, q, x, b.y2 - 1);
        lemma_row_of_band(bs, top, q + 1, x, b.y2 as int);
        assert(bands_cover(bs, x, b.y2 - 1) != bands_cover(bs, x, b.y2 as int));
    } else {
        assert forall|i: int| 0 <= i < bs.len() implies !(#[trigger] bs[i].y1 <= b.y2 && b.y2 < bs[i].y2) by {
            if i > q {
                if i > q + 1 {
                    assert(bs[q + 1].y2 <= bs[i].y1);
                }
                assert(b.y2 <= bs[q + 1].y1);
            }
        }
        lemma_row_outside(bs, x0, b.y2 as int);
        lemma_row_of_band(bs, top, q, x0, b.y2 - 1);
        assert(bands_cover(bs, x0, b.y2 - 1) != bands_cover(bs, x0, b.y2 as int));
    }
}

/// Bands covering exactly the points of the combined set, rows merged when
/// neighbouring rows carry the same spans.
fn combine_bands(a: &[Rect], b: &[Rect], sub: bool) -> (bs: Vec<Band>)
    ensures
        bands_ok(bs@, i32::MAX as int),
        coalesced(bs@),
        forall|x: int, y: int| #[trigger] bands_cover(bs@, x, y)
            == combine_op(covered_by(a@, x, y), covered_by(b@, x, y), sub),
{
    let (xs, ys) = collect_edges(a, b);
    let mut bands: Vec<Band> = Vec::new();
    if ys.len() < 2 {
        assert forall|x: int, y: int| #[trigger] bands_cover(bands@, x, y)
            == combine_op(covered_by(a@, x, y), covered_by(b@, x, y), sub) by {
            lemma_outside_grid(a@, xs@, ys@, x, y);
            lemma_outside_grid(b@, xs@, ys@, x, y);
        }
        return bands;
    }
    let m = ys.len();
    let mut k: usize = 0;
    while k + 1 < m
        invariant
            m == ys.len(),
            m >= 2,
            k + 1 <= m,
            strictly_sorted(xs@),
            strictly_sorted(ys@),
            edges_in(a@, xs@, ys@),
            edges_in(b@, xs@, ys@),
            bands_ok(bands@, ys@[k as int] as int),
            coalesced(bands@),
            forall|x: int, y: int| #[trigger] bands_cover(bands@, x, y)
                == (y < ys@[k as int] && combine_op(covered_by(a@, x, y), covered_by(b@, x, y), sub)),
        decreases m - k,
    {
        let sp = row_spans(a, b, sub, &xs, ys[k]);
        let ghost old_bands = bands@;
        let y1 = ys[k];
        let y2 = ys[k + 1];
        assert(y1 < y2);
        if sp.len() > 0 {
            let mut merged = false;
            if bands.len() > 0 {
                let last_i = bands.len() - 1;
                if bands[last_i].y2 == y1 && same_spans(&bands[last_i].spans, &sp) {
                    let mut last = bands.pop().unwrap();
                    last.y2 = y2;
                    bands.push(last);
                    merged = true;
                }
            }
            if !merged {
                bands.push(Band { y1, y2, spans: sp });
            }
            assert(coalesced(bands@)) by {
                let n = bands@.len();
                assert forall|i: int| #![trigger bands@[i]] 0 <= i < n - 1 implies (bands@[i].y2 == bands@[i + 1].y1 ==> bands@[i].spans@ != bands@[i + 1].spans@) by {
                    if i < n - 2 {
                        assert(bands@[i] == old_bands[i]);
                        assert(bands@[i + 1] == old_bands[i + 1]);
                    } else if merged {
                        assert(bands@[i] == old_bands[i]);
                        assert(bands@[i + 1].y1 == old_bands[i + 1].y1);
                        assert(bands@[i + 1].spans@ == old_bands[i + 1].spans@);
                    } else {
                        assert(bands@[i] == old_bands[i]);
                    }
                }
            }
            let ghost last = bands@[bands@.len() - 1];
            assert(last.y1 <= y1 && last.y2 == y2 && last.spans@ == sp@);
            assert(merged ==> last.y1 < y1);
            assert(forall|i: int| 0 <= i < bands@.len() - 1 ==> bands@[i] == old_bands[i]);
            assert(bands@.len() == old_bands.len() || bands@.len() == old_bands.len() + 1);
            assert forall|x: int, y: int| #[trigger] bands_cover(bands@, x, y)
                == (y < y2 && combine_op(covered_by(a@, x, y), covered_by(b@, x, y), sub)) by {
                assert(bands_cover(old_bands, x, y) == (y < y1 && combine_op(covered_by(a@, x, y), covered_by(b@, x, y), sub)));
                if y1 <= y < y2 {
                    lemma_row(a@, b@, sub, xs@, ys@, k as int, sp@, x, y);
                }
                if bands_cover(bands@, x, y) {
                    let i = choose|i: int| 0 <= i < bands@.len() && #[trigger] band_has(bands@[i], x, y);
                    if i < bands@.len() - 1 {
                        assert(band_has(old_bands[i], x, y));
                    } else if merged && y < y1 {
                        assert(band_has(old_bands[i], x, y));
                    }
                }
                if y < y2 && combine_op(covered_by(a@, x, y), covered_by(b@, x, y), sub) {
                    if y < y1 {
                        let i = choose|i: int| 0 <= i < old_bands.len() && #[trigger] band_has(old_bands[i], x, y);
                        if i < old_bands.len() - 1 || !merged {
                            assert(band_has(bands@[i], x, y));
                        } else {
                            assert(band_has(bands@[bands@.len() - 1], x, y));
                        }
                    } else if y < y1 {
                    } else {
                        assert(band_has(bands@[bands@.len() - 1], x, y));
                    }
                }
            }
        } else {
            assert forall|x: int, y: int| #[trigger] bands_cover(bands@, x, y)
                == (y < y2 && combine_op(covered_by(a@, x, y), covered_by(b@, x, y), sub)) by {
                if y1 <= y < y2 {
                    lemma_row(a@, b@, sub, xs@, ys@, k as int, sp@, x, y);
                }
            }
        }
        k = k + 1;
    }
    assert forall|x: int, y: int| #[trigger] bands_cover(bands@, x, y)
        == combine_op(covered_by(a@, x, y), covered_by(b@, x, y), sub) by {
        if y >= ys@[k as int] {
            assert forall|c: int| !#[trigger] in_cell(ys@, c, y) by {
                if 0 <= c && c + 1 < ys@.len() {
                    assert(ys@[c + 1] <= ys@[k as int]);
                }
            }
            lemma_outside_grid(a@, xs@, ys@, x, y);
            lemma_outside_grid(b@, xs@, ys@, x, y);
        }
    }
    bands
}


/// Every rectangle is well ordered and has area.
pub open spec fn all_solid(rs: Seq<Rect>) -> bool {
    forall|i: int| #![trigger rs[i]] 0 <= i < rs.len() ==> rs[i].raw.x1 < rs[i].raw.x2 && rs[i].raw.y1 < rs[i].raw.y2
}

/// Rectangles come in bands ordered top to bottom; inside a band they share
/// their vertical extent and are ordered left to right with gaps between.
pub open spec fn band_ordered(rs: Seq<Rect>) -> bool {
    forall|i: int, j: int|
        #![trigger rs[i], rs[j]]
        0 <= i < j < rs.len() ==> (rs[i].raw.y2 <= rs[j].raw.y1 || (rs[i].raw.y1 == rs[j].raw.y1
            && rs[i].raw.y2 == rs[j].raw.y2 && rs[i].raw.x2 < rs[j].raw.x1))
}

/// The rows just above and at height `y` hold different points.
pub open spec fn row_changes(rs: Seq<Rect>, y: int) -> bool {
    exists|x: int| covered_by(rs, x, y - 1) != covered_by(rs, x, y)
}

/// Bands are as tall as they can be: at the top and at the bottom edge of
/// every rectangle the set of points changes from one row to the next.
pub open spec fn bands_maximal(rs: Seq<Rect>) -> bool {
    forall|i: int| #![trigger rs[i]] 0 <= i < rs.len() ==> row_changes(rs, rs[i].raw.y1 as int) && row_changes(rs, rs[i].raw.y2 as int)
}

/// Rectangles laid out band by band from coalesced bands sit where the
/// points change from one row to the next.
proof fn lemma_rects_maximal(out: Seq<Rect>, bands: Seq<Band>, band_of: Seq<int>)
    requires
        bands_ok(bands, i32::MAX as int),
        coalesced(bands),
        forall|x: int, y: int| #[trigger] covered_by(out, x, y) == bands_cover(bands, x, y),
        band_of.len() == out.len(),
        forall|t: int| 0 <= t < out.len() ==> 0 <= #[trigger] band_of[t] < bands.len()
            && out[t].raw.y1 == bands[band_of[t]].y1 && out[t].raw.y2 == bands[band_of[t]].y2,
    ensures
        bands_maximal(out),
{
    assert forall|t: int| #![trigger out[t]] 0 <= t < out.len() implies row_changes(out, out[t].raw.y1 as int) && row_changes(out, out[t].raw.y2 as int) by {
        let q = band_of[t];
        lemma_band_edges(bands, i32::MAX as int, q);
        let x1 = choose|x: int| bands_cover(bands, x, bands[q].y1 - 1) != bands_cover(bands, x, bands[q].y1 as int);
        let x2 = choose|x: int| bands_cover(bands, x, bands[q].y2 - 1) != bands_cover(bands, x, bands[q].y2 as int);
        assert(covered_by(out, x1, bands[q].y1 - 1) != covered_by(out, x1, bands[q].y1 as int));
        assert(covered_by(out, x2, bands[q].y2 - 1) != covered_by(out, x2, bands[q].y2 as int));
    }
}

/// The union (or, when `sub`, the difference) of two rectangle lists as a
/// list of solid rectangles, band by band from top to bottom and left to
/// right within a band.
pub fn combine(a: &[Rect], b: &[Rect], sub: bool) -> (out: Vec<Rect>)
    ensures
        all_solid(out@),
        band_ordered(out@),
        bands_maximal(out@),
        forall|x: int, y: int| #[trigger] covered_by(out@, x, y)
            == combine_op(covered_by(a@, x, y), covered_by(b@, x, y), sub),
{
    let bands = combine_bands(a, b, sub);
    let mut out: Vec<Rect> = Vec::new();
    let ghost mut band_of: Seq<int> = Seq::empty();
    let mut i: usize = 0;
    while i < bands.len()
        invariant
            i <= bands.len(),
            bands_ok(bands@, i32::MAX as int),
            all_solid(out@),
            band_ordered(out@),
            forall|t: int, q: int| 0 <= t < out@.len() && i <= q < bands@.len() ==> #[trigger] out@[t].raw.y2 <= #[trigger] bands@[q].y1,
            forall|x: int, y: int| #[trigger] covered_by(out@, x, y) == bands_cover(bands@.take(i as int), x, y),
            band_of.len() == out@.len(),
            forall|t: int| 0 <= t < out@.len() ==> 0 <= #[trigger] band_of[t] < bands@.len()
                && out@[t].raw.y1 == bands@[band_of[t]].y1 && out@[t].raw.y2 == bands@[band_of[t]].y2,
        decreases bands.len() - i,
    {
        let bd = &bands[i];
        let ghost before_i = out@;
        let mut j: usize = 0;
        while j < bd.spans.len()
            invariant
                i < bands.len(),
                *bd == bands@[i as int],
                j <= bd.spans.len(),
                bands_ok(bands@, i32::MAX as int),
                all_solid(out@),
                band_ordered(out@),
                out@.len() == before_i.len() + j,
                forall|t: int| 0 <= t < before_i.len() ==> #[trigger] out@[t] == before_i[t],
                forall|t: int| before_i.len() <= t < out@.len() ==> #[trigger] out@[t] == (Rect { raw: RectRaw {
                    x1: bd.spans@[t - before_i.len()].0, y1: bd.y1, x2: bd.spans@[t - before_i.len()].1, y2: bd.y2 } }),
                forall|t: int| 0 <= t < before_i.len() ==> #[trigger] before_i[t].raw.y2 <= bd.y1,
                forall|t: int, q: int| 0 <= t < before_i.len() && i <= q < bands@.len() ==> #[trigger] before_i[t].raw.y2 <= #[trigger] bands@[q].y1,
                band_of.len() == out@.len(),
                forall|t: int| 0 <= t < out@.len() ==> 0 <= #[trigger] band_of[t] < bands@.len()
                    && out@[t].raw.y1 == bands@[band_of[t]].y1 && out@[t].raw.y2 == bands@[band_of[t]].y2,
                forall|x: int, y: int| #[trigger] covered_by(out@, x, y) ==
                    (covered_by(before_i, x, y) || (bd.y1 <= y < bd.y2 && spans_cover(bd.spans@.take(j as int), x))),
            decreases bd.spans.len() - j,
        {
            let s = bd.spans[j];
            let ghost prev = out@;
            out.push(Rect { raw: RectRaw { x1: s.0, y1: bd.y1, x2: s.1, y2: bd.y2 } });
            proof {
                let ghost bo = band_of;
                band_of = band_of.push(i as int);
                assert forall|t: int| 0 <= t < out@.len() implies 0 <= #[trigger] band_of[t] < bands@.len()
                    && out@[t].raw.y1 == bands@[band_of[t]].y1 && out@[t].raw.y2 == bands@[band_of[t]].y2 by {
                    if t < out@.len() - 1 {
                        assert(band_of[t] == bo[t]);
                        assert(out@[t] == prev[t]);
                    }
                }
            }
            assert(spans_ok(bd.spans@));
            assert forall|p: int, q: int| 0 <= p < q < out@.len() implies #[trigger] out@[p].raw.y2 <= #[trigger] out@[q].raw.y1 || (out@[p].raw.y1 == out@[q].raw.y1
                && out@[p].raw.y2 == out@[q].raw.y2 && out@[p].raw.x2 < out@[q].raw.x1) by {
                if q == out@.len() - 1 {
                    if p < before_i.len() {
                        assert(before_i[p].raw.y2 <= bd.y1);
                    } else {
                        let pp = p - before_i.len();
                        assert(bd.spans@[pp].1 < bd.spans@[j as int].0);
                    }
                } else {
                    assert(prev[p] == out@[p] && prev[q] == out@[q]);
                }
            }
            assert forall|x: int, y: int| #[trigger] covered_by(out@, x, y) ==
                (covered_by(before_i, x, y) || (bd.y1 <= y < bd.y2 && spans_cover(bd.spans@.take(j + 1), x))) by {
                assert(bd.spans@.take(j + 1)[j as int] == s);
                if covered_by(out@, x, y) {
                    let t = choose|t: int| 0 <= t < out@.len() && #[trigger] out@[t].covers(x, y);
                    if t < prev.len() {
                        assert(prev[t].covers(x, y));
                        assert(covered_by(prev, x, y));
                        if !covered_by(before_i, x, y) {
                            let q = choose|q: int| 0 <= q < j && #[trigger] span_has(bd.spans@.take(j as int)[q], x);
                            assert(span_has(bd.spans@.take(j + 1)[q], x));
                        }
                    } else {
                        assert(span_has(bd.spans@.take(j + 1)[j as int], x));
                    }
                }
                if covered_by(before_i, x, y) {
                    assert(covered_by(prev, x, y));
                    let t = choose|t: int| 0 <= t < prev.len() && #[trigger] prev[t].covers(x, y);
                    assert(out@[t].covers(x, y));
                } else if bd.y1 <= y < bd.y2 && spans_cover(bd.spans@.take(j + 1), x) {
                    let q = choose|q: int| 0 <= q < j + 1 && #[trigger] span_has(bd.spans@.take(j + 1)[q], x);
                    if q < j {
                        assert(span_has(bd.spans@.take(j as int)[q], x));
                        assert(covered_by(prev, x, y));
                        let t = choose|t: int| 0 <= t < prev.len() && #[trigger] prev[t].covers(x, y);
                        assert(out@[t].covers(x, y));
                    } else {
                        assert(out@[out@.len() - 1].covers(x, y));
                    }
                }
            }
            j = j + 1;
        }
        assert(bd.spans@.take(j as int) == bd.spans@);
        assert forall|t: int, q: int| 0 <= t < out@.len() && i + 1 <= q < bands@.len() implies #[trigger] out@[t].raw.y2 <= #[trigger] bands@[q].y1 by {
            assert(bands@[i as int].y2 <= bands@[q].y1);
            if t < before_i.len() {
                assert(before_i[t].raw.y2 <= bd.y1);
            }
        }
        assert forall|x: int, y: int| #[trigger] covered_by(out@, x, y) == bands_cover(bands@.take(i + 1), x, y) by {
            let tk = bands@.take(i + 1);
            assert(tk[i as int] == *bd);
            if bands_cover(tk, x, y) {
                let q = choose|q: int| 0 <= q < tk.len() && #[trigger] band_has(tk[q], x, y);
                if q < i {
                    assert(band_has(bands@.take(i as int)[q], x, y));
                }
            }
            if bands_cover(bands@.take(i as int), x, y) {
                let q = choose|q: int| 0 <= q < i && #[trigger] band_has(bands@.take(i as int)[q], x, y);
                assert(band_has(tk[q], x, y));
            }
            if band_has(*bd, x, y) {
                assert(band_has(tk[i as int], x, y));
            }
        }
        i = i + 1;
    }
    assert(bands@.take(bands.len() as int) == bands@);
    proof {
        let bs = bands@;
        assert(bs.take(bs.len() as int) =~= bs);
        assert forall|x: int, y: int| #[trigger] covered_by(out@, x, y) == bands_cover(bs, x, y) by {
            assert(covered_by(out@, x, y) == bands_cover(bs.take(i as int), x, y));
        }
        lemma_rects_maximal(out@, bs, band_of);
    }
    out
}


/// Bounding box of a rectangle list (all zero for an empty list).
pub open spec fn bbox(rs: Seq<Rect>) -> Rect
    decreases rs.len(),
{
    if rs.len() == 0 {
        Rect { raw: RectRaw { x1: 0, y1: 0, x2: 0, y2: 0 } }
    } else if rs.len() == 1 {
        rs[0]
    } else {
        bbox(rs.drop_last()).hull(rs.last())
    }
}

/// `r`'s edges lie within `e`.
pub open spec fn within(r: Rect, e: Rect) -> bool {
    e.raw.x1 <= r.raw.x1 && r.raw.x2 <= e.raw.x2 && e.raw.y1 <= r.raw.y1 && r.raw.y2 <= e.raw.y2
}

proof fn lemma_bbox_holds(rs: Seq<Rect>)
    requires
        rs.len() > 0,
    ensures
        forall|i: int| 0 <= i < rs.len() ==> #[trigger] within(rs[i], bbox(rs)),
    decreases rs.len(),
{
    if rs.len() > 1 {
        lemma_bbox_holds(rs.drop_last());
        assert forall|i: int| 0 <= i < rs.len() implies #[trigger] within(rs[i], bbox(rs)) by {
            if i < rs.len() - 1 {
                assert(within(rs.drop_last()[i], bbox(rs.drop_last())));
            }
        }
    }
}

/// The bounding box of the rectangles: it holds every one of them, and is
/// all zero when there are none.
pub fn extents(rs: &[Rect]) -> (e: Rect)
    ensures
        e == bbox(rs@),
        rs@.len() > 0 ==> forall|i: int| 0 <= i < rs@.len() ==> #[trigger] within(rs@[i], e),
{
    if rs.len() == 0 {
        return Rect { raw: RectRaw { x1: 0, y1: 0, x2: 0, y2: 0 } };
    }
    let mut acc = rs[0];
    let mut i: usize = 1;
    assert(rs@.take(1) =~= seq![rs@[0]]);
    while i < rs.len()
        invariant
            1 <= i <= rs.len(),
            acc == bbox(rs@.take(i as int)),
        decreases rs.len() - i,
    {
        acc = acc.union(rs[i]);
        assert(rs@.take(i + 1).drop_last() == rs@.take(i as int));
        i = i + 1;
    }
    assert(rs@.take(rs.len() as int) == rs@);
    proof {
        lemma_bbox_holds(rs@);
    }
    acc
}

/// `e` is the tightest box around the points of `rs`: it holds every one
/// of them, and each of its four edges touches one.
pub open spec fn frames_points(rs: Seq<Rect>, e: Rect) -> bool {
    &&& forall|x: int, y: int| #[trigger] covered_by(rs, x, y) ==> e.covers(x, y)
    &&& exists|y: int| #[trigger] covered_by(rs, e.raw.x1 as int, y)
    &&& exists|y: int| #[trigger] covered_by(rs, e.raw.x2 - 1, y)
    &&& exists|x: int| #[trigger] covered_by(rs, x, e.raw.y1 as int)
    &&& exists|x: int| #[trigger] covered_by(rs, x, e.raw.y2 - 1)
}

/// The bounding box of solid rectangles is the tightest box around their
/// points.
pub proof fn lemma_bbox_frames(rs: Seq<Rect>)
    requires
        rs.len() > 0,
        all_solid(rs),
    ensures
        frames_points(rs, bbox(rs)),
    decreases rs.len(),
{
    let b = bbox(rs);
    if rs.len() == 1 {
        let q = rs[0];
        assert forall|x: int, y: int| #[trigger] covered_by(rs, x, y) implies b.covers(x, y) by {
            let i = choose|i: int| 0 <= i < rs.len() && #[trigger] rs[i].covers(x, y);
        }
        assert(q.covers(q.raw.x1 as int, q.raw.y1 as int));
        assert(covered_by(rs, q.raw.x1 as int, q.raw.y1 as int));
        assert(q.covers(q.raw.x2 - 1, q.raw.y2 - 1));
        assert(covered_by(rs, q.raw.x2 - 1, q.raw.y2 - 1));
        assert(rs[0].covers(q.raw.x2 - 1, q.raw.y1 as int));
        assert(covered_by(rs, q.raw.x2 - 1, q.raw.y1 as int));
        assert(rs[0].covers(q.raw.x1 as int, q.raw.y2 - 1));
        assert(covered_by(rs, q.raw.x1 as int, q.raw.y2 - 1));
    } else {
        let p = rs.drop_last();
        let q = rs.last();
        let pb = bbox(p);
        assert(all_solid(p)) by {
            assert forall|i: int| 0 <= i < p.len() implies p[i].raw.x1 < p[i].raw.x2 && p[i].raw.y1 < p[i].raw.y2 by {
                assert(p[i] == rs[i]);
            }
        }
        lemma_bbox_frames(p);
        assert(q == rs[rs.len() - 1]);
        assert forall|x: int, y: int| covered_by(p, x, y) implies #[trigger] covered_by(rs, x, y) by {
            let i = choose|i: int| 0 <= i < p.len() && #[trigger] p[i].covers(x, y);
            assert(rs[i] == p[i]);
        }
        assert forall|x: int, y: int| #[trigger] covered_by(rs, x, y) implies b.covers(x, y) by {
            let i = choose|i: int| 0 <= i < rs.len() && #[trigger] rs[i].covers(x, y);
            if i < p.len() {
                assert(p[i] == rs[i]);
                assert(covered_by(p, x, y));
            }
        }
        assert(q.covers(q.raw.x1 as int, q.raw.y1 as int));
        assert(q.covers(q.raw.x2 - 1, q.raw.y2 - 1));
        assert(covered_by(rs, q.raw.x1 as int, q.raw.y1 as int));
        assert(covered_by(rs, q.raw.x2 - 1, q.raw.y2 - 1));
        assert(rs[rs.len() - 1].covers(q.raw.x2 - 1, q.raw.y1 as int));
        assert(covered_by(rs, q.raw.x2 - 1, q.raw.y1 as int));
        assert(rs[rs.len() - 1].covers(q.raw.x1 as int, q.raw.y2 - 1));
        assert(covered_by(rs, q.raw.x1 as int, q.raw.y2 - 1));
        let wy1 = choose|y: int| #[trigger] covered_by(p, pb.raw.x1 as int, y);
        let wy2 = choose|y: int| #[trigger] covered_by(p, pb.raw.x2 - 1, y);
        let wx1 = choose|x: int| #[trigger] covered_by(p, x, pb.raw.y1 as int);
        let wx2 = choose|x: int| #[trigger] covered_by(p, x, pb.raw.y2 - 1);
        assert(covered_by(rs, pb.raw.x1 as int, wy1));
        assert(covered_by(rs, pb.raw.x2 - 1, wy2));
        assert(covered_by(rs, wx1, pb.raw.y1 as int));
        assert(covered_by(rs, wx2, pb.raw.y2 - 1));
        if pb.raw.x1 <= q.raw.x1 {
            assert(covered_by(rs, b.raw.x1 as int, wy1));
        } else {
            assert(covered_by(rs, b.raw.x1 as int, q.raw.y1 as int));
        }
        if pb.raw.x2 >= q.raw.x2 {
            assert(covered_by(rs, b.raw.x2 - 1, wy2));
        } else {
            assert(covered_by(rs, b.raw.x2 - 1, q.raw.y1 as int));
        }
        if pb.raw.y1 <= q.raw.y1 {
            assert(covered_by(rs, wx1, b.raw.y1 as int));
        } else {
            assert(covered_by(rs, q.raw.x1 as int, b.raw.y1 as int));
        }
        if pb.raw.y2 >= q.raw.y2 {
            assert(covered_by(rs, wx2, b.raw.y2 - 1));
        } else {
            assert(covered_by(rs, q.raw.x1 as int, b.raw.y2 - 1));
        }
    }
}

/// Two lists with the same points have the same tightest box.
pub proof fn lemma_frames_unique(a: Seq<Rect>, ea: Rect, b: Seq<Rect>, eb: Rect)
    requires
        frames_points(a, ea),
        frames_points(b, eb),
        forall|x: int, y: int| #[trigger] covered_by(a, x, y) == covered_by(b, x, y),
    ensures
        ea == eb,
{
    let ay1 = choose|y: int| #[trigger] covered_by(a, ea.raw.x1 as int, y);
    let ay2 = choose|y: int| #[trigger] covered_by(a, ea.raw.x2 - 1, y);
    let ax1 = choose|x: int| #[trigger] covered_by(a, x, ea.raw.y1 as int);
    let ax2 = choose|x: int| #[trigger] covered_by(a, x, ea.raw.y2 - 1);
    let by1 = choose|y: int| #[trigger] covered_by(b, eb.raw.x1 as int, y);
    let by2 = choose|y: int| #[trigger] covered_by(b, eb.raw.x2 - 1, y);
    let bx1 = choose|x: int| #[trigger] covered_by(b, x, eb.raw.y1 as int);
    let bx2 = choose|x: int| #[trigger] covered_by(b, x, eb.raw.y2 - 1);
    assert(covered_by(b, ea.raw.x1 as int, ay1));
    assert(covered_by(b, ea.raw.x2 - 1, ay2));
    assert(covered_by(b, ax1, ea.raw.y1 as int));
    assert(covered_by(b, ax2, ea.raw.y2 - 1));
    assert(covered_by(a, eb.raw.x1 as int, by1));
    assert(covered_by(a, eb.raw.x2 - 1, by2));
    assert(covered_by(a, bx1, eb.raw.y1 as int));
    assert(covered_by(a, bx2, eb.raw.y2 - 1));
    assert(ea.raw == eb.raw);
}

/// The hull of the tightest boxes of two point sets is the tightest box of
/// their union.
pub proof fn lemma_hull_frames(a: Seq<Rect>, ea: Rect, b: Seq<Rect>, eb: Rect, c: Seq<Rect>)
    requires
        frames_points(a, ea),
        frames_points(b, eb),
        forall|x: int, y: int| #[trigger] covered_by(c, x, y) == (covered_by(a, x, y) || covered_by(b, x, y)),
    ensures
        frames_points(c, ea.hull(eb)),
{
    let h = ea.hull(eb);
    assert forall|x: int, y: int| #[trigger] covered_by(c, x, y) implies h.covers(x, y) by {
        if covered_by(a, x, y) {
            assert(ea.covers(x, y));
        } else {
            assert(eb.covers(x, y));
        }
    }
    let ay1 = choose|y: int| #[trigger] covered_by(a, ea.raw.x1 as int, y);
    let ay2 = choose|y: int| #[trigger] covered_by(a, ea.raw.x2 - 1, y);
    let ax1 = choose|x: int| #[trigger] covered_by(a, x, ea.raw.y1 as int);
    let ax2 = choose|x: int| #[trigger] covered_by(a, x, ea.raw.y2 - 1);
    let by1 = choose|y: int| #[trigger] covered_by(b, eb.raw.x1 as int, y);
    let by2 = choose|y: int| #[trigger] covered_by(b, eb.raw.x2 - 1, y);
    let bx1 = choose|x: int| #[trigger] covered_by(b, x, eb.raw.y1 as int);
    let bx2 = choose|x: int| #[trigger] covered_by(b, x, eb.raw.y2 - 1);
    if ea.raw.x1 <= eb.raw.x1 {
        assert(covered_by(c, h.raw.x1 as int, ay1));
    } else {
        assert(covered_by(c, h.raw.x1 as int, by1));
    }
    if ea.raw.x2 >= eb.raw.x2 {
        assert(covered_by(c, h.raw.x2 - 1, ay2));
    } else {
        assert(covered_by(c, h.raw.x2 - 1, by2));
    }
    if ea.raw.y1 <= eb.raw.y1 {
        assert(covered_by(c, ax1, h.raw.y1 as int));
    } else {
        assert(covered_by(c, bx1, h.raw.y1 as int));
    }
    if ea.raw.y2 >= eb.raw.y2 {
        assert(covered_by(c, ax2, h.raw.y2 - 1));
    } else {
        assert(covered_by(c, bx2, h.raw.y2 - 1));
    }
}

} // verus!
