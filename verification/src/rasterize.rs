//! The scanline rasterizer: triangles and point sprites to samples.
//!
//! A triangle is walked row by row. Each edge is followed by a point that
//! starts on the first whole row at or below the edge's upper end and moves
//! by a fixed step per row; between the two edge points of a row, a third
//! point moves by a fixed step per column. Every sample is therefore the
//! seed of its walk plus a whole multiple of that walk's step.

use crate::axis::{P, S, T, X, Y};
use crate::fixed::{
    clamp, lemma_ceil, lemma_div_self, lemma_mul_one, lemma_mul_zero, lemma_zero_div, Fixed, SCALE,
};
use crate::point::{vec_add, vec_div, vec_scale, vec_sub, vec_zero, views, Point, Points};
use vstd::multiset::lemma_multiset_empty_len;
use vstd::prelude::*;
use vstd::seq_lib::{to_multiset_build, to_multiset_len};

verus! {

/// `start` moved `k` times by `step`, saturating.
pub open spec fn stepped(start: Fixed, step: Fixed, k: int) -> Fixed {
    Fixed { raw: clamp(start.raw + k * step.raw) }
}

/// Every field of `start` moved `k` times by the matching field of `step`.
pub open spec fn vec_stepped(start: Seq<Fixed>, step: Seq<Fixed>, k: int) -> Seq<Fixed> {
    Seq::new(start.len(), |i: int| stepped(start[i], step[i], k))
}

/// Of `a` and `b`, the end with the smaller coordinate `d`; `a` on a tie.
pub open spec fn dda_low(a: Seq<Fixed>, b: Seq<Fixed>, d: int) -> Seq<Fixed> {
    if a[d].raw > b[d].raw {
        b
    } else {
        a
    }
}

/// Of `a` and `b`, the end with the larger coordinate `d`; `b` on a tie.
pub open spec fn dda_high(a: Seq<Fixed>, b: Seq<Fixed>, d: int) -> Seq<Fixed> {
    if a[d].raw > b[d].raw {
        a
    } else {
        b
    }
}

/// The change of every field per unit of the coordinate `d` on the way
/// from the lower end to the higher; zero where the ends agree in `d`.
pub open spec fn dda_step(a: Seq<Fixed>, b: Seq<Fixed>, d: int) -> Seq<Fixed> {
    if a[d] == b[d] {
        vec_zero(a.len())
    } else {
        let delta = vec_sub(dda_high(a, b, d), dda_low(a, b, d));
        vec_div(delta, delta[d])
    }
}

/// The first point of the walk from the lower end to the higher: the lower
/// end moved along the step until its coordinate `d` is whole; `a` itself
/// where the ends agree in `d`.
pub open spec fn dda_seed(a: Seq<Fixed>, b: Seq<Fixed>, d: int) -> Seq<Fixed> {
    if a[d] == b[d] {
        a
    } else {
        let low = dda_low(a, b, d);
        let offset = low[d].ceil_spec().sub_spec(low[d]);
        vec_add(low, vec_scale(dda_step(a, b, d), offset))
    }
}

/// The number of whole values of the coordinate `d` from the lower end
/// (inclusive) to the higher end (exclusive).
pub open spec fn span_len(a: Seq<Fixed>, b: Seq<Fixed>, d: int) -> nat {
    if a[d] == b[d] {
        0
    } else {
        (dda_high(a, b, d)[d].ceil_int() - dda_low(a, b, d)[d].ceil_int()) as nat
    }
}

/// The samples between `a` and `b`: one for each whole value of the
/// coordinate `d`, in ascending order of `d`.
pub open spec fn span(a: Seq<Fixed>, b: Seq<Fixed>, d: int) -> Seq<Seq<Fixed>> {
    Seq::new(span_len(a, b, d), |k: int| vec_stepped(dda_seed(a, b, d), dda_step(a, b, d), k))
}

/// One more saturating step continues the walk.
pub proof fn lemma_stepped_next(start: Fixed, step: Fixed, k: int)
    requires
        k >= 0,
    ensures
        stepped(start, step, k).add_spec(step) == stepped(start, step, k + 1),
        stepped(start, step, 0) == start,
{
    assert((k + 1) * step.raw == k * step.raw + step.raw) by (nonlinear_arith);
    assert(step.raw >= 0 ==> k * step.raw >= 0) by (nonlinear_arith)
        requires
            k >= 0,
    ;
    assert(step.raw <= 0 ==> k * step.raw <= 0) by (nonlinear_arith)
        requires
            k >= 0,
    ;
    assert(0 * step.raw == 0) by (nonlinear_arith);
}

/// One more saturating step of every field continues the walk.
pub proof fn lemma_vec_stepped_next(start: Seq<Fixed>, step: Seq<Fixed>, k: int)
    requires
        k >= 0,
        start.len() == step.len(),
    ensures
        vec_add(vec_stepped(start, step, k), step) == vec_stepped(start, step, k + 1),
        vec_stepped(start, step, 0) == start,
{
    assert forall|i: int| 0 <= i < start.len() implies vec_add(
        vec_stepped(start, step, k),
        step,
    )[i] == vec_stepped(start, step, k + 1)[i] && vec_stepped(start, step, 0)[i] == start[i] by {
        lemma_stepped_next(start[i], step[i], k);
    }
    assert(vec_add(vec_stepped(start, step, k), step) =~= vec_stepped(start, step, k + 1));
    assert(vec_stepped(start, step, 0) =~= start);
}

/// Along the driving coordinate a walk starts on the first whole value at
/// or above the lower end and moves by exactly one.
pub proof fn lemma_dda_driving(a: Seq<Fixed>, b: Seq<Fixed>, d: int)
    requires
        0 <= d < a.len(),
        a.len() == b.len(),
        a[d] != b[d],
    ensures
        dda_step(a, b, d)[d] == Fixed::from_int(1),
        dda_seed(a, b, d)[d] == dda_low(a, b, d)[d].ceil_spec(),
        dda_low(a, b, d)[d].raw < dda_high(a, b, d)[d].raw,
{
    let low = dda_low(a, b, d);
    let high = dda_high(a, b, d);
    let delta = vec_sub(high, low);
    assert(low[d].raw < high[d].raw);
    assert(delta[d].raw > 0);
    lemma_div_self(delta[d]);
    let offset = low[d].ceil_spec().sub_spec(low[d]);
    lemma_ceil(low[d]);
    lemma_mul_one(offset);
}

/// Walking by one from the ceiling of `lo` stays below `hi` for exactly as
/// many steps as there are whole numbers from `lo` (inclusive) to `hi`
/// (exclusive), and visits those numbers in order.
pub proof fn lemma_unit_steps(lo: Fixed, hi: Fixed, k: int)
    requires
        lo.raw < hi.raw,
        k >= 0,
    ensures
        lo.ceil_int() <= hi.ceil_int(),
        (stepped(lo.ceil_spec(), Fixed::from_int(1), k).raw < hi.raw) <==> (k < hi.ceil_int()
            - lo.ceil_int()),
        k < hi.ceil_int() - lo.ceil_int() ==> stepped(lo.ceil_spec(), Fixed::from_int(1), k).raw
            == (lo.ceil_int() + k) * SCALE,
{
    lemma_ceil(lo);
    lemma_ceil(hi);
    let cl = lo.ceil_int();
    let ch = hi.ceil_int();
    assert((cl + k) * SCALE == cl * SCALE + k * SCALE) by (nonlinear_arith);
    assert(k * Fixed::from_int(1).raw == k * SCALE);
    if k < ch - cl {
        assert((cl + k) * SCALE <= ch * SCALE - SCALE) by (nonlinear_arith)
            requires
                cl + k <= ch - 1,
        ;
    } else {
        assert((cl + k) * SCALE >= ch * SCALE) by (nonlinear_arith)
            requires
                cl + k >= ch,
        ;
    }
}

/// A span visits the whole values of its driving coordinate from the lower
/// end (inclusive) to the higher end (exclusive), one after the other.
pub proof fn lemma_span_visits(a: Seq<Fixed>, b: Seq<Fixed>, d: int, k: int)
    requires
        0 <= d < a.len(),
        a.len() == b.len(),
        0 <= k < span_len(a, b, d),
    ensures
        span(a, b, d)[k][d].raw == (dda_low(a, b, d)[d].ceil_int() + k) * SCALE,
        dda_low(a, b, d)[d].raw <= span(a, b, d)[k][d].raw < dda_high(a, b, d)[d].raw,
{
    let low = dda_low(a, b, d);
    let high = dda_high(a, b, d);
    lemma_dda_driving(a, b, d);
    lemma_unit_steps(low[d], high[d], k);
    lemma_ceil(low[d]);
    assert((low[d].ceil_int() + k) * SCALE >= low[d].ceil_int() * SCALE) by (nonlinear_arith)
        requires
            k >= 0,
    ;
}

/// Every whole value of the driving coordinate from the lower end
/// (inclusive) to the higher end (exclusive) is visited by the span.
pub proof fn lemma_span_complete(a: Seq<Fixed>, b: Seq<Fixed>, d: int, n: int)
    requires
        0 <= d < a.len(),
        a.len() == b.len(),
        dda_low(a, b, d)[d].raw <= n * SCALE < dda_high(a, b, d)[d].raw,
    ensures
        0 <= n - dda_low(a, b, d)[d].ceil_int() < span_len(a, b, d),
        span(a, b, d)[n - dda_low(a, b, d)[d].ceil_int()][d].raw == n * SCALE,
{
    let low = dda_low(a, b, d);
    let high = dda_high(a, b, d);
    let k = n - low[d].ceil_int();
    lemma_ceil(low[d]);
    lemma_ceil(high[d]);
    assert(n >= low[d].ceil_int()) by (nonlinear_arith)
        requires
            low[d].ceil_int() * SCALE - low[d].raw < SCALE,
            low[d].raw <= n * SCALE,
    ;
    assert(n < high[d].ceil_int()) by (nonlinear_arith)
        requires
            high[d].ceil_int() * SCALE >= high[d].raw,
            n * SCALE < high[d].raw,
    ;
    lemma_span_visits(a, b, d, k);
}

/// Prepares the walk between `a` and `b` along the coordinate `d`.
///
/// Returns the first point of the walk and its step, and orders `a` and
/// `b` so that `a` is the end with the smaller coordinate `d`.
pub fn dda_setup<const DIM: usize>(a: &mut Point<DIM>, b: &mut Point<DIM>, d: usize) -> (r: (
    Point<DIM>,
    Point<DIM>,
))
    requires
        d < DIM,
    ensures
        r.0@ == dda_seed(old(a)@, old(b)@, d as int),
        r.1@ == dda_step(old(a)@, old(b)@, d as int),
        final(a)@ == dda_low(old(a)@, old(b)@, d as int),
        final(b)@ == dda_high(old(a)@, old(b)@, d as int),
{
    let a_d = a.index(d);
    let b_d = b.index(d);
    if a_d.raw == b_d.raw {
        return (*a, Point::zero());
    }
    if a_d.raw > b_d.raw {
        let low = *b;
        *b = *a;
        *a = low;
    }
    let delta = b.sub(*a);
    let step = delta.div(delta.index(d));
    let low_d = a.index(d);
    let offset = low_d.ceil().sub(low_d);
    let seed = a.add(step.scale(offset));
    (seed, step)
}

/// All samples between `a` and `b`: one for each whole value of the
/// coordinate `d` from the lower end (inclusive) to the higher end
/// (exclusive), every field interpolated linearly.
pub fn dda_full<const DIM: usize>(a: Point<DIM>, b: Point<DIM>, d: usize) -> (result: Vec<
    Point<DIM>,
>)
    requires
        d < DIM,
    ensures
        views(result@) == span(a@, b@, d as int),
{
    let mut low = a;
    let mut high = b;
    let (mut p, s) = dda_setup(&mut low, &mut high, d);
    let mut result: Vec<Point<DIM>> = Vec::new();
    proof {
        lemma_vec_stepped_next(p@, s@, 0);
    }
    while p.index(d).raw < high.index(d).raw
        invariant
            d < DIM,
            low@ == dda_low(a@, b@, d as int),
            high@ == dda_high(a@, b@, d as int),
            s@ == dda_step(a@, b@, d as int),
            p@ == vec_stepped(dda_seed(a@, b@, d as int), s@, result.len() as int),
            result.len() <= span_len(a@, b@, d as int),
            forall|j: int|
                0 <= j < result.len() ==> (#[trigger] result@[j])@ == vec_stepped(
                    dda_seed(a@, b@, d as int),
                    s@,
                    j,
                ),
        decreases span_len(a@, b@, d as int) - result.len(),
    {
        proof {
            let k = result.len() as int;
            if a@[d as int] == b@[d as int] {
                lemma_stepped_next(a@[d as int], Fixed::from_int(0), k);
                assert(k * 0 == 0);
                assert(false);
            } else {
                lemma_dda_driving(a@, b@, d as int);
                lemma_unit_steps(low@[d as int], high@[d as int], k);
            }
            lemma_vec_stepped_next(dda_seed(a@, b@, d as int), s@, k);
        }
        result.push(p);
        p.add_assign(s);
    }
    proof {
        let k = result.len() as int;
        if a@[d as int] != b@[d as int] {
            lemma_dda_driving(a@, b@, d as int);
            lemma_unit_steps(low@[d as int], high@[d as int], k);
        }
        assert(views(result@) =~= span(a@, b@, d as int));
    }
    result
}

/// A point that moves by a fixed step: the walk along one edge.
pub struct Walk {
    pub seed: Seq<Fixed>,
    pub step: Seq<Fixed>,
}

impl Walk {
    /// The point after `k` steps.
    pub open spec fn at(self, k: int) -> Seq<Fixed> {
        vec_stepped(self.seed, self.step, k)
    }
}

/// The walk along the edge between `a` and `b`, one step per row.
pub open spec fn edge(a: Seq<Fixed>, b: Seq<Fixed>) -> Walk {
    Walk { seed: dda_seed(a, b, Y as int), step: dda_step(a, b, Y as int) }
}

/// `p`, `q` and `r` in ascending order of `Y`; vertices with equal `Y` keep
/// their order.
pub open spec fn sorted_by_y(p: Seq<Fixed>, q: Seq<Fixed>, r: Seq<Fixed>) -> (
    Seq<Fixed>,
    Seq<Fixed>,
    Seq<Fixed>,
) {
    let first = if q[Y as int].raw < p[Y as int].raw {
        q
    } else {
        p
    };
    let second = if q[Y as int].raw < p[Y as int].raw {
        p
    } else {
        q
    };
    if r[Y as int].raw < first[Y as int].raw {
        (r, first, second)
    } else if r[Y as int].raw < second[Y as int].raw {
        (first, r, second)
    } else {
        (first, second, r)
    }
}

/// Sorting by `Y` puts the three vertices in ascending order and loses
/// none.
pub proof fn lemma_sorted_by_y(p: Seq<Fixed>, q: Seq<Fixed>, r: Seq<Fixed>)
    ensures
        ({
            let (t, m, b) = sorted_by_y(p, q, r);
            &&& t[Y as int].raw <= m[Y as int].raw <= b[Y as int].raw
            &&& seq![t, m, b].to_multiset() == seq![p, q, r].to_multiset()
        }),
{
    let (t, m, b) = sorted_by_y(p, q, r);
    let sorted = seq![t, m, b];
    let given = seq![p, q, r];
    assert(sorted =~= seq![t].push(m).push(b));
    assert(given =~= seq![p].push(q).push(r));
    assert forall|v: Seq<Fixed>| sorted.to_multiset().count(v) == given.to_multiset().count(
        v,
    ) by {
        count3(t, m, b, v);
        count3(p, q, r, v);
    }
    assert(sorted.to_multiset() =~= given.to_multiset());
}

/// How often `v` occurs among three values.
proof fn count3(x: Seq<Fixed>, y: Seq<Fixed>, z: Seq<Fixed>, v: Seq<Fixed>)
    ensures
        seq![x, y, z].to_multiset().count(v) == (if x == v {
            1int
        } else {
            0int
        }) + (if y == v {
            1int
        } else {
            0int
        }) + (if z == v {
            1int
        } else {
            0int
        }),
{
    let s0 = Seq::<Seq<Fixed>>::empty();
    let s1 = s0.push(x);
    let s2 = s1.push(y);
    let s3 = s2.push(z);
    assert(seq![x, y, z] =~= s3);
    to_multiset_build(s0, x);
    to_multiset_build(s1, y);
    to_multiset_build(s2, z);
    to_multiset_len(s0);
    lemma_multiset_empty_len(s0.to_multiset());
}

/// The samples of the row `k`: the span between the point of the short
/// edge after `k` steps and the point of the long edge after `offset + k`.
pub open spec fn row(long: Walk, short: Walk, offset: int, k: int) -> Seq<Seq<Fixed>> {
    span(short.at(k), long.at(offset + k), X as int)
}

/// The samples of the rows `0..n`, row after row.
pub open spec fn rows(long: Walk, short: Walk, offset: int, n: nat) -> Seq<Seq<Fixed>>
    decreases n,
{
    if n == 0 {
        Seq::empty()
    } else {
        rows(long, short, offset, (n - 1) as nat) + row(long, short, offset, n - 1)
    }
}

/// The sum of the widths of the rows `0..n`, each counted in whole columns
/// from its left end (inclusive) to its right end (exclusive).
pub open spec fn rows_count(long: Walk, short: Walk, offset: int, n: nat) -> nat
    decreases n,
{
    if n == 0 {
        0
    } else {
        rows_count(long, short, offset, (n - 1) as nat) + span_len(
            short.at(n - 1),
            long.at(offset + n - 1),
            X as int,
        )
    }
}

/// The number of whole rows from `upper` (inclusive) to `lower`
/// (exclusive).
pub open spec fn rows_between(upper: Seq<Fixed>, lower: Seq<Fixed>) -> nat {
    if upper[Y as int].raw < lower[Y as int].raw {
        (lower[Y as int].ceil_int() - upper[Y as int].ceil_int()) as nat
    } else {
        0
    }
}

/// The samples of the triangle `p q r`, in scanline order: the rows
/// between the top and the middle vertex, then those between the middle and
/// the bottom vertex.
pub open spec fn triangle_samples(p: Seq<Fixed>, q: Seq<Fixed>, r: Seq<Fixed>) -> Seq<Seq<Fixed>> {
    let (t, m, b) = sorted_by_y(p, q, r);
    let upper = rows_between(t, m);
    rows(edge(t, b), edge(t, m), 0, upper) + rows(
        edge(t, b),
        edge(m, b),
        upper as int,
        rows_between(m, b),
    )
}

/// The sum over the scanlines of the triangle `p q r` of the width of the
/// span on that scanline.
pub open spec fn triangle_count(p: Seq<Fixed>, q: Seq<Fixed>, r: Seq<Fixed>) -> nat {
    let (t, m, b) = sorted_by_y(p, q, r);
    let upper = rows_between(t, m);
    rows_count(edge(t, b), edge(t, m), 0, upper) + rows_count(
        edge(t, b),
        edge(m, b),
        upper as int,
        rows_between(m, b),
    )
}

/// Whether `u` comes before `v` in scanline order: on an earlier row, or on
/// the same row in an earlier column.
pub open spec fn precedes(u: Seq<Fixed>, v: Seq<Fixed>) -> bool {
    u[Y as int].raw < v[Y as int].raw || (u[Y as int] == v[Y as int] && u[X as int].raw
        < v[X as int].raw)
}

/// Whether `samples` is in strict scanline order.
pub open spec fn scan_ordered(samples: Seq<Seq<Fixed>>) -> bool {
    forall|i: int, j: int| 0 <= i < j < samples.len() ==> precedes(samples[i], samples[j])
}

/// Whether `x` is a whole number.
pub open spec fn is_whole(x: Fixed) -> bool {
    x.raw % SCALE == 0
}

/// Whether no two of the samples share a position.
pub open spec fn positions_distinct(samples: Seq<Seq<Fixed>>) -> bool {
    forall|i: int, j: int|
        0 <= i < samples.len() && 0 <= j < samples.len() && i != j ==> (#[trigger] samples[i])[X as int]
            != (#[trigger] samples[j])[X as int] || samples[i][Y as int] != samples[j][Y as int]
}

/// Whether every sample lies on a whole position.
pub open spec fn positions_whole(samples: Seq<Seq<Fixed>>) -> bool {
    forall|i: int|
        0 <= i < samples.len() ==> is_whole((#[trigger] samples[i])[X as int]) && is_whole(
            samples[i][Y as int],
        )
}

/// A span between two points of one row stays on that row and visits the
/// whole columns from its left end on, one after the other.
pub proof fn lemma_span_on_row(a: Seq<Fixed>, b: Seq<Fixed>, k: int)
    requires
        a.len() == b.len(),
        a.len() > Y,
        a[Y as int] == b[Y as int],
        0 <= k < span_len(a, b, X as int),
    ensures
        span(a, b, X as int)[k][Y as int] == a[Y as int],
        span(a, b, X as int)[k][X as int].raw == (dda_low(a, b, X as int)[X as int].ceil_int()
            + k) * SCALE,
{
    let x = X as int;
    let y = Y as int;
    let low = dda_low(a, b, x);
    let high = dda_high(a, b, x);
    lemma_dda_driving(a, b, x);
    lemma_unit_steps(low[x], high[x], k);
    let delta = vec_sub(high, low);
    assert(delta[y] == Fixed::from_int(0));
    lemma_zero_div(delta[x]);
    let offset = low[x].ceil_spec().sub_spec(low[x]);
    lemma_mul_zero(offset);
    assert(dda_step(a, b, x)[y] == Fixed::from_int(0));
    assert(dda_seed(a, b, x)[y] == low[y]);
    assert(k * 0 == 0);
}

/// Rows whose two edge points share a `Y` that grows by one per row come
/// out in strict scanline order, on whole positions, and as many samples as
/// the widths of the rows add up to.
pub proof fn lemma_rows_ordered(long: Walk, short: Walk, offset: int, n: nat, base: int)
    requires
        long.seed.len() > Y,
        long.seed.len() == short.seed.len(),
        forall|k: int|
            0 <= k < n ==> (#[trigger] short.at(k))[Y as int] == long.at(offset + k)[Y as int]
                && short.at(k)[Y as int].raw == (base + offset + k) * SCALE,
    ensures
        rows(long, short, offset, n).len() == rows_count(long, short, offset, n),
        scan_ordered(rows(long, short, offset, n)),
        forall|i: int|
            0 <= i < rows(long, short, offset, n).len() ==> {
                let v = #[trigger] rows(long, short, offset, n)[i];
                &&& (base + offset) * SCALE <= v[Y as int].raw
                &&& v[Y as int].raw <= (base + offset + n - 1) * SCALE
                &&& is_whole(v[X as int])
                &&& is_whole(v[Y as int])
            },
    decreases n,
{
    if n > 0 {
        let before = rows(long, short, offset, (n - 1) as nat);
        let last = row(long, short, offset, n - 1);
        let all = rows(long, short, offset, n);
        lemma_rows_ordered(long, short, offset, (n - 1) as nat, base);
        let a = short.at(n - 1);
        let b = long.at(offset + n - 1);
        assert(a[Y as int] == b[Y as int]);
        assert(a[Y as int].raw == (base + offset + n - 1) * SCALE);
        assert((base + offset + n - 1) * SCALE == (base + offset + n - 2) * SCALE + SCALE)
            by (nonlinear_arith);
        assert((base + offset + n - 1) * SCALE >= (base + offset) * SCALE) by (nonlinear_arith)
            requires
                n >= 1,
        ;
        assert(((base + offset + n - 1) * SCALE) % (SCALE as int) == 0) by (nonlinear_arith);
        assert forall|k: int| 0 <= k < last.len() implies {
            &&& (#[trigger] last[k])[Y as int] == a[Y as int]
            &&& last[k][X as int].raw == (dda_low(a, b, X as int)[X as int].ceil_int() + k)
                * SCALE
            &&& is_whole(last[k][X as int])
        } by {
            lemma_span_on_row(a, b, k);
            let c = dda_low(a, b, X as int)[X as int].ceil_int();
            assert(((c + k) * SCALE) % (SCALE as int) == 0) by (nonlinear_arith);
        }
        assert forall|i: int, j: int| 0 <= i < j < all.len() implies precedes(all[i], all[j]) by {
            if j < before.len() {
                assert(all[i] == before[i]);
                assert(all[j] == before[j]);
            } else if i < before.len() {
                assert(all[i] == before[i]);
                assert(all[j] == last[j - before.len()]);
            } else {
                let ki = i - before.len();
                let kj = j - before.len();
                assert(all[i] == last[ki]);
                assert(all[j] == last[kj]);
                let c = dda_low(a, b, X as int)[X as int].ceil_int();
                assert((c + ki) * SCALE < (c + kj) * SCALE) by (nonlinear_arith)
                    requires
                        ki < kj,
                ;
            }
        }
        assert forall|i: int| 0 <= i < all.len() implies {
            let v = #[trigger] all[i];
            &&& (base + offset) * SCALE <= v[Y as int].raw
            &&& v[Y as int].raw <= (base + offset + n - 1) * SCALE
            &&& is_whole(v[X as int])
            &&& is_whole(v[Y as int])
        } by {
            if i < before.len() {
                assert(all[i] == before[i]);
            } else {
                assert(all[i] == last[i - before.len()]);
            }
        }
    }
}

/// The samples of a triangle come out in strict scanline order, each on a
/// whole position, and as many as the widths of its rows add up to.
pub proof fn lemma_triangle_samples(p: Seq<Fixed>, q: Seq<Fixed>, r: Seq<Fixed>)
    requires
        p.len() > Y,
        p.len() == q.len(),
        p.len() == r.len(),
    ensures
        triangle_samples(p, q, r).len() == triangle_count(p, q, r),
        scan_ordered(triangle_samples(p, q, r)),
        positions_whole(triangle_samples(p, q, r)),
{
    let y = Y as int;
    let (t, m, b) = sorted_by_y(p, q, r);
    assert(t[y].raw <= m[y].raw <= b[y].raw);
    let upper_rows = rows_between(t, m);
    let lower_rows = rows_between(m, b);
    let ct = t[y].ceil_int();
    let long = edge(t, b);
    let upper_short = edge(t, m);
    let lower_short = edge(m, b);
    assert(ct + upper_rows == m[y].ceil_int());
    assert forall|k: int| 0 <= k < upper_rows implies (#[trigger] upper_short.at(k))[y] == long.at(
        0 + k,
    )[y] && upper_short.at(k)[y].raw == (ct + 0 + k) * SCALE by {
        lemma_dda_driving(t, m, y);
        lemma_dda_driving(t, b, y);
        lemma_unit_steps(t[y], m[y], k);
    }
    assert forall|k: int| 0 <= k < lower_rows implies (#[trigger] lower_short.at(k))[y] == long.at(
        upper_rows + k,
    )[y] && lower_short.at(k)[y].raw == (ct + upper_rows + k) * SCALE by {
        lemma_dda_driving(m, b, y);
        lemma_dda_driving(t, b, y);
        lemma_unit_steps(m[y], b[y], k);
        lemma_unit_steps(t[y], b[y], upper_rows + k);
    }
    lemma_rows_ordered(long, upper_short, 0, upper_rows, ct);
    lemma_rows_ordered(long, lower_short, upper_rows as int, lower_rows, ct);
    let upper = rows(long, upper_short, 0, upper_rows);
    let lower = rows(long, lower_short, upper_rows as int, lower_rows);
    let all = triangle_samples(p, q, r);
    assert(all == upper + lower);
    assert((ct + 0 + upper_rows - 1) * SCALE < (ct + upper_rows) * SCALE) by (nonlinear_arith);
    assert forall|i: int, j: int| 0 <= i < j < all.len() implies precedes(all[i], all[j]) by {
        if j < upper.len() {
            assert(all[i] == upper[i]);
            assert(all[j] == upper[j]);
        } else if i < upper.len() {
            assert(all[i] == upper[i]);
            assert(all[j] == lower[j - upper.len()]);
        } else {
            assert(all[i] == lower[i - upper.len()]);
            assert(all[j] == lower[j - upper.len()]);
        }
    }
    assert forall|i: int| 0 <= i < all.len() implies is_whole((#[trigger] all[i])[X as int])
        && is_whole(all[i][y]) by {
        if i < upper.len() {
            assert(all[i] == upper[i]);
        } else {
            assert(all[i] == lower[i - upper.len()]);
        }
    }
}

/// No two samples in strict scanline order share a position.
pub proof fn lemma_scan_ordered_distinct(samples: Seq<Seq<Fixed>>)
    requires
        scan_ordered(samples),
    ensures
        positions_distinct(samples),
{
    assert forall|i: int, j: int|
        0 <= i < samples.len() && 0 <= j < samples.len() && i != j implies (#[trigger] samples[i])[X as int]
        != (#[trigger] samples[j])[X as int] || samples[i][Y as int] != samples[j][Y as int] by {
        if i < j {
            assert(precedes(samples[i], samples[j]));
        } else {
            assert(precedes(samples[j], samples[i]));
        }
    }
}

/// All samples inside the triangle `p q r`, one for each whole position,
/// every field interpolated linearly along the edges and the rows.
///
/// The samples come row by row and, within a row, column by column, so no
/// position occurs twice; their number is the sum of the widths of the
/// rows. A triangle whose three vertices share one `Y` has no sample.
pub fn triangle<const DIM: usize>(p: Point<DIM>, q: Point<DIM>, r: Point<DIM>) -> (result: Points<
    DIM,
>)
    requires
        DIM > Y,
    ensures
        result@ == triangle_samples(p@, q@, r@),
        result@.len() == triangle_count(p@, q@, r@),
        scan_ordered(result@),
        positions_distinct(result@),
        positions_whole(result@),
        p@[Y as int] == q@[Y as int] && q@[Y as int] == r@[Y as int] ==> result@.len() == 0,
{
    let first = if q.index(Y).raw < p.index(Y).raw {
        q
    } else {
        p
    };
    let second = if q.index(Y).raw < p.index(Y).raw {
        p
    } else {
        q
    };
    let (t, m, b) = if r.index(Y).raw < first.index(Y).raw {
        (r, first, second)
    } else if r.index(Y).raw < second.index(Y).raw {
        (first, r, second)
    } else {
        (first, second, r)
    };
    assert((t@, m@, b@) == sorted_by_y(p@, q@, r@));
    let ghost y = Y as int;
    let ghost long = edge(t@, b@);
    let ghost upper_short = edge(t@, m@);
    let ghost lower_short = edge(m@, b@);
    let ghost upper_rows = rows_between(t@, m@);
    let ghost lower_rows = rows_between(m@, b@);

    let mut result: Points<DIM> = Points::<DIM>::default();
    let mut long_top = t;
    let mut long_bottom = b;
    let (mut long_point, long_step) = dda_setup(&mut long_top, &mut long_bottom, Y);
    let mut upper_top = t;
    let mut upper_bottom = m;
    let (mut short_point, upper_step) = dda_setup(&mut upper_top, &mut upper_bottom, Y);
    let ghost mut k: int = 0;
    proof {
        lemma_vec_stepped_next(long.seed, long.step, 0);
        lemma_vec_stepped_next(upper_short.seed, upper_short.step, 0);
    }
    while long_point.index(Y).raw < m.index(Y).raw
        invariant
            DIM > Y,
            y == Y as int,
            long == edge(t@, b@),
            upper_short == edge(t@, m@),
            upper_rows == rows_between(t@, m@),
            t@[y].raw <= m@[y].raw <= b@[y].raw,
            long_step@ == long.step,
            upper_step@ == upper_short.step,
            0 <= k <= upper_rows,
            long_point@ == long.at(k),
            short_point@ == upper_short.at(k),
            result@ == rows(long, upper_short, 0, k as nat),
        decreases upper_rows - k,
    {
        proof {
            if t@[y] == b@[y] {
                lemma_stepped_next(t@[y], Fixed::from_int(0), k);
                assert(k * 0 == 0);
                assert(false);
            } else {
                lemma_dda_driving(t@, b@, y);
                if t@[y] == m@[y] {
                    lemma_ceil(t@[y]);
                    lemma_stepped_next(t@[y].ceil_spec(), Fixed::from_int(1), 0);
                    assert(false);
                } else {
                    lemma_unit_steps(t@[y], m@[y], k);
                }
            }
            lemma_vec_stepped_next(long.seed, long.step, k);
            lemma_vec_stepped_next(upper_short.seed, upper_short.step, k);
        }
        let mut temp = dda_full(short_point, long_point, X);
        result.append(&mut temp);
        long_point.add_assign(long_step);
        short_point.add_assign(upper_step);
        proof {
            assert(rows(long, upper_short, 0, (k + 1) as nat) == rows(long, upper_short, 0, k as nat)
                + row(long, upper_short, 0, k));
            k = k + 1;
        }
    }
    proof {
        if t@[y] != m@[y] {
            lemma_dda_driving(t@, b@, y);
            lemma_unit_steps(t@[y], m@[y], k);
        }
        assert(k == upper_rows);
    }

    let mut lower_top = m;
    let mut lower_bottom = b;
    let (lower_point, lower_step) = dda_setup(&mut lower_top, &mut lower_bottom, Y);
    short_point = lower_point;
    let ghost mut j: int = 0;
    proof {
        lemma_vec_stepped_next(lower_short.seed, lower_short.step, 0);
    }
    while long_point.index(Y).raw < b.index(Y).raw
        invariant
            DIM > Y,
            y == Y as int,
            long == edge(t@, b@),
            lower_short == edge(m@, b@),
            upper_short == edge(t@, m@),
            upper_rows == rows_between(t@, m@),
            lower_rows == rows_between(m@, b@),
            t@[y].raw <= m@[y].raw <= b@[y].raw,
            long_step@ == long.step,
            lower_step@ == lower_short.step,
            0 <= j <= lower_rows,
            long_point@ == long.at(upper_rows + j),
            short_point@ == lower_short.at(j),
            result@ == rows(long, upper_short, 0, upper_rows) + rows(long, lower_short, upper_rows as int, j as nat),
        decreases lower_rows - j,
    {
        proof {
            if t@[y] == b@[y] {
                lemma_stepped_next(t@[y], Fixed::from_int(0), upper_rows + j);
                assert((upper_rows + j) * 0 == 0);
                assert(false);
            } else {
                lemma_dda_driving(t@, b@, y);
                lemma_unit_steps(t@[y], b@[y], upper_rows + j);
                if t@[y] != m@[y] {
                    lemma_unit_steps(t@[y], m@[y], 0);
                }
                if m@[y] != b@[y] {
                    lemma_unit_steps(m@[y], b@[y], 0);
                }
            }
            lemma_vec_stepped_next(long.seed, long.step, upper_rows + j);
            lemma_vec_stepped_next(lower_short.seed, lower_short.step, j);
        }
        let mut temp = dda_full(short_point, long_point, X);
        result.append(&mut temp);
        long_point.add_assign(long_step);
        short_point.add_assign(lower_step);
        proof {
            assert(rows(long, lower_short, upper_rows as int, (j + 1) as nat) == rows(
                long,
                lower_short,
                upper_rows as int,
                j as nat,
            ) + row(long, lower_short, upper_rows as int, j));
            assert(result@ =~= rows(long, upper_short, 0, upper_rows) + rows(
                long,
                lower_short,
                upper_rows as int,
                (j + 1) as nat,
            ));
            j = j + 1;
        }
    }
    proof {
        if t@[y] != b@[y] {
            lemma_dda_driving(t@, b@, y);
            lemma_unit_steps(t@[y], b@[y], upper_rows + j);
            if t@[y] != m@[y] {
                lemma_unit_steps(t@[y], m@[y], 0);
            }
            if m@[y] != b@[y] {
                lemma_unit_steps(m@[y], b@[y], 0);
            }
        }
        assert(j == lower_rows);
        lemma_triangle_samples(p@, q@, r@);
        lemma_scan_ordered_distinct(result@);
    }
    result
}

/// A corner of the point sprite around `center`: half the side length to
/// the left or right and up or down, with the texture coordinate of that
/// corner.
pub open spec fn corner(center: Seq<Fixed>, right: bool, down: bool) -> Seq<Fixed> {
    let radius = center[P as int].div_spec(Fixed::from_int(2));
    let x = if right {
        center[X as int].add_spec(radius)
    } else {
        center[X as int].sub_spec(radius)
    };
    let y = if down {
        center[Y as int].add_spec(radius)
    } else {
        center[Y as int].sub_spec(radius)
    };
    let s = Fixed::from_int(
        if right {
            1int
        } else {
            0int
        },
    );
    let t = Fixed::from_int(
        if down {
            1int
        } else {
            0int
        },
    );
    center.update(X as int, x).update(Y as int, y).update(S as int, s).update(T as int, t)
}

/// The samples of the point sprite around `center`: those of the triangle
/// top-left, top-right, bottom-left, then those of the triangle top-right,
/// bottom-right, bottom-left.
pub open spec fn square_samples(center: Seq<Fixed>) -> Seq<Seq<Fixed>> {
    triangle_samples(
        corner(center, false, false),
        corner(center, true, false),
        corner(center, false, true),
    ) + triangle_samples(
        corner(center, true, false),
        corner(center, true, true),
        corner(center, false, true),
    )
}

/// The corner of the point sprite around `center`.
fn make_corner<const DIM: usize>(center: Point<DIM>, right: bool, down: bool) -> (r: Point<DIM>)
    requires
        DIM > P,
    ensures
        r@ == corner(center@, right, down),
{
    let radius = center.index(P).div(Fixed::from_u32(2));
    let mut r = center;
    if right {
        r.set(X, center.index(X).add(radius));
        r.set(S, Fixed::one());
    } else {
        r.set(X, center.index(X).sub(radius));
        r.set(S, Fixed::zero());
    }
    if down {
        r.set(Y, center.index(Y).add(radius));
        r.set(T, Fixed::one());
    } else {
        r.set(Y, center.index(Y).sub(radius));
        r.set(T, Fixed::zero());
    }
    assert(r@ =~= corner(center@, right, down));
    r
}

/// All samples inside the point sprite around `center`: the axis-aligned
/// square whose side is the point size of `center`, with texture
/// coordinates that run from `(0, 0)` at the top left to `(1, 1)` at the
/// bottom right.
pub fn square<const DIM: usize>(center: Point<DIM>) -> (result: Points<DIM>)
    requires
        DIM > P,
    ensures
        result@ == square_samples(center@),
{
    let top_left = make_corner(center, false, false);
    let top_right = make_corner(center, true, false);
    let bottom_left = make_corner(center, false, true);
    let bottom_right = make_corner(center, true, true);
    let mut result: Points<DIM> = Points::<DIM>::default();
    let mut first = triangle(top_left, top_right, bottom_left);
    let mut second = triangle(top_right, bottom_right, bottom_left);
    result.append(&mut first.0);
    result.append(&mut second.0);
    result
}

} // verus!
