use vstd::prelude::*;

use crate::collision::all_in_plane;
use crate::geometry::{dist_sq, in_plane, Point};
use crate::sqrt::{ceil_sqrt, isqrt_ceil, lemma_ceil_sqrt, lemma_ceil_sqrt_least};

verus! {

/// The length of the segment from `a` to `b`, rounded up to a whole unit.
pub open spec fn segment_length(a: Point, b: Point) -> nat {
    ceil_sqrt(dist_sq(a, b) as nat)
}

/// The sum of the rounded lengths of the segments of `t`.
pub open spec fn polyline_length(t: Seq<Point>) -> nat
    decreases t.len(),
{
    if t.len() < 2 {
        0
    } else {
        polyline_length(t.drop_last()) + segment_length(t[t.len() - 2], t[t.len() - 1])
    }
}

proof fn lemma_dist_sq_bound(a: Point, b: Point)
    requires
        in_plane(a),
        in_plane(b),
    ensures
        0 <= dist_sq(a, b) <= 0x800_0000_0000,
        segment_length(a, b) <= 0x40_0000,
{
    let dx = a.x - b.x;
    let dy = a.y - b.y;
    assert(0 <= dx * dx <= 0x400_0000_0000) by (nonlinear_arith)
        requires
            -0x20_0000 <= dx <= 0x20_0000,
    ;
    assert(0 <= dy * dy <= 0x400_0000_0000) by (nonlinear_arith)
        requires
            -0x20_0000 <= dy <= 0x20_0000,
    ;
    lemma_ceil_sqrt_least(dist_sq(a, b) as nat, 0x40_0000);
}

proof fn lemma_lagrange(ux: int, uy: int, vx: int, vy: int)
    ensures
        (ux * ux + uy * uy) * (vx * vx + vy * vy) - (ux * vx + uy * vy) * (ux * vx + uy * vy) == (ux
            * vy - uy * vx) * (ux * vy - uy * vx),
{
    let a = ux * vx;
    let b = uy * vy;
    let c = ux * vy;
    let d = uy * vx;
    assert((ux * ux + uy * uy) * (vx * vx + vy * vy) == ux * ux * (vx * vx) + ux * ux * (vy * vy)
        + uy * uy * (vx * vx) + uy * uy * (vy * vy)) by (nonlinear_arith);
    assert(ux * ux * (vx * vx) == a * a) by (nonlinear_arith)
        requires
            a == ux * vx,
    ;
    assert(ux * ux * (vy * vy) == c * c) by (nonlinear_arith)
        requires
            c == ux * vy,
    ;
    assert(uy * uy * (vx * vx) == d * d) by (nonlinear_arith)
        requires
            d == uy * vx,
    ;
    assert(uy * uy * (vy * vy) == b * b) by (nonlinear_arith)
        requires
            b == uy * vy,
    ;
    assert(a * b == c * d) by (nonlinear_arith)
        requires
            a == ux * vx,
            b == uy * vy,
            c == ux * vy,
            d == uy * vx,
    ;
    assert((a + b) * (a + b) == a * a + 2 * (a * b) + b * b) by (nonlinear_arith);
    assert((c - d) * (c - d) == c * c - 2 * (c * d) + d * d) by (nonlinear_arith);
}

/// The rounded length of a segment is never more than the sum of the rounded
/// lengths of two segments through any third point.
pub proof fn lemma_segment_triangle(a: Point, b: Point, c: Point)
    ensures
        segment_length(a, c) <= segment_length(a, b) + segment_length(b, c),
{
    let ux = b.x - a.x;
    let uy = b.y - a.y;
    let vx = c.x - b.x;
    let vy = c.y - b.y;
    let uu = ux * ux + uy * uy;
    let vv = vx * vx + vy * vy;
    let uv = ux * vx + uy * vy;
    let p = segment_length(a, b) as int;
    let q = segment_length(b, c) as int;
    assert(dist_sq(a, b) == uu) by (nonlinear_arith)
        requires
            ux == b.x - a.x,
            uy == b.y - a.y,
            uu == ux * ux + uy * uy,
    ;
    assert(dist_sq(b, c) == vv) by (nonlinear_arith)
        requires
            vx == c.x - b.x,
            vy == c.y - b.y,
            vv == vx * vx + vy * vy,
    ;
    assert(dist_sq(a, c) == uu + vv + 2 * uv) by (nonlinear_arith)
        requires
            ux == b.x - a.x,
            uy == b.y - a.y,
            vx == c.x - b.x,
            vy == c.y - b.y,
            uu == ux * ux + uy * uy,
            vv == vx * vx + vy * vy,
            uv == ux * vx + uy * vy,
    ;
    lemma_ceil_sqrt(uu as nat);
    lemma_ceil_sqrt(vv as nat);
    assert(uu >= 0 && vv >= 0) by (nonlinear_arith)
        requires
            uu == ux * ux + uy * uy,
            vv == vx * vx + vy * vy,
    ;
    lemma_lagrange(ux, uy, vx, vy);
    let w = ux * vy - uy * vx;
    assert(w * w >= 0) by (nonlinear_arith);
    assert((p * q) * (p * q) >= uu * vv) by (nonlinear_arith)
        requires
            p >= 0,
            q >= 0,
            p * p >= uu,
            q * q >= vv,
            uu >= 0,
            vv >= 0,
    ;
    assert(p * q >= uv) by (nonlinear_arith)
        requires
            p >= 0,
            q >= 0,
            (p * q) * (p * q) >= uv * uv,
    ;
    assert((p + q) * (p + q) >= uu + vv + 2 * uv) by (nonlinear_arith)
        requires
            p * p >= uu,
            q * q >= vv,
            p * q >= uv,
    ;
    assert(dist_sq(a, c) >= 0) by (nonlinear_arith)
        requires
            dist_sq(a, c) == (a.x - c.x) * (a.x - c.x) + (a.y - c.y) * (a.y - c.y),
    ;
    lemma_ceil_sqrt_least(dist_sq(a, c) as nat, p + q);
}

/// A polyline is never shorter than the straight segment between its ends.
pub proof fn lemma_polyline_at_least_direct(t: Seq<Point>)
    requires
        t.len() >= 2,
    ensures
        polyline_length(t) >= segment_length(t[0], t.last()),
    decreases t.len(),
{
    let s = t.drop_last();
    if t.len() > 2 {
        lemma_polyline_at_least_direct(s);
        lemma_segment_triangle(t[0], t[t.len() - 2], t.last());
    } else {
        assert(polyline_length(s) == 0);
    }
}

proof fn lemma_polyline_bound(t: Seq<Point>)
    requires
        all_in_plane(t),
    ensures
        polyline_length(t) <= t.len() * 0x40_0000,
    decreases t.len(),
{
    if t.len() >= 2 {
        let s = t.drop_last();
        lemma_polyline_bound(s);
        lemma_dist_sq_bound(t[t.len() - 2], t[t.len() - 1]);
    }
}

/// The length of `t`: the sum of its segments' lengths, each rounded up to a
/// whole unit.
pub fn path_length(t: &Vec<Point>) -> (r: u128)
    requires
        all_in_plane(t@),
    ensures
        r == polyline_length(t@),
{
    if t.len() < 2 {
        return 0;
    }
    let mut total: u128 = 0;
    let mut i: usize = 1;
    while i < t.len()
        invariant
            all_in_plane(t@),
            1 <= i <= t@.len(),
            total == polyline_length(t@.subrange(0, i as int)),
        decreases t@.len() - i,
    {
        let a = t[i - 1];
        let b = t[i];
        assert(in_plane(t@[i - 1]) && in_plane(t@[i as int]));
        proof {
            lemma_dist_sq_bound(a, b);
            let s = t@.subrange(0, i as int + 1);
            assert(s.drop_last() =~= t@.subrange(0, i as int));
            assert(all_in_plane(s));
            lemma_polyline_bound(s);
            assert(s.len() * 0x40_0000 <= 0x40_0000 * 0x1_0000_0000_0000_0000) by (nonlinear_arith)
                requires
                    s.len() <= 0x1_0000_0000_0000_0000,
            ;
        }
        let dx = a.x - b.x;
        let dy = a.y - b.y;
        assert(0 <= dx * dx <= 0x400_0000_0000) by (nonlinear_arith)
            requires
                -0x20_0000 <= dx <= 0x20_0000,
        ;
        assert(0 <= dy * dy <= 0x400_0000_0000) by (nonlinear_arith)
            requires
                -0x20_0000 <= dy <= 0x20_0000,
        ;
        let d = (dx * dx + dy * dy) as u64;
        let seg = isqrt_ceil(d);
        total = total + seg as u128;
        i += 1;
    }
    assert(t@.subrange(0, t@.len() as int) =~= t@);
    total
}

} // verus!
