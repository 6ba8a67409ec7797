use vstd::prelude::*;

verus! {

/// The integer square root of `m`, rounded down.
pub open spec fn floor_sqrt(m: nat) -> nat
    decreases m,
{
    if m == 0 {
        0
    } else {
        let r = floor_sqrt((m - 1) as nat);
        if (r + 1) * (r + 1) <= m {
            r + 1
        } else {
            r
        }
    }
}

/// The integer square root of `m`, rounded up.
pub open spec fn ceil_sqrt(m: nat) -> nat {
    let r = floor_sqrt(m);
    if r * r == m {
        r
    } else {
        r + 1
    }
}

/// `floor_sqrt(m)` is the whole number whose square is at most `m` while the
/// square of its successor exceeds `m`.
pub proof fn lemma_floor_sqrt(m: nat)
    ensures
        floor_sqrt(m) * floor_sqrt(m) <= m,
        m < (floor_sqrt(m) + 1) * (floor_sqrt(m) + 1),
    decreases m,
{
    if m == 0 {
        assert(floor_sqrt(m) == 0);
        assert((0 + 1) * (0 + 1) == 1) by (nonlinear_arith);
    } else {
        lemma_floor_sqrt((m - 1) as nat);
        let r = floor_sqrt((m - 1) as nat);
        if (r + 1) * (r + 1) > m {
            assert(floor_sqrt(m) == r);
        } else {
            assert(floor_sqrt(m) == r + 1);
            assert((r + 1) * (r + 1) == m);
            let s = r + 1;
            assert(m < (s + 1) * (s + 1)) by (nonlinear_arith)
                requires
                    s * s == m,
                    s >= 1,
            ;
        }
    }
}

proof fn lemma_square_monotone(a: int, b: int)
    requires
        0 <= a <= b,
    ensures
        a * a <= b * b,
{
    assert(a * a <= b * b) by (nonlinear_arith)
        requires
            0 <= a <= b,
    ;
}

/// Any whole number that brackets `m` as `floor_sqrt` does is `floor_sqrt(m)`.
pub proof fn lemma_floor_sqrt_unique(m: nat, r: nat)
    requires
        r * r <= m,
        m < (r + 1) * (r + 1),
    ensures
        r == floor_sqrt(m),
{
    lemma_floor_sqrt(m);
    let s = floor_sqrt(m);
    if r < s {
        lemma_square_monotone((r + 1) as int, s as int);
    } else if s < r {
        lemma_square_monotone((s + 1) as int, r as int);
    }
}

/// The square of `ceil_sqrt(m)` reaches `m`.
pub proof fn lemma_ceil_sqrt(m: nat)
    ensures
        ceil_sqrt(m) * ceil_sqrt(m) >= m,
{
    lemma_floor_sqrt(m);
}

/// No smaller whole number than `ceil_sqrt(m)` has a square that reaches `m`.
pub proof fn lemma_ceil_sqrt_least(m: nat, t: int)
    requires
        t >= 0,
        t * t >= m,
    ensures
        t >= ceil_sqrt(m),
{
    lemma_floor_sqrt(m);
    let r = floor_sqrt(m);
    if t < ceil_sqrt(m) {
        if r * r == m {
            lemma_square_monotone(t + 1, r as int);
            assert(t * t < (t + 1) * (t + 1)) by (nonlinear_arith)
                requires
                    t >= 0,
            ;
        } else {
            lemma_square_monotone(t, r as int);
        }
    }
}

/// The integer square root of `m`, rounded down.
pub fn isqrt(m: u64) -> (r: u64)
    ensures
        r == floor_sqrt(m as nat),
{
    let mut lo: u64 = 0;
    let mut hi: u64 = 4294967296;
    assert(m < hi * hi) by (nonlinear_arith)
        requires
            hi == 4294967296,
            m <= 0xffff_ffff_ffff_ffff,
    ;
    while hi - lo > 1
        invariant
            lo < hi <= 4294967296,
            lo * lo <= m,
            m < hi * hi,
        decreases hi - lo,
    {
        let mid: u64 = lo + (hi - lo) / 2;
        assert(mid * mid <= 0xffff_ffff_ffff_ffff) by (nonlinear_arith)
            requires
                mid < 4294967296,
        ;
        if mid * mid <= m {
            lo = mid;
        } else {
            hi = mid;
        }
    }
    assert(hi == lo + 1);
    proof {
        lemma_floor_sqrt_unique(m as nat, lo as nat);
    }
    lo
}

/// The integer square root of `m`, rounded up.
pub fn isqrt_ceil(m: u64) -> (r: u64)
    ensures
        r == ceil_sqrt(m as nat),
{
    let r = isqrt(m);
    proof {
        lemma_floor_sqrt(m as nat);
        assert(r < 4294967296) by (nonlinear_arith)
            requires
                r * r <= m,
                m <= 0xffff_ffff_ffff_ffff,
        ;
    }
    if r * r == m {
        r
    } else {
        r + 1
    }
}

} // verus!
