//! Fixed-point arithmetic on 128-bit integers with the denominator `ACC`.
//!
//! A fixed-point value is stored as its inner integer `n`, standing for
//! `n / ACC`. Every operation rounds toward zero.
use vstd::prelude::*;

verus! {

/// The fixed-point denominator, a perfect square.
pub const ACC: u128 = 1_000_000_000_000_000_000;

/// The square root of `ACC`.
pub const ACC_SQRT: u128 = 1_000_000_000;

/// `floor(a * b / c)`.
pub open spec fn mul_div_spec(a: int, b: int, c: int) -> int {
    a * b / c
}

proof fn lemma_quotient_small(x: int, h: int, c: int, q: int, r: int)
    requires
        0 <= x < c,
        0 <= h,
        0 <= q,
        0 <= r,
        q * c + r == x * h,
    ensures
        h == 0 ==> q == 0,
        h > 0 ==> q < h,
{
    if h == 0 {
        assert(q * c + r == 0) by (nonlinear_arith)
            requires q * c + r == x * h, h == 0;
        assert(q * c >= 0) by (nonlinear_arith)
            requires q >= 0, c > 0;
        assert(q == 0) by (nonlinear_arith)
            requires q * c == 0, c > 0, q >= 0;
    } else {
        assert(x * h < c * h) by (nonlinear_arith)
            requires 0 <= x < c, h > 0;
        assert(q < h) by (nonlinear_arith)
            requires q * c <= x * h, x * h < c * h, c > 0;
    }
}

/// Returns `(q, r)` with `x * y == q * c + r` and `r < c`, for `x < c`,
/// by doubling along the binary digits of `y`.
fn mul_div_mod_small(x: u128, y: u128, c: u128) -> (res: (u128, u128))
    requires
        x < c,
    ensures
        res.0 * c + res.1 == x * y,
        res.1 < c,
        y == 0 ==> res.0 == 0,
        y > 0 ==> res.0 < y,
    decreases y,
{
    if y == 0 {
        assert(x * y == 0) by (nonlinear_arith)
            requires y == 0;
        return (0, 0);
    }
    let h = y / 2;
    let (q, r) = mul_div_mod_small(x, h, c);
    proof {
        lemma_quotient_small(x as int, h as int, c as int, q as int, r as int);
    }
    // Double: 2 * x * h == 2 * q * c + 2 * r.
    let mut q2: u128;
    let mut r2: u128;
    if r >= c - r {
        q2 = 2 * q + 1;
        r2 = r - (c - r);
    } else {
        q2 = 2 * q;
        r2 = 2 * r;
    }
    assert(q2 * c + r2 == x * (2 * h)) by (nonlinear_arith)
        requires
            q * c + r == x * h,
            (q2 == 2 * q + 1 && r2 == r - (c - r)) || (q2 == 2 * q && r2 == 2 * r),
    ;
    if y % 2 == 1 {
        let q1 = q2;
        let r1 = r2;
        if r2 >= c - x {
            q2 = q2 + 1;
            r2 = r2 - (c - x);
        } else {
            r2 = r2 + x;
        }
        assert(q2 * c + r2 == x * y) by (nonlinear_arith)
            requires
                y == 2 * h + 1,
                q1 * c + r1 == x * (2 * h),
                (q2 == q1 + 1 && r2 == r1 - (c - x)) || (q2 == q1 && r2 == r1 + x),
        ;
    }
    proof {
        assert(r2 < c);
        lemma_quotient_small(x as int, y as int, c as int, q2 as int, r2 as int);
    }
    (q2, r2)
}


proof fn lemma_mul_div_decompose(
    a: int,
    b: int,
    c: int,
    qa: int,
    ra: int,
    qb: int,
    rb: int,
    q0: int,
    r0: int,
)
    requires
        c > 0,
        0 <= qa,
        0 <= ra < c,
        0 <= qb,
        0 <= rb < c,
        0 <= q0,
        0 <= r0 < c,
        a == qa * c + ra,
        b == qb * c + rb,
        ra * rb == q0 * c + r0,
    ensures
        a * b / c == qa * qb * c + qa * rb + ra * qb + q0,
        qa * qb <= qa * qb * c,
        0 <= qa * rb,
        0 <= ra * qb,
{
    let t = qa * qb * c + qa * rb + ra * qb + q0;
    assert(a * b == t * c + r0) by (nonlinear_arith)
        requires
            a == qa * c + ra,
            b == qb * c + rb,
            ra * rb == q0 * c + r0,
            t == qa * qb * c + qa * rb + ra * qb + q0,
    ;
    vstd::arithmetic::div_mod::lemma_fundamental_div_mod_converse(a * b, c, t, r0);
    assert(qa * qb <= qa * qb * c) by (nonlinear_arith)
        requires qa >= 0, qb >= 0, c >= 1;
    assert(0 <= qa * rb) by (nonlinear_arith)
        requires qa >= 0, rb >= 0;
    assert(0 <= ra * qb) by (nonlinear_arith)
        requires ra >= 0, qb >= 0;
}

/// `floor(a * b / c)`, or `None` where that does not fit in 128 bits.
pub fn mul_div(a: u128, b: u128, c: u128) -> (r: Option<u128>)
    requires
        c > 0,
    ensures
        r == (if mul_div_spec(a as int, b as int, c as int) <= u128::MAX {
            Some(mul_div_spec(a as int, b as int, c as int) as u128)
        } else {
            None::<u128>
        }),
{
    let qa = a / c;
    let ra = a % c;
    let qb = b / c;
    let rb = b % c;
    let (q0, r0) = mul_div_mod_small(ra, rb, c);
    proof {
        vstd::arithmetic::div_mod::lemma_fundamental_div_mod(a as int, c as int);
        vstd::arithmetic::div_mod::lemma_fundamental_div_mod(b as int, c as int);
        vstd::arithmetic::mul::lemma_mul_is_commutative(qa as int, c as int);
        vstd::arithmetic::mul::lemma_mul_is_commutative(qb as int, c as int);
        lemma_mul_div_decompose(
            a as int,
            b as int,
            c as int,
            qa as int,
            ra as int,
            qb as int,
            rb as int,
            q0 as int,
            r0 as int,
        );
    }
    let t1 = match qa.checked_mul(qb) {
        Some(v) => v,
        None => return None,
    };
    let t1 = match t1.checked_mul(c) {
        Some(v) => v,
        None => return None,
    };
    let t2 = match qa.checked_mul(rb) {
        Some(v) => v,
        None => return None,
    };
    let t3 = match ra.checked_mul(qb) {
        Some(v) => v,
        None => return None,
    };
    let s = match t1.checked_add(t2) {
        Some(v) => v,
        None => return None,
    };
    let s = match s.checked_add(t3) {
        Some(v) => v,
        None => return None,
    };
    match s.checked_add(q0) {
        Some(v) => Some(v),
        None => None,
    }
}


/// `r` is the integer square root of `n`, rounded down.
pub open spec fn is_sqrt_floor(n: int, r: int) -> bool {
    0 <= r && r * r <= n < (r + 1) * (r + 1)
}

/// The integer square root of `n`, rounded down.
pub open spec fn sqrt_floor(n: int) -> int {
    choose|r: int| is_sqrt_floor(n, r)
}

pub proof fn lemma_sqrt_unique(n: int, r1: int, r2: int)
    requires
        is_sqrt_floor(n, r1),
        is_sqrt_floor(n, r2),
    ensures
        r1 == r2,
{
    if r1 < r2 {
        assert((r1 + 1) * (r1 + 1) <= r2 * r2) by (nonlinear_arith)
            requires 0 <= r1, r1 + 1 <= r2;
    } else if r2 < r1 {
        assert((r2 + 1) * (r2 + 1) <= r1 * r1) by (nonlinear_arith)
            requires 0 <= r2, r2 + 1 <= r1;
    }
}

/// The integer square root of `n`, rounded down.
pub fn integer_sqrt(n: u128) -> (r: u128)
    ensures
        is_sqrt_floor(n as int, r as int),
        r as int == sqrt_floor(n as int),
{
    let mut lo: u128 = 0;
    let mut hi: u128 = 0x1_0000_0000_0000_0000;
    assert(hi * hi > u128::MAX) by (nonlinear_arith)
        requires hi == 0x1_0000_0000_0000_0000u128;
    while hi - lo > 1
        invariant
            lo < hi <= 0x1_0000_0000_0000_0000u128,
            lo * lo <= n,
            n < hi * hi,
        decreases hi - lo,
    {
        let mid = lo + (hi - lo) / 2;
        assert(mid * mid <= u128::MAX) by (nonlinear_arith)
            requires mid < 0x1_0000_0000_0000_0000u128;
        if mid * mid <= n {
            lo = mid;
        } else {
            hi = mid;
        }
    }
    assert(hi == lo + 1);
    proof {
        assert(is_sqrt_floor(n as int, lo as int));
        let r = sqrt_floor(n as int);
        lemma_sqrt_unique(n as int, r, lo as int);
    }
    lo
}

/// `floor(n * rate)` for a fixed-point `rate`, or `None` on overflow.
pub fn checked_mul_int(rate: u128, n: u128) -> (r: Option<u128>)
    ensures
        r == (if mul_div_spec(n as int, rate as int, ACC as int) <= u128::MAX {
            Some(mul_div_spec(n as int, rate as int, ACC as int) as u128)
        } else {
            None::<u128>
        }),
{
    mul_div(n, rate, ACC)
}

/// `floor(n * rate)` for a fixed-point `rate`, saturating at the largest value.
pub fn saturating_mul_int(rate: u128, n: u128) -> (r: u128)
    ensures
        r as int == if mul_div_spec(n as int, rate as int, ACC as int) <= u128::MAX {
            mul_div_spec(n as int, rate as int, ACC as int)
        } else {
            u128::MAX as int
        },
{
    match mul_div(n, rate, ACC) {
        Some(v) => v,
        None => u128::MAX,
    }
}

/// `n * rate` rounded toward zero, for a fixed-point `rate` and a signed `n`.
pub open spec fn signed_mul_int_spec(rate: int, n: int) -> int {
    if n >= 0 {
        mul_div_spec(n, rate, ACC as int)
    } else {
        -mul_div_spec(-n, rate, ACC as int)
    }
}

/// The magnitude of `n`.
pub fn abs_u128(n: i128) -> (r: u128)
    ensures
        r as int == if n >= 0 { n as int } else { -(n as int) },
{
    if n >= 0 {
        n as u128
    } else if n == i128::MIN {
        0x8000_0000_0000_0000_0000_0000_0000_0000u128
    } else {
        (-n) as u128
    }
}

/// The signed product `n * rate` rounded toward zero, saturating at the bounds of `i128`.
pub fn saturating_mul_int_signed(rate: u128, n: i128) -> (r: i128)
    ensures
        r as int == if signed_mul_int_spec(rate as int, n as int) > i128::MAX {
            i128::MAX as int
        } else if signed_mul_int_spec(rate as int, n as int) < i128::MIN {
            i128::MIN as int
        } else {
            signed_mul_int_spec(rate as int, n as int)
        },
{
    let m = mul_div(abs_u128(n), rate, ACC);
    if n >= 0 {
        match m {
            Some(v) => if v > i128::MAX as u128 {
                i128::MAX
            } else {
                v as i128
            },
            None => i128::MAX,
        }
    } else {
        match m {
            Some(v) => if v > 0x8000_0000_0000_0000_0000_0000_0000_0000u128 {
                i128::MIN
            } else if v == 0x8000_0000_0000_0000_0000_0000_0000_0000u128 {
                i128::MIN
            } else {
                -(v as i128)
            },
            None => i128::MIN,
        }
    }
}

/// `floor(n / d)` as a fixed-point value; `None` where `d` is zero or on overflow.
pub fn checked_from_rational(n: u128, d: u128) -> (r: Option<u128>)
    ensures
        r == (if d == 0 || mul_div_spec(n as int, ACC as int, d as int) > u128::MAX {
            None::<u128>
        } else {
            Some(mul_div_spec(n as int, ACC as int, d as int) as u128)
        }),
{
    if d == 0 {
        None
    } else {
        mul_div(n, ACC, d)
    }
}

/// `floor(n / d)` as a fixed-point value, saturating at the largest value
/// (also where `d` is zero).
pub fn saturating_from_rational(n: u128, d: u128) -> (r: u128)
    ensures
        r as int == if d == 0 || mul_div_spec(n as int, ACC as int, d as int) > u128::MAX {
            u128::MAX as int
        } else {
            mul_div_spec(n as int, ACC as int, d as int)
        },
{
    match checked_from_rational(n, d) {
        Some(v) => v,
        None => u128::MAX,
    }
}

/// The fixed-point product `a * b`.
pub fn checked_mul(a: u128, b: u128) -> (r: Option<u128>)
    ensures
        r == (if mul_div_spec(a as int, b as int, ACC as int) <= u128::MAX {
            Some(mul_div_spec(a as int, b as int, ACC as int) as u128)
        } else {
            None::<u128>
        }),
{
    mul_div(a, b, ACC)
}

/// The fixed-point quotient `a / b`; `None` where `b` is zero or on overflow.
pub fn checked_div(a: u128, b: u128) -> (r: Option<u128>)
    ensures
        r == (if b == 0 || mul_div_spec(a as int, ACC as int, b as int) > u128::MAX {
            None::<u128>
        } else {
            Some(mul_div_spec(a as int, ACC as int, b as int) as u128)
        }),
{
    if b == 0 {
        None
    } else {
        mul_div(a, ACC, b)
    }
}

/// The fixed-point square root of `n`, rounded down.
pub fn fixed_sqrt(n: u128) -> (r: u128)
    ensures
        r == sqrt_floor(n as int) * ACC_SQRT,
{
    let s = integer_sqrt(n);
    assert(s < 0x1_0000_0000_0000_0000u128) by (nonlinear_arith)
        requires s * s <= n, n <= u128::MAX;
    assert(s * ACC_SQRT <= u128::MAX) by (nonlinear_arith)
        requires s < 0x1_0000_0000_0000_0000u128;
    s * ACC_SQRT
}

} // verus!
