//! Rounding to the 53 significant bits of a binary64 number, in whole-number
//! arithmetic. The exponent is unbounded here: nothing in this crate depends on
//! values so large or so small that binary64 would run out of exponents.
use crate::natural::Natural;
use vstd::arithmetic::power2::{
    lemma2_to64, lemma2_to64_rest, lemma_pow2_strictly_increases, lemma_pow2_unfold, pow2,
};
use vstd::prelude::*;

verus! {

/// `2^52`, the least significand with 53 bits.
pub const LEAST: u64 = 4_503_599_627_370_496;

/// `2^53`, the first number past the significands with 53 bits.
pub const PAST: u64 = 9_007_199_254_740_992;

/// `a / b` rounded to the nearest whole number, halves to the even one.
pub open spec fn half_even(a: nat, b: nat) -> nat {
    let q = a / b;
    let rest = a % b;
    if 2 * rest < b {
        q
    } else if 2 * rest > b {
        q + 1
    } else if q % 2 == 0 {
        q
    } else {
        q + 1
    }
}

/// How often `a / b` must be halved to be below `2^53`.
pub open spec fn halvings(a: nat, b: nat) -> nat
    decreases a - b,
{
    if b > 0 && a >= b * PAST {
        1 + halvings(a, 2 * b)
    } else {
        0
    }
}

/// How often `a / b` must be doubled to reach `2^52`.
pub open spec fn doublings(a: nat, b: nat) -> nat
    decreases 2 * (b * LEAST) - a,
{
    if 0 < a && a < b * LEAST {
        1 + doublings(2 * a, b)
    } else {
        0
    }
}

/// The binary64 significand of `a / b`: the quotient, halved or doubled until
/// it has 53 bits, and rounded. It is `2^53` where rounding carries.
pub open spec fn significand(a: nat, b: nat) -> nat {
    half_even(a * pow2(doublings(a, b)), b * pow2(halvings(a, b)))
}

/// The binary64 number nearest to `a / b`, as a fraction.
pub open spec fn nearest_of(a: nat, b: nat) -> (nat, nat) {
    (significand(a, b) * pow2(halvings(a, b)), pow2(doublings(a, b)))
}

/// A binary64 number: `mantissa * 2^up / 2^down`.
pub struct Rounded {
    pub mantissa: u64,
    pub up: u128,
    pub down: u128,
}

impl Rounded {
    pub open spec fn fraction(self) -> (nat, nat) {
        (self.mantissa as nat * pow2(self.up as nat), pow2(self.down as nat))
    }
}

/// `n * 2^times`.
pub fn shifted(n: &Natural, times: u128) -> (r: Natural)
    ensures
        r@ == n@ * pow2(times as nat),
{
    let mut out = n.copy();
    let mut i: u128 = 0;
    proof {
        lemma2_to64();
        lemma2_to64_rest();
        assert(n@ * 1 == n@) by (nonlinear_arith);
    }
    while i < times
        invariant
            i <= times,
            out@ == n@ * pow2(i as nat),
        decreases times - i,
    {
        proof {
            lemma_pow2_unfold((i + 1) as nat);
            assert(2 * (n@ * pow2(i as nat)) == n@ * (2 * pow2(i as nat))) by (nonlinear_arith);
        }
        out = out.double();
        i = i + 1;
    }
    out
}

/// `half_even(a, b)` where the quotient has 53 bits; `d` is `b * 2^52`.
fn divide(a: &Natural, b: Ghost<nat>, d: &Natural) -> (r: u64)
    requires
        b@ > 0,
        d@ == b@ * LEAST,
        d@ <= a@ < 2 * d@,
    ensures
        r == half_even(a@, b@),
        r <= PAST,
{
    let mut q: u64 = 0;
    let mut r = a.copy();
    let mut j: u64 = 0;
    proof {
        lemma2_to64();
        lemma2_to64_rest();
    }
    while j < 52
        invariant
            j <= 52,
            q < pow2(j as nat),
            r@ < 2 * d@,
            a@ * pow2(j as nat) == 2 * (q as nat * d@) + r@,
        decreases 52 - j,
    {
        let ghost q0 = q as nat;
        let ghost r0 = r@;
        proof {
            lemma2_to64();
            lemma2_to64_rest();
            lemma_pow2_unfold((j + 1) as nat);
            if j < 51 {
                lemma_pow2_strictly_increases((j + 1) as nat, 52);
            }
        }
        if r.less(d) {
            q = 2 * q;
            r = r.double();
            assert(2 * ((2 * q0) * d@) + 2 * r0 == 2 * (2 * (q0 * d@) + r0)) by (nonlinear_arith);
        } else {
            q = 2 * q + 1;
            r = r.minus(d).double();
            assert(2 * ((2 * q0 + 1) * d@) + 2 * (r0 - d@) == 2 * (2 * (q0 * d@) + r0))
                by (nonlinear_arith);
        }
        assert(a@ * pow2((j + 1) as nat) == 2 * (a@ * pow2(j as nat))) by (nonlinear_arith)
            requires
                pow2((j + 1) as nat) == 2 * pow2(j as nat),
        ;
        j = j + 1;
    }
    proof {
        lemma2_to64();
        lemma2_to64_rest();
    }
    let ghost q0 = q as nat;
    let ghost r0 = r@;
    if r.less(d) {
        q = 2 * q;
        assert((2 * q0) * d@ + r0 == 2 * (q0 * d@) + r0) by (nonlinear_arith);
    } else {
        q = 2 * q + 1;
        r = r.minus(d);
        assert((2 * q0 + 1) * d@ + (r0 - d@) == 2 * (q0 * d@) + r0) by (nonlinear_arith);
    }
    proof {
        lemma_quotient(a@, b@, q as nat, r@);
    }
    let twice = r.double();
    if twice.less(d) {
        q
    } else if d.less(&twice) {
        q + 1
    } else if q % 2 == 0 {
        q
    } else {
        q + 1
    }
}

proof fn lemma_quotient(a: nat, b: nat, q: nat, r: nat)
    requires
        b > 0,
        a * LEAST == q * (b * LEAST) + r,
        r < b * LEAST,
    ensures
        q == a / b,
        r == (a % b) * LEAST,
        2 * r < b * LEAST <==> 2 * (a % b) < b,
        2 * r > b * LEAST <==> 2 * (a % b) > b,
{
    let rest = a - q * b;
    assert(r == rest * LEAST) by (nonlinear_arith)
        requires
            a * LEAST == q * (b * LEAST) + r,
            rest == a - q * b,
    ;
    assert(0 <= rest < b) by (nonlinear_arith)
        requires
            r == rest * LEAST,
            0 <= r < b * LEAST,
    ;
    vstd::arithmetic::div_mod::lemma_fundamental_div_mod_converse(
        a as int,
        b as int,
        q as int,
        rest,
    );
    assert(2 * (rest * LEAST) < b * LEAST <==> 2 * rest < b) by (nonlinear_arith);
    assert(2 * (rest * LEAST) > b * LEAST <==> 2 * rest > b) by (nonlinear_arith);
}

/// The binary64 number nearest to `a / b`.
pub fn nearest(a: &Natural, b: &Natural) -> (r: Rounded)
    requires
        b@ > 0,
    ensures
        r.fraction() == nearest_of(a@, b@),
        r.mantissa <= PAST,
        r.mantissa == significand(a@, b@),
        r.up == halvings(a@, b@),
        r.down == doublings(a@, b@),
        r.up == 0 || r.down == 0,
{
    proof {
        lemma2_to64();
        lemma2_to64_rest();
    }
    if a.is_zero() {
        assert(0 * pow2(0) == 0);
        assert(half_even(0, b@ * pow2(0)) == 0) by {
            assert(b@ * pow2(0) == b@) by (nonlinear_arith)
                requires
                    pow2(0) == 1,
            ;
            vstd::arithmetic::div_mod::lemma_fundamental_div_mod_converse(0, b@ as int, 0, 0);
        }
        assert(halvings(0, b@) == 0) by {
            assert(b@ * PAST > 0) by (nonlinear_arith)
                requires
                    b@ > 0,
            ;
        }
        return Rounded { mantissa: 0, up: 0, down: 0 };
    }
    let size = a.bits();
    let mut d = shifted(b, 52);
    let mut scaled = b.copy();
    let mut up: u128 = 0;
    proof {
        assert(b@ * pow2(0) == b@) by (nonlinear_arith)
            requires
                pow2(0) == 1,
        ;
    }
    while !a.less(&d.double())
        invariant
            a@ > 0,
            b@ > 0,
            a@ < pow2(size as nat),
            size <= 32 * usize::MAX,
            scaled@ > 0,
            scaled@ == b@ * pow2(up as nat),
            d@ == scaled@ * LEAST,
            up > 0 ==> d@ <= a@,
            up > 0 ==> a@ >= b@ * PAST,
            halvings(a@, b@) == up + halvings(a@, scaled@),
            up <= size,
        decreases a@ - scaled@,
    {
        proof {
            assert(2 * d@ == scaled@ * PAST) by (nonlinear_arith)
                requires
                    d@ == scaled@ * LEAST,
                    PAST == 2 * LEAST,
            ;
            lemma_pow2_unfold((up + 1) as nat);
            assert(2 * (b@ * pow2(up as nat)) == b@ * (2 * pow2(up as nat))) by (nonlinear_arith);
            assert(b@ * pow2(up as nat) >= pow2(up as nat)) by (nonlinear_arith)
                requires
                    b@ >= 1,
            ;
            assert(scaled@ <= a@) by (nonlinear_arith)
                requires
                    a@ >= scaled@ * PAST,
            ;
            if up >= size {
                assert(up == size);
            }
            assert(up < size);
            assert(a@ >= b@ * PAST) by (nonlinear_arith)
                requires
                    a@ >= scaled@ * PAST,
                    scaled@ == b@ * pow2(up as nat),
                    pow2(up as nat) >= 1,
            {
                assert(b@ * pow2(up as nat) >= b@);
            }
        }
        scaled = scaled.double();
        d = d.double();
        up = up + 1;
    }
    let limit = d.bits();
    let mut grown = a.copy();
    let mut down: u128 = 0;
    proof {
        assert(2 * d@ == scaled@ * PAST) by (nonlinear_arith)
            requires
                d@ == scaled@ * LEAST,
                PAST == 2 * LEAST,
        ;
        assert(a@ * pow2(0) == a@) by (nonlinear_arith)
            requires
                pow2(0) == 1,
        ;
        if up > 0 {
            assert(a@ >= b@ * LEAST) by (nonlinear_arith)
                requires
                    a@ >= b@ * PAST,
                    PAST == 2 * LEAST,
            ;
        } else {
            assert(scaled@ == b@);
        }
    }
    while grown.less(&d)
        invariant
            a@ > 0,
            b@ > 0,
            scaled@ > 0,
            grown@ == a@ * pow2(down as nat),
            grown@ > 0,
            grown@ < 2 * d@,
            d@ == scaled@ * LEAST,
            d@ < pow2(limit as nat),
            limit <= 32 * usize::MAX,
            up > 0 ==> d@ <= grown@,
            up == 0 ==> scaled@ == b@,
            up == 0 ==> doublings(a@, b@) == down + doublings(grown@, b@),
            up > 0 ==> down == 0,
            down <= limit,
        decreases 2 * d@ - grown@,
    {
        proof {
            lemma_pow2_unfold((down + 1) as nat);
            assert(2 * (a@ * pow2(down as nat)) == a@ * (2 * pow2(down as nat)))
                by (nonlinear_arith);
            assert(a@ * pow2(down as nat) >= pow2(down as nat)) by (nonlinear_arith)
                requires
                    a@ >= 1,
            ;
            if down >= limit {
                assert(down == limit);
            }
        }
        grown = grown.double();
        down = down + 1;
    }
    let mantissa = divide(&grown, Ghost(scaled@), &d);
    Rounded { mantissa, up, down }
}

/// A whole number below `2^53`, as any multiple of it over the same multiple of
/// one, is its own nearest number.
pub proof fn lemma_exact(n: nat, b: nat)
    requires
        b > 0,
        n < PAST,
    ensures
        nearest_of(n * b, b) == (
            n * pow2(doublings(n * b, b)),
            pow2(doublings(n * b, b)),
        ),
{
    lemma2_to64();
    let d = doublings(n * b, b);
    assert(n * b < b * PAST) by (nonlinear_arith)
        requires
            n < PAST,
            b > 0,
    ;
    assert(halvings(n * b, b) == 0);
    let top = (n * b) * pow2(d);
    assert(top == (n * pow2(d)) * b) by (nonlinear_arith)
        requires
            top == (n * b) * pow2(d),
    ;
    assert(b * pow2(0) == b) by (nonlinear_arith)
        requires
            pow2(0) == 1,
    ;
    vstd::arithmetic::div_mod::lemma_fundamental_div_mod_converse(
        top as int,
        b as int,
        (n * pow2(d)) as int,
        0,
    );
    assert((n * pow2(d)) * 1 == n * pow2(d));
}

/// The doublings of `a / b` number at most `k` where `k` of them reach `2^52`.
pub proof fn lemma_doublings_bound(a: nat, b: nat, k: nat)
    requires
        a * pow2(k) >= b * LEAST,
    ensures
        doublings(a, b) <= k,
    decreases k,
{
    lemma2_to64();
    if k == 0 {
        assert(a * 1 == a);
    } else {
        lemma_pow2_unfold(k);
        assert(a * (2 * pow2((k - 1) as nat)) == (2 * a) * pow2((k - 1) as nat))
            by (nonlinear_arith);
        lemma_doublings_bound(2 * a, b, (k - 1) as nat);
    }
}

/// A rounded quotient is within a half of the quotient, and where it is a half
/// away it is even.
pub proof fn law_half_even(a: nat, b: nat)
    requires
        b > 0,
    ensures
        ({
            let r = half_even(a, b) * b;
            &&& 2 * r <= 2 * a + b
            &&& 2 * a <= 2 * r + b
            &&& 2 * r == 2 * a + b || 2 * a == 2 * r + b ==> half_even(a, b) % 2 == 0
        }),
{
    let q = a / b;
    let rest = a % b;
    vstd::arithmetic::div_mod::lemma_fundamental_div_mod(a as int, b as int);
    assert(b * q == q * b) by (nonlinear_arith);
    assert((q + 1) * b == q * b + b) by (nonlinear_arith);
    assert(rest < b);
}

proof fn lemma_halvings(a: nat, b: nat)
    requires
        b > 0,
    ensures
        a < b * pow2(halvings(a, b)) * PAST,
        halvings(a, b) > 0 ==> a >= b * pow2(halvings(a, b)) * LEAST,
        halvings(a, b) > 0 ==> a >= b * PAST,
    decreases a - b,
{
    lemma2_to64();
    assert(b * pow2(0) == b) by (nonlinear_arith)
        requires
            pow2(0) == 1,
    ;
    if a >= b * PAST {
        assert(a - 2 * b < a - b && a - b >= 0) by (nonlinear_arith)
            requires
                b > 0,
                a >= b * PAST,
                PAST == 9_007_199_254_740_992,
        ;
        lemma_halvings(a, 2 * b);
        let h = halvings(a, 2 * b);
        lemma_pow2_unfold(h + 1);
        assert((2 * b) * pow2(h) == b * (2 * pow2(h))) by (nonlinear_arith);
        assert(halvings(a, b) == h + 1);
        if h == 0 {
            assert(2 * b * pow2(0) == 2 * b) by (nonlinear_arith)
                requires
                    pow2(0) == 1,
            ;
            assert(2 * b * LEAST == b * PAST) by (nonlinear_arith)
                requires
                    PAST == 2 * LEAST,
            ;
        }
    }
}

proof fn lemma_doublings(a: nat, b: nat)
    requires
        a > 0,
        b > 0,
    ensures
        a * pow2(doublings(a, b)) >= b * LEAST,
        doublings(a, b) > 0 ==> a * pow2(doublings(a, b)) < b * PAST,
        doublings(a, b) > 0 ==> a < b * LEAST,
    decreases 2 * (b * LEAST) - a,
{
    lemma2_to64();
    assert(a * pow2(0) == a) by (nonlinear_arith)
        requires
            pow2(0) == 1,
    ;
    if a < b * LEAST {
        lemma_doublings(2 * a, b);
        let d = doublings(2 * a, b);
        lemma_pow2_unfold(d + 1);
        assert((2 * a) * pow2(d) == a * (2 * pow2(d))) by (nonlinear_arith);
        assert(doublings(a, b) == d + 1);
        if d == 0 {
            assert(2 * a * pow2(0) == 2 * a) by (nonlinear_arith)
                requires
                    pow2(0) == 1,
            ;
            assert(2 * (b * LEAST) == b * PAST) by (nonlinear_arith)
                requires
                    PAST == 2 * LEAST,
            ;
        }
    }
}

/// The number nearest to `a / b` has 53 bits, and is within a half of its last
/// bit of the quotient.
pub proof fn law_nearest(a: nat, b: nat)
    requires
        a > 0,
        b > 0,
    ensures
        ({
            let up = pow2(halvings(a, b));
            let down = pow2(doublings(a, b));
            let m = significand(a, b);
            &&& nearest_of(a, b) == (m * up, down)
            &&& up == 1 || down == 1
            &&& b * up * 4_503_599_627_370_496 <= a * down
            &&& a * down < b * up * 9_007_199_254_740_992
            &&& 2 * (m * (b * up)) <= 2 * (a * down) + b * up
            &&& 2 * (a * down) <= 2 * (m * (b * up)) + b * up
        }),
{
    lemma2_to64();
    let h = halvings(a, b);
    let d = doublings(a, b);
    let up = pow2(h);
    let down = pow2(d);
    lemma_halvings(a, b);
    lemma_doublings(a, b);
    vstd::arithmetic::power2::lemma_pow2_pos(h);
    assert(b * up > 0) by (nonlinear_arith)
        requires
            b > 0,
            up > 0,
    ;
    assert(b * 1 == b && a * 1 == a);
    if h > 0 {
        assert(b * PAST >= b * LEAST) by (nonlinear_arith)
            requires
                PAST == 2 * LEAST,
        ;
        assert(d == 0);
    }
    law_half_even(a * down, b * up);
}

/// Only whole numbers with more than 53 bits, and quotients, are changed at all:
/// what fits is its own nearest number.
pub proof fn law_what_fits_is_exact(n: nat, b: nat)
    requires
        b > 0,
        n < 9_007_199_254_740_992,
    ensures
        nearest_of(n * b, b).0 == n * nearest_of(n * b, b).1,
{
    lemma_exact(n, b);
}

} // verus!
