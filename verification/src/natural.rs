//! Natural numbers of any size, for arithmetic that must stay exact.
use vstd::arithmetic::power2::{lemma2_to64, lemma_pow2_adds, pow2};
use vstd::prelude::*;

verus! {

/// The number of values of one limb.
pub const LIMB: u64 = 4_294_967_296;

/// The number written with these limbs, most significant first.
pub open spec fn limbs_value(limbs: Seq<u32>) -> nat
    decreases limbs.len(),
{
    if limbs.len() == 0 {
        0
    } else {
        limbs_value(limbs.drop_last()) * (LIMB as nat) + limbs.last() as nat
    }
}

/// A natural number.
pub struct Natural {
    limbs: Vec<u32>,
}

impl View for Natural {
    type V = nat;

    closed spec fn view(&self) -> nat {
        limbs_value(self.limbs@)
    }
}

/// `a * m + c` for the number `a` in the first `i` limbs.
fn limbs_mul_add(a: &Vec<u32>, i: usize, m: u32, c: u32) -> (r: Vec<u32>)
    requires
        i <= a@.len(),
    ensures
        limbs_value(r@) == limbs_value(a@.take(i as int)) * (m as nat) + c as nat,
    decreases i,
{
    if i == 0 {
        let mut r: Vec<u32> = Vec::new();
        assert(limbs_value(r@) == 0);
        if c > 0 {
            r.push(c);
            assert(r@.drop_last() =~= Seq::<u32>::empty());
        }
        assert(limbs_value(a@.take(0)) == 0);
        assert(0 * (m as nat) == 0);
        r
    } else {
        let d = a[i - 1];
        assert((d as u64) * (m as u64) <= 0xffff_ffff * 0xffff_ffff) by (nonlinear_arith)
            requires
                d <= 0xffff_ffff,
                m <= 0xffff_ffff,
        ;
        let x: u64 = (d as u64) * (m as u64) + c as u64;
        let low: u32 = (x % LIMB) as u32;
        let high: u32 = (x / LIMB) as u32;
        let mut r = limbs_mul_add(a, i - 1, m, high);
        let ghost head = r@;
        let ghost front = limbs_value(head);
        r.push(low);
        proof {
            let before = limbs_value(a@.take(i - 1));
            assert(a@.take(i as int).drop_last() == a@.take(i - 1));
            assert(r@.drop_last() =~= head);
            assert(front == before * (m as nat) + high as nat);
            assert(limbs_value(r@) == front * (LIMB as nat) + low as nat);
            assert((before * (m as nat) + high as nat) * (LIMB as nat) + low as nat == (before * (
            LIMB as nat) + d as nat) * (m as nat) + c as nat) by (nonlinear_arith)
                requires
                    d as nat * (m as nat) + c as nat == high as nat * (LIMB as nat) + low as nat,
            ;
        }
        r
    }
}

/// Whether the number in the first `i` limbs is zero.
fn limbs_zero(a: &Vec<u32>, i: usize) -> (r: bool)
    requires
        i <= a@.len(),
    ensures
        r == (limbs_value(a@.take(i as int)) == 0),
    decreases i,
{
    if i == 0 {
        true
    } else {
        assert(a@.take(i as int).drop_last() == a@.take(i - 1));
        assert(limbs_value(a@.take(i - 1)) > 0 ==> limbs_value(a@.take(i - 1)) * (LIMB as nat) > 0)
            by (nonlinear_arith);
        a[i - 1] == 0 && limbs_zero(a, i - 1)
    }
}

/// Whether the number in the first `i` limbs of `a` is below, at or above the
/// one in the first `j` limbs of `b`: -1, 0 or 1.
fn limbs_order(a: &Vec<u32>, i: usize, b: &Vec<u32>, j: usize) -> (r: i8)
    requires
        i <= a@.len(),
        j <= b@.len(),
    ensures
        r == -1 || r == 0 || r == 1,
        r == -1 <==> limbs_value(a@.take(i as int)) < limbs_value(b@.take(j as int)),
        r == 0 <==> limbs_value(a@.take(i as int)) == limbs_value(b@.take(j as int)),
    decreases i,
{
    if i == 0 {
        if limbs_zero(b, j) {
            0
        } else {
            -1
        }
    } else if j == 0 {
        if limbs_zero(a, i) {
            0
        } else {
            1
        }
    } else {
        let head = limbs_order(a, i - 1, b, j - 1);
        let x = a[i - 1];
        let y = b[j - 1];
        proof {
            assert(a@.take(i as int).drop_last() == a@.take(i - 1));
            assert(b@.take(j as int).drop_last() == b@.take(j - 1));
            let p = limbs_value(a@.take(i - 1));
            let q = limbs_value(b@.take(j - 1));
            assert(p < q ==> p * (LIMB as nat) + (x as nat) < q * (LIMB as nat)) by (nonlinear_arith)
                requires
                    x <= 0xffff_ffff,
            ;
            assert(q < p ==> q * (LIMB as nat) + (y as nat) < p * (LIMB as nat)) by (nonlinear_arith)
                requires
                    y <= 0xffff_ffff,
            ;
        }
        if head != 0 {
            head
        } else if x < y {
            -1
        } else if x == y {
            0
        } else {
            1
        }
    }
}

/// The number in the first `i` limbs of `a` less that in the first `j` limbs
/// of `b`, less `borrow`.
fn limbs_minus(a: &Vec<u32>, i: usize, b: &Vec<u32>, j: usize, borrow: u32) -> (r: Vec<u32>)
    requires
        i <= a@.len(),
        j <= b@.len(),
        borrow <= 1,
        limbs_value(b@.take(j as int)) + borrow <= limbs_value(a@.take(i as int)),
    ensures
        limbs_value(r@) == limbs_value(a@.take(i as int)) - limbs_value(b@.take(j as int)) - borrow,
    decreases i,
{
    if i == 0 {
        Vec::new()
    } else {
        let x: u64 = a[i - 1] as u64;
        let last: u64 = if j == 0 {
            0
        } else {
            b[j - 1] as u64
        };
        let y: u64 = last + borrow as u64;
        let next: usize = if j == 0 {
            0
        } else {
            j - 1
        };
        let low: u32;
        let carry: u32;
        if x >= y {
            low = (x - y) as u32;
            carry = 0;
        } else {
            low = (x + LIMB - y) as u32;
            carry = 1;
        }
        proof {
            assert(a@.take(i as int).drop_last() == a@.take(i - 1));
            if j > 0 {
                assert(b@.take(j as int).drop_last() == b@.take(j - 1));
            }
            let p = limbs_value(a@.take(i - 1));
            let q = limbs_value(b@.take(next as int));
            assert(limbs_value(b@.take(j as int)) == q * (LIMB as nat) + last as nat);
            assert(q + carry <= p) by (nonlinear_arith)
                requires
                    q * (LIMB as nat) + y <= p * (LIMB as nat) + x,
                    x < LIMB,
                    carry == (if x >= y {
                        0int
                    } else {
                        1int
                    }),
            ;
            assert((p - q - carry) * (LIMB as nat) + low == p * (LIMB as nat) + x - q * (
            LIMB as nat) - y) by (nonlinear_arith)
                requires
                    low == x - y + carry * (LIMB as nat),
            ;
        }
        let mut r = limbs_minus(a, i - 1, b, next, carry);
        let ghost head = r@;
        let ghost front = limbs_value(head);
        r.push(low);
        assert(r@.drop_last() =~= head);
        assert(limbs_value(r@) == front * (LIMB as nat) + low as nat);
        r
    }
}

/// A number with `n` limbs is below `2^(32 n)`.
proof fn lemma_limbs_bound(limbs: Seq<u32>)
    ensures
        limbs_value(limbs) < pow2(32 * limbs.len()),
    decreases limbs.len(),
{
    lemma2_to64();
    if limbs.len() > 0 {
        let front = limbs.drop_last();
        lemma_limbs_bound(front);
        lemma_pow2_adds(32 * front.len(), 32);
        assert(32 * front.len() + 32 == 32 * limbs.len());
        assert(limbs_value(front) * (LIMB as nat) + limbs.last() < pow2(32 * front.len()) * (
        LIMB as nat)) by (nonlinear_arith)
            requires
                limbs_value(front) < pow2(32 * front.len()),
                limbs.last() < LIMB,
        ;
    }
}

impl Natural {
    pub fn from_u64(n: u64) -> (r: Natural)
        ensures
            r@ == n,
    {
        let high: u32 = (n / LIMB) as u32;
        let low: u32 = (n % LIMB) as u32;
        let mut limbs: Vec<u32> = Vec::new();
        limbs.push(high);
        limbs.push(low);
        assert(limbs@.drop_last() =~= seq![high]);
        assert(seq![high].drop_last() =~= Seq::<u32>::empty());
        assert(limbs_value(Seq::<u32>::empty()) == 0);
        assert(limbs_value(seq![high]) == high);
        Natural { limbs }
    }

    /// `self * m + c`.
    pub fn mul_add(&self, m: u32, c: u32) -> (r: Natural)
        ensures
            r@ == self@ * (m as nat) + c as nat,
    {
        assert(self.limbs@.take(self.limbs@.len() as int) == self.limbs@);
        Natural { limbs: limbs_mul_add(&self.limbs, self.limbs.len(), m, c) }
    }

    pub fn double(&self) -> (r: Natural)
        ensures
            r@ == 2 * self@,
    {
        self.mul_add(2, 0)
    }

    pub fn is_zero(&self) -> (r: bool)
        ensures
            r == (self@ == 0),
    {
        assert(self.limbs@.take(self.limbs@.len() as int) == self.limbs@);
        limbs_zero(&self.limbs, self.limbs.len())
    }

    /// `self < other`.
    pub fn less(&self, other: &Natural) -> (r: bool)
        ensures
            r == (self@ < other@),
    {
        assert(self.limbs@.take(self.limbs@.len() as int) == self.limbs@);
        assert(other.limbs@.take(other.limbs@.len() as int) == other.limbs@);
        limbs_order(&self.limbs, self.limbs.len(), &other.limbs, other.limbs.len()) == -1
    }

    /// `self - other`.
    pub fn minus(&self, other: &Natural) -> (r: Natural)
        requires
            other@ <= self@,
        ensures
            r@ == self@ - other@,
    {
        assert(self.limbs@.take(self.limbs@.len() as int) == self.limbs@);
        assert(other.limbs@.take(other.limbs@.len() as int) == other.limbs@);
        Natural {
            limbs: limbs_minus(&self.limbs, self.limbs.len(), &other.limbs, other.limbs.len(), 0),
        }
    }

    /// A number of bits that is enough to write this number.
    pub fn bits(&self) -> (r: u128)
        ensures
            self@ < pow2(r as nat),
            r <= 32 * usize::MAX,
    {
        proof {
            lemma_limbs_bound(self.limbs@);
        }
        32 * (self.limbs.len() as u128)
    }

    pub fn copy(&self) -> (r: Natural)
        ensures
            r@ == self@,
    {
        self.mul_add(1, 0)
    }
}

} // verus!
