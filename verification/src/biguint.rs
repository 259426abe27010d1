//! Unsigned integers of arbitrary size, held as little-endian 64-bit limbs.

use vstd::prelude::*;

verus! {

/// The weight of one limb position: 2^64.
spec fn limb_base() -> nat {
    0x1_0000_0000_0000_0000
}

/// `limb_base()` raised to the power `n`.
spec fn base_pow(n: nat) -> nat
    decreases n,
{
    if n == 0 {
        1
    } else {
        limb_base() * base_pow((n - 1) as nat)
    }
}

/// The limb at position `i`, taking every position past the end as zero.
spec fn limb_at(limbs: Seq<u64>, i: int) -> nat {
    if 0 <= i < limbs.len() {
        limbs[i] as nat
    } else {
        0
    }
}

/// The number that the lowest `n` limb positions stand for:
/// the sum of `limb_at(limbs, i) * base_pow(i)` over `i < n`.
spec fn limbs_value(limbs: Seq<u64>, n: nat) -> nat
    decreases n,
{
    if n == 0 {
        0
    } else {
        limbs_value(limbs, (n - 1) as nat) + limb_at(limbs, n - 1) * base_pow((n - 1) as nat)
    }
}

/// One more limb position adds that limb times its weight.
proof fn lemma_value_step(limbs: Seq<u64>, n: nat)
    ensures
        limbs_value(limbs, n + 1) == limbs_value(limbs, n) + limb_at(limbs, n as int) * base_pow(n),
        base_pow(n + 1) == limb_base() * base_pow(n),
{
}

/// The lowest `n` limb positions always stand for a number below `base_pow(n)`.
proof fn lemma_value_bound(limbs: Seq<u64>, n: nat)
    ensures
        limbs_value(limbs, n) < base_pow(n),
    decreases n,
{
    if n > 0 {
        let m = (n - 1) as nat;
        lemma_value_bound(limbs, m);
        let d = limb_at(limbs, m as int);
        let p = base_pow(m);
        let lo = limbs_value(limbs, m);
        assert(lo + d * p < limb_base() * p) by (nonlinear_arith)
            requires
                lo < p,
                d < limb_base(),
        ;
    }
}

/// Limb sequences that agree on the lowest `n` positions stand for the same
/// number there.
proof fn lemma_value_agree(a: Seq<u64>, b: Seq<u64>, n: nat)
    requires
        forall|i: int| 0 <= i < n ==> limb_at(a, i) == limb_at(b, i),
    ensures
        limbs_value(a, n) == limbs_value(b, n),
    decreases n,
{
    if n > 0 {
        lemma_value_agree(a, b, (n - 1) as nat);
    }
}

/// Positions past the end of the sequence add nothing.
proof fn lemma_value_past_end(limbs: Seq<u64>, n: nat)
    requires
        n >= limbs.len(),
    ensures
        limbs_value(limbs, n) == limbs_value(limbs, limbs.len()),
    decreases n,
{
    if n > limbs.len() {
        lemma_value_past_end(limbs, (n - 1) as nat);
        assert(limb_at(limbs, n - 1) * base_pow((n - 1) as nat) == 0) by (nonlinear_arith)
            requires
                limb_at(limbs, n - 1) == 0,
        ;
    }
}

/// Where two limb sequences agree at every position above `i` and below
/// `n`, the one with the smaller limb at `i` stands for the smaller number.
proof fn lemma_value_decided_at(a: Seq<u64>, b: Seq<u64>, i: nat, n: nat)
    requires
        i < n,
        limb_at(a, i as int) < limb_at(b, i as int),
        forall|j: int| i < j < n ==> limb_at(a, j) == limb_at(b, j),
    ensures
        limbs_value(a, n) < limbs_value(b, n),
    decreases n,
{
    if n == i + 1 {
        lemma_value_bound(a, i);
        let p = base_pow(i);
        let lo = limbs_value(a, i);
        let x = limb_at(a, i as int);
        let y = limb_at(b, i as int);
        assert(lo + x * p < y * p) by (nonlinear_arith)
            requires
                lo < p,
                x < y,
        ;
    } else {
        lemma_value_decided_at(a, b, i, (n - 1) as nat);
    }
}

/// The number splits into its lowest limb and the number that the other
/// limbs stand for, one position up.
proof fn lemma_value_shift(limbs: Seq<u64>, n: nat)
    requires
        n >= 1,
        limbs.len() >= 1,
    ensures
        limbs_value(limbs, n) == limb_at(limbs, 0) + limb_base() * limbs_value(
            limbs.drop_first(),
            (n - 1) as nat,
        ),
    decreases n,
{
    let rest = limbs.drop_first();
    if n == 1 {
        assert(limbs_value(limbs, 0) == 0);
        assert(limbs_value(rest, 0) == 0);
        assert(limb_at(limbs, 0) * base_pow(0) == limb_at(limbs, 0)) by (nonlinear_arith)
            requires
                base_pow(0) == 1,
        ;
    } else {
        let m = (n - 2) as nat;
        lemma_value_shift(limbs, (n - 1) as nat);
        lemma_value_step(rest, m);
        assert(limb_at(limbs, n - 1) == limb_at(rest, m as int));
        let d = limb_at(rest, m as int);
        let lower = limbs_value(rest, m);
        let p = base_pow(m);
        assert(limb_base() * lower + d * (limb_base() * p) == limb_base() * (lower + d * p))
            by (nonlinear_arith);
    }
}

/// The number that a sequence of bytes stands for, the most significant
/// byte first.
pub open spec fn be_bytes_value(bytes: Seq<u8>) -> nat
    decreases bytes.len(),
{
    if bytes.len() == 0 {
        0
    } else {
        256 * be_bytes_value(bytes.drop_last()) + bytes.last() as nat
    }
}

/// One more byte at the end multiplies the number by 256 and adds the byte.
pub proof fn lemma_be_bytes_push(bytes: Seq<u8>, byte: u8)
    ensures
        be_bytes_value(bytes.push(byte)) == 256 * be_bytes_value(bytes) + byte,
{
    assert(bytes.push(byte).drop_last() =~= bytes);
}

/// The bytes carry no zero in front.
pub open spec fn minimal_bytes(bytes: Seq<u8>) -> bool {
    bytes.len() == 0 || bytes[0] != 0
}

/// An unsigned integer without an upper bound.
#[derive(Debug)]
pub struct BigUint {
    limbs: Vec<u64>,
}

impl View for BigUint {
    type V = nat;

    closed spec fn view(&self) -> nat {
        limbs_value(self.limbs@, self.limbs@.len())
    }
}

impl BigUint {
    /// The number zero.
    pub fn zero() -> (r: BigUint)
        ensures
            r@ == 0,
    {
        BigUint { limbs: Vec::new() }
    }

    /// The number `v`.
    pub fn from_u64(v: u64) -> (r: BigUint)
        ensures
            r@ == v,
    {
        let mut limbs: Vec<u64> = Vec::new();
        limbs.push(v);
        proof {
            lemma_value_step(limbs@, 0);
            assert(limbs_value(limbs@, 0) == 0);
            assert(limb_at(limbs@, 0) * base_pow(0) == v) by (nonlinear_arith)
                requires
                    limb_at(limbs@, 0) == v,
                    base_pow(0) == 1,
            ;
        }
        BigUint { limbs }
    }

    /// The limb at position `i`, zero past the end.
    fn limb(&self, i: usize) -> (r: u64)
        ensures
            r == limb_at(self.limbs@, i as int),
    {
        if i < self.limbs.len() {
            self.limbs[i]
        } else {
            0
        }
    }

    /// The longer of the two limb counts.
    fn span(&self, other: &BigUint) -> (n: usize)
        ensures
            n >= self.limbs@.len(),
            n >= other.limbs@.len(),
    {
        if self.limbs.len() >= other.limbs.len() {
            self.limbs.len()
        } else {
            other.limbs.len()
        }
    }

    /// The sum of the two numbers.
    pub fn add(&self, other: &BigUint) -> (r: BigUint)
        ensures
            r@ == self@ + other@,
    {
        let n = self.span(other);
        let mut limbs: Vec<u64> = Vec::new();
        let mut carry: u64 = 0;
        let mut i: usize = 0;
        while i < n
            invariant
                i <= n,
                limbs@.len() == i,
                carry <= 1,
                limbs_value(limbs@, i as nat) + carry * base_pow(i as nat) == limbs_value(
                    self.limbs@,
                    i as nat,
                ) + limbs_value(other.limbs@, i as nat),
            decreases n - i,
        {
            let a = self.limb(i);
            let b = other.limb(i);
            let t: u128 = a as u128 + b as u128 + carry as u128;
            let lo: u64 = (t % 0x1_0000_0000_0000_0000u128) as u64;
            let hi: u64 = (t / 0x1_0000_0000_0000_0000u128) as u64;
            let ghost before = limbs@;
            limbs.push(lo);
            proof {
                let p = base_pow(i as nat);
                lemma_value_agree(before, limbs@, i as nat);
                lemma_value_step(limbs@, i as nat);
                lemma_value_step(self.limbs@, i as nat);
                lemma_value_step(other.limbs@, i as nat);
                assert(lo * p + hi * (limb_base() * p) == a * p + b * p + carry * p)
                    by (nonlinear_arith)
                    requires
                        lo + limb_base() * hi == a + b + carry,
                ;
            }
            carry = hi;
            i += 1;
        }
        proof {
            lemma_value_past_end(self.limbs@, n as nat);
            lemma_value_past_end(other.limbs@, n as nat);
        }
        if carry > 0 {
            let ghost before = limbs@;
            limbs.push(carry);
            proof {
                lemma_value_agree(before, limbs@, n as nat);
                lemma_value_step(limbs@, n as nat);
            }
        } else {
            assert(carry * base_pow(n as nat) == 0) by (nonlinear_arith)
                requires
                    carry == 0,
            ;
        }
        BigUint { limbs }
    }

    /// The difference of the two numbers, where `other` is not the larger.
    pub fn sub(&self, other: &BigUint) -> (r: BigUint)
        requires
            other@ <= self@,
        ensures
            r@ == self@ - other@,
    {
        let n = self.span(other);
        let mut limbs: Vec<u64> = Vec::new();
        let mut borrow: u64 = 0;
        let mut i: usize = 0;
        while i < n
            invariant
                i <= n,
                limbs@.len() == i,
                borrow <= 1,
                limbs_value(limbs@, i as nat) + limbs_value(other.limbs@, i as nat)
                    == limbs_value(self.limbs@, i as nat) + borrow * base_pow(i as nat),
            decreases n - i,
        {
            let a = self.limb(i);
            let b = other.limb(i);
            let take: u128 = b as u128 + borrow as u128;
            let lo: u64;
            let next: u64;
            if a as u128 >= take {
                lo = (a as u128 - take) as u64;
                next = 0;
            } else {
                lo = (a as u128 + 0x1_0000_0000_0000_0000u128 - take) as u64;
                next = 1;
            }
            let ghost before = limbs@;
            limbs.push(lo);
            proof {
                let p = base_pow(i as nat);
                lemma_value_agree(before, limbs@, i as nat);
                lemma_value_step(limbs@, i as nat);
                lemma_value_step(self.limbs@, i as nat);
                lemma_value_step(other.limbs@, i as nat);
                assert(lo * p + b * p + borrow * p == a * p + next * (limb_base() * p))
                    by (nonlinear_arith)
                    requires
                        lo + b + borrow == a + next * limb_base(),
                ;
            }
            borrow = next;
            i += 1;
        }
        proof {
            lemma_value_past_end(self.limbs@, n as nat);
            lemma_value_past_end(other.limbs@, n as nat);
            lemma_value_bound(limbs@, n as nat);
            assert(borrow * base_pow(n as nat) == if borrow == 0 {
                0
            } else {
                base_pow(n as nat)
            }) by (nonlinear_arith)
                requires
                    borrow <= 1,
            ;
        }
        BigUint { limbs }
    }

    /// The product of the number and `m`.
    pub fn mul_u64(&self, m: u64) -> (r: BigUint)
        ensures
            r@ == self@ * m,
    {
        let n = self.limbs.len();
        let mut limbs: Vec<u64> = Vec::new();
        let mut carry: u64 = 0;
        let mut i: usize = 0;
        assert(limbs_value(self.limbs@, 0) * m == 0) by (nonlinear_arith)
            requires
                limbs_value(self.limbs@, 0) == 0,
        ;
        while i < n
            invariant
                i <= n,
                n == self.limbs@.len(),
                limbs@.len() == i,
                limbs_value(limbs@, i as nat) + carry * base_pow(i as nat) == limbs_value(
                    self.limbs@,
                    i as nat,
                ) * m,
            decreases n - i,
        {
            let a = self.limbs[i];
            assert(a * m <= 0xFFFF_FFFF_FFFF_FFFF * 0xFFFF_FFFF_FFFF_FFFF) by (nonlinear_arith)
                requires
                    0 <= a <= 0xFFFF_FFFF_FFFF_FFFF,
                    0 <= m <= 0xFFFF_FFFF_FFFF_FFFF,
            ;
            let t: u128 = (a as u128) * (m as u128) + carry as u128;
            let lo: u64 = (t % 0x1_0000_0000_0000_0000u128) as u64;
            let hi: u64 = (t / 0x1_0000_0000_0000_0000u128) as u64;
            let ghost before = limbs@;
            limbs.push(lo);
            proof {
                let p = base_pow(i as nat);
                let lower = limbs_value(self.limbs@, i as nat);
                lemma_value_agree(before, limbs@, i as nat);
                lemma_value_step(limbs@, i as nat);
                lemma_value_step(self.limbs@, i as nat);
                assert(lo * p + hi * (limb_base() * p) == (a * p) * m + carry * p)
                    by (nonlinear_arith)
                    requires
                        lo + limb_base() * hi == a * m + carry,
                ;
                assert((lower + a * p) * m == lower * m + (a * p) * m) by (nonlinear_arith);
            }
            carry = hi;
            i += 1;
        }
        if carry > 0 {
            let ghost before = limbs@;
            limbs.push(carry);
            proof {
                lemma_value_agree(before, limbs@, n as nat);
                lemma_value_step(limbs@, n as nat);
            }
        } else {
            assert(carry * base_pow(n as nat) == 0) by (nonlinear_arith)
                requires
                    carry == 0,
            ;
        }
        BigUint { limbs }
    }

    /// The number that `bytes` stand for, the most significant byte first.
    pub fn from_bytes_be(bytes: &[u8]) -> (r: BigUint)
        ensures
            r@ == be_bytes_value(bytes@),
    {
        let mut acc = BigUint::zero();
        let mut i: usize = 0;
        while i < bytes.len()
            invariant
                i <= bytes@.len(),
                acc@ == be_bytes_value(bytes@.take(i as int)),
            decreases bytes@.len() - i,
        {
            let byte = BigUint::from_u64(bytes[i] as u64);
            acc = acc.mul_u64(256).add(&byte);
            proof {
                assert(bytes@.take(i + 1).drop_last() =~= bytes@.take(i as int));
            }
            i += 1;
        }
        assert(bytes@.take(i as int) =~= bytes@);
        acc
    }

    /// The number as bytes, the most significant byte first and no zero in
    /// front: zero gives no byte at all.
    pub fn to_bytes_be(&self) -> (r: Vec<u8>)
        ensures
            be_bytes_value(r@) == self@,
            minimal_bytes(r@),
    {
        let n = self.limbs.len();
        let mut out: Vec<u8> = Vec::new();
        let mut i: usize = n;
        assert(self.limbs@.skip(n as int) =~= Seq::<u64>::empty());
        assert(limbs_value(self.limbs@.skip(n as int), 0) == 0);
        while i > 0
            invariant
                i <= n,
                n == self.limbs@.len(),
                minimal_bytes(out@),
                be_bytes_value(out@) == limbs_value(self.limbs@.skip(i as int), (n - i) as nat),
            decreases i,
        {
            i -= 1;
            let limb = self.limbs[i];
            let ghost upper = be_bytes_value(out@);
            proof {
                let tail = self.limbs@.skip(i as int);
                lemma_value_shift(tail, (n - i) as nat);
                assert(tail.drop_first() =~= self.limbs@.skip(i + 1));
            }
            push_limb(&mut out, limb);
            assert(be_bytes_value(out@) == limb_base() * upper + limb);
        }
        assert(self.limbs@.skip(0) =~= self.limbs@);
        out
    }

    /// The number as a `u64`, where it is small enough for one.
    pub fn to_u64(&self) -> (r: Option<u64>)
        ensures
            r == if self@ <= u64::MAX {
                Some(self@ as u64)
            } else {
                None
            },
    {
        let max = BigUint::from_u64(u64::MAX);
        if self.le(&max) {
            proof {
                if self.limbs@.len() > 0 {
                    let rest = limbs_value(
                        self.limbs@.drop_first(),
                        (self.limbs@.len() - 1) as nat,
                    );
                    lemma_value_shift(self.limbs@, self.limbs@.len());
                    assert(rest == 0) by (nonlinear_arith)
                        requires
                            limb_base() * rest <= u64::MAX,
                            limb_base() == 0x1_0000_0000_0000_0000,
                    ;
                }
            }
            Some(self.limb(0))
        } else {
            None
        }
    }

    /// Whether the number is smaller than `other`.
    pub fn lt(&self, other: &BigUint) -> (r: bool)
        ensures
            r == (self@ < other@),
    {
        let n = self.span(other);
        let mut i: usize = n;
        proof {
            lemma_value_past_end(self.limbs@, n as nat);
            lemma_value_past_end(other.limbs@, n as nat);
        }
        while i > 0
            invariant
                self@ == limbs_value(self.limbs@, n as nat),
                other@ == limbs_value(other.limbs@, n as nat),
                i <= n,
                forall|j: int| i <= j < n ==> limb_at(self.limbs@, j) == limb_at(other.limbs@, j),
            decreases i,
        {
            i -= 1;
            let a = self.limb(i);
            let b = other.limb(i);
            if a < b {
                proof {
                    lemma_value_decided_at(self.limbs@, other.limbs@, i as nat, n as nat);
                }
                return true;
            }
            if b < a {
                proof {
                    lemma_value_decided_at(other.limbs@, self.limbs@, i as nat, n as nat);
                }
                return false;
            }
        }
        proof {
            lemma_value_agree(self.limbs@, other.limbs@, n as nat);
        }
        false
    }

    /// Whether the number is not larger than `other`.
    pub fn le(&self, other: &BigUint) -> (r: bool)
        ensures
            r == (self@ <= other@),
    {
        !other.lt(self)
    }

    /// Whether the number is zero.
    pub fn is_zero(&self) -> (r: bool)
        ensures
            r == (self@ == 0),
    {
        let zero = BigUint::zero();
        !zero.lt(self)
    }
}

/// Appends the eight bytes of `limb` to `out`, the most significant first,
/// but for zeros that would stand in front.
fn push_limb(out: &mut Vec<u8>, limb: u64)
    requires
        minimal_bytes(old(out)@),
    ensures
        minimal_bytes(final(out)@),
        be_bytes_value(final(out)@) == limb_base() * be_bytes_value(old(out)@) + limb,
{
    let b7 = (limb % 256) as u8;
    let r6 = limb / 256;
    let b6 = (r6 % 256) as u8;
    let r5 = r6 / 256;
    let b5 = (r5 % 256) as u8;
    let r4 = r5 / 256;
    let b4 = (r4 % 256) as u8;
    let r3 = r4 / 256;
    let b3 = (r3 % 256) as u8;
    let r2 = r3 / 256;
    let b2 = (r2 % 256) as u8;
    let r1 = r2 / 256;
    let b1 = (r1 % 256) as u8;
    let r0 = r1 / 256;
    let b0 = r0 as u8;
    push_significant(out, b0);
    push_significant(out, b1);
    push_significant(out, b2);
    push_significant(out, b3);
    push_significant(out, b4);
    push_significant(out, b5);
    push_significant(out, b6);
    push_significant(out, b7);
}

/// Appends `byte` to `out`, unless that would put a zero in front.
fn push_significant(out: &mut Vec<u8>, byte: u8)
    requires
        minimal_bytes(old(out)@),
    ensures
        minimal_bytes(final(out)@),
        be_bytes_value(final(out)@) == 256 * be_bytes_value(old(out)@) + byte,
{
    if out.len() > 0 || byte != 0 {
        proof {
            lemma_be_bytes_push(out@, byte);
        }
        out.push(byte);
    } else {
        assert(be_bytes_value(out@) == 0);
    }
}

impl Clone for BigUint {
    fn clone(&self) -> (r: BigUint)
        ensures
            r@ == self@,
    {
        BigUint { limbs: self.limbs.clone() }
    }
}

impl PartialEq for BigUint {
    fn eq(&self, other: &BigUint) -> (r: bool) {
        !self.lt(other) && !other.lt(self)
    }
}

impl vstd::std_specs::cmp::PartialEqSpecImpl for BigUint {
    open spec fn obeys_eq_spec() -> bool {
        true
    }

    open spec fn eq_spec(&self, other: &BigUint) -> bool {
        self@ == other@
    }
}

} // verus!
