use vstd::prelude::*;
use vstd::arithmetic::power::pow;
use vstd::arithmetic::power::lemma_pow0;
use vstd::arithmetic::power::lemma_pow1;
use vstd::arithmetic::power::lemma_pow_adds;
use vstd::arithmetic::power::lemma_pow_positive;
use vstd::arithmetic::power2::lemma2_to64;
use vstd::arithmetic::power2::lemma_pow2_adds;
use vstd::arithmetic::power2::lemma_pow2_strictly_increases;
use vstd::arithmetic::power2::lemma_pow2_unfold;
use vstd::arithmetic::power2::pow2;

verus! {

/// The radix of a limb: two to the thirty-second.
pub open spec fn radix() -> int {
    0x1_0000_0000
}

/// The number that limbs stand for, least significant limb first.
pub open spec fn limbs_value(limbs: Seq<u32>) -> nat
    decreases limbs.len(),
{
    if limbs.len() == 0 {
        0
    } else {
        (limbs[0] + radix() * limbs_value(limbs.drop_first())) as nat
    }
}

/// The weight of the limb at place `i`.
pub open spec fn place(i: nat) -> int {
    pow(radix(), i)
}

/// A natural number of any size.
pub struct BigNat {
    limbs: Vec<u32>,
}

impl View for BigNat {
    type V = nat;

    closed spec fn view(&self) -> nat {
        limbs_value(self.limbs@)
    }
}

/// Each place weighs a radix more than the one before, and none is zero.
pub proof fn lemma_place_step(i: nat)
    ensures
        place(0) == 1,
        place(i + 1) == radix() * place(i),
        place(i) > 0,
{
    lemma_pow0(radix());
    lemma_pow1(radix());
    lemma_pow_adds(radix(), 1, i);
    lemma_pow_positive(radix(), i);
}

/// Higher places weigh no less.
pub proof fn lemma_place_increases(i: nat, j: nat)
    requires
        i <= j,
    ensures
        place(i) <= place(j),
{
    vstd::arithmetic::power::lemma_pow_increases(radix() as nat, i, j);
}

/// Four limbs hold every 128-bit number.
pub proof fn lemma_u128_limbs()
    ensures
        place(4) == 0x1_0000_0000_0000_0000_0000_0000_0000_0000,
{
    lemma_place_step(0);
    lemma_place_step(1);
    lemma_place_step(2);
    lemma_place_step(3);
}

/// A limb appended at the top counts with the weight of its place.
pub proof fn lemma_value_push(limbs: Seq<u32>, top: u32)
    ensures
        limbs_value(limbs.push(top)) == limbs_value(limbs) + top * place(limbs.len()),
    decreases limbs.len(),
{
    if limbs.len() == 0 {
        lemma_place_step(0);
        assert(limbs.push(top).drop_first() =~= Seq::<u32>::empty());
        assert(limbs_value(Seq::<u32>::empty()) == 0);
        assert(limbs =~= Seq::<u32>::empty());
        assert(limbs_value(limbs.push(top)) == top);
        assert(top * place(0) == top) by (nonlinear_arith)
            requires
                place(0) == 1,
        ;
    } else {
        let rest = limbs.drop_first();
        lemma_value_push(rest, top);
        assert(limbs.push(top).drop_first() =~= rest.push(top));
        lemma_place_step(rest.len());
        let r = radix();
        let v = limbs_value(rest) as int;
        let w = place(rest.len());
        let t = top as int;
        assert(r * (v + t * w) == r * v + t * (r * w)) by (nonlinear_arith);
    }
}

/// Limbs hold less than the weight of the first place they do not reach.
pub proof fn lemma_value_bound(limbs: Seq<u32>)
    ensures
        limbs_value(limbs) < place(limbs.len()),
    decreases limbs.len(),
{
    if limbs.len() == 0 {
        lemma_place_step(0);
    } else {
        let rest = limbs.drop_first();
        lemma_value_bound(rest);
        lemma_place_step(rest.len());
        let r = radix();
        let v = limbs_value(rest) as int;
        let w = place(rest.len());
        assert(limbs[0] + r * v < r * w) by (nonlinear_arith)
            requires
                0 <= limbs[0] < r,
                v + 1 <= w,
                r == 0x1_0000_0000,
        ;
    }
}

/// A number with a limb that is not zero is not zero.
pub proof fn lemma_nonzero_limb(limbs: Seq<u32>, j: int)
    requires
        0 <= j < limbs.len(),
        limbs[j] != 0,
    ensures
        limbs_value(limbs) > 0,
    decreases limbs.len(),
{
    if j > 0 {
        lemma_nonzero_limb(limbs.drop_first(), j - 1);
        let r = radix();
        let v = limbs_value(limbs.drop_first()) as int;
        assert(r * v > 0) by (nonlinear_arith)
            requires
                r == 0x1_0000_0000,
                v > 0,
        ;
    } else {
        let r = radix();
        let v = limbs_value(limbs.drop_first()) as int;
        assert(r * v >= 0) by (nonlinear_arith)
            requires
                r == 0x1_0000_0000,
                v >= 0,
        ;
    }
}

impl BigNat {
    /// The number zero.
    pub fn zero() -> (n: BigNat)
        ensures
            n@ == 0,
    {
        BigNat { limbs: Vec::new() }
    }

    /// Whether the number is zero.
    pub fn is_zero(&self) -> (zero: bool)
        ensures
            zero == (self@ == 0),
    {
        let mut i: usize = 0;
        while i < self.limbs.len()
            invariant
                i <= self.limbs@.len(),
                forall|j: int| 0 <= j < i ==> self.limbs@[j] == 0,
            decreases self.limbs.len() - i,
        {
            if self.limbs[i] != 0 {
                proof {
                    lemma_nonzero_limb(self.limbs@, i as int);
                }
                return false;
            }
            i += 1;
        }
        proof {
            lemma_zero_limbs(self.limbs@);
        }
        true
    }

    /// A number of limbs that holds the number.
    pub fn limb_count(&self) -> (count: usize)
        ensures
            self@ < place(count as nat),
    {
        proof {
            lemma_value_bound(self.limbs@);
        }
        self.limbs.len()
    }

    /// The number `v`.
    pub fn from_u128(v: u128) -> (n: BigNat)
        ensures
            n@ == v,
            n@ < place(4),
    {
        proof {
            lemma_u128_limbs();
        }
        let r: u128 = 0x1_0000_0000;
        let l0: u32 = (v % r) as u32;
        let v1: u128 = v / r;
        let l1: u32 = (v1 % r) as u32;
        let v2: u128 = v1 / r;
        let l2: u32 = (v2 % r) as u32;
        let l3: u32 = (v2 / r) as u32;
        let mut limbs: Vec<u32> = Vec::new();
        limbs.push(l0);
        limbs.push(l1);
        limbs.push(l2);
        limbs.push(l3);
        proof {
            let s = limbs@;
            let s1 = s.drop_first();
            let s2 = s1.drop_first();
            let s3 = s2.drop_first();
            assert(s3.drop_first() =~= Seq::<u32>::empty());
            assert(limbs_value(Seq::<u32>::empty()) == 0);
            assert(limbs_value(s3) == l3);
            assert(limbs_value(s2) == l2 + radix() * l3);
            assert(limbs_value(s1) == l1 + radix() * limbs_value(s2));
            assert(limbs_value(s) == l0 + radix() * limbs_value(s1));
        }
        BigNat { limbs }
    }

    /// The product of the number and a single limb.
    pub fn times_small(&self, m: u32) -> (n: BigNat)
        ensures
            n@ == self@ * m,
    {
        let len: usize = self.limbs.len();
        let mut limbs: Vec<u32> = Vec::new();
        let mut carry: u64 = 0;
        let mut i: usize = 0;
        proof {
            lemma_place_step(0);
            assert(self.limbs@.take(0) =~= Seq::<u32>::empty());
            assert(limbs@ =~= Seq::<u32>::empty());
            assert(limbs_value(Seq::<u32>::empty()) == 0);
        }
        while i < len
            invariant
                len == self.limbs@.len(),
                i <= len,
                limbs@.len() == i,
                carry < 0x1_0000_0000,
                limbs_value(limbs@) + carry * place(i as nat) == limbs_value(self.limbs@.take(i as int))
                    * m,
            decreases len - i,
        {
            let x: u64 = self.limbs[i] as u64;
            assert(x * (m as u64) + carry <= 0xffff_ffff * 0xffff_ffff + 0xffff_ffff)
                by (nonlinear_arith)
                requires
                    x <= 0xffff_ffff,
                    m <= 0xffff_ffff,
                    carry <= 0xffff_ffff,
            ;
            let t: u64 = x * (m as u64) + carry;
            let low: u32 = (t % 0x1_0000_0000) as u32;
            let high: u64 = t / 0x1_0000_0000;
            proof {
                let before = limbs@;
                let w = place(i as nat);
                let done = limbs_value(self.limbs@.take(i as int)) as int;
                lemma_value_push(before, low);
                lemma_value_push(self.limbs@.take(i as int), self.limbs@[i as int]);
                assert(self.limbs@.take(i as int).push(self.limbs@[i as int]) =~= self.limbs@.take(
                    i + 1,
                ));
                lemma_place_step(i as nat);
                assert(limbs_value(before) + low * w + high * (radix() * w) == (done + x * w) * m)
                    by (nonlinear_arith)
                    requires
                        limbs_value(before) + carry * w == done * m,
                        low + high * radix() == x * m + carry,
                ;
            }
            limbs.push(low);
            carry = high;
            i += 1;
        }
        proof {
            assert(self.limbs@.take(len as int) =~= self.limbs@);
            lemma_value_push(limbs@, carry as u32);
        }
        if carry != 0 {
            limbs.push(carry as u32);
        }
        BigNat { limbs }
    }

    /// The number times the radix: every limb moves up one place.
    pub fn shifted(&self) -> (n: BigNat)
        ensures
            n@ == self@ * radix(),
    {
        let len: usize = self.limbs.len();
        let mut limbs: Vec<u32> = Vec::new();
        limbs.push(0);
        let mut i: usize = 0;
        while i < len
            invariant
                len == self.limbs@.len(),
                i <= len,
                limbs@ == seq![0u32] + self.limbs@.take(i as int),
            decreases len - i,
        {
            limbs.push(self.limbs[i]);
            proof {
                assert(limbs@ =~= seq![0u32] + self.limbs@.take(i + 1));
            }
            i += 1;
        }
        proof {
            assert(self.limbs@.take(len as int) =~= self.limbs@);
            assert(limbs@.drop_first() =~= self.limbs@);
            assert(self@ * radix() == radix() * self@) by (nonlinear_arith);
        }
        BigNat { limbs }
    }

    /// The sum of two numbers.
    pub fn plus(&self, other: &BigNat) -> (n: BigNat)
        ensures
            n@ == self@ + other@,
    {
        let la: usize = self.limbs.len();
        let lb: usize = other.limbs.len();
        let len: usize = if la < lb {
            lb
        } else {
            la
        };
        let mut limbs: Vec<u32> = Vec::new();
        let mut carry: u64 = 0;
        let mut i: usize = 0;
        proof {
            lemma_place_step(0);
            assert(limbs@ =~= Seq::<u32>::empty());
            assert(self.limbs@.take(0) =~= Seq::<u32>::empty());
            assert(other.limbs@.take(0) =~= Seq::<u32>::empty());
            assert(limbs_value(Seq::<u32>::empty()) == 0);
        }
        while i < len
            invariant
                la == self.limbs@.len(),
                lb == other.limbs@.len(),
                len >= la,
                len >= lb,
                i <= len,
                limbs@.len() == i,
                carry <= 1,
                limbs_value(limbs@) + carry * place(i as nat) == low_part(self.limbs@, i as nat)
                    + low_part(other.limbs@, i as nat),
            decreases len - i,
        {
            let x: u64 = if i < la {
                self.limbs[i] as u64
            } else {
                0
            };
            let y: u64 = if i < lb {
                other.limbs[i] as u64
            } else {
                0
            };
            let t: u64 = x + y + carry;
            let low: u32 = (t % 0x1_0000_0000) as u32;
            let high: u64 = t / 0x1_0000_0000;
            proof {
                let before = limbs@;
                let w = place(i as nat);
                lemma_value_push(before, low);
                lemma_low_part_step(self.limbs@, i as nat);
                lemma_low_part_step(other.limbs@, i as nat);
                lemma_place_step(i as nat);
                let pa = low_part(self.limbs@, i as nat) as int;
                let pb = low_part(other.limbs@, i as nat) as int;
                assert(limbs_value(before) + low * w + high * (radix() * w) == (pa + x * w) + (pb
                    + y * w)) by (nonlinear_arith)
                    requires
                        limbs_value(before) + carry * w == pa + pb,
                        low + high * radix() == x + y + carry,
                ;
            }
            limbs.push(low);
            carry = high;
            i += 1;
        }
        proof {
            assert(self.limbs@.take(la as int) =~= self.limbs@);
            assert(other.limbs@.take(lb as int) =~= other.limbs@);
            lemma_value_push(limbs@, carry as u32);
        }
        if carry != 0 {
            limbs.push(carry as u32);
        }
        BigNat { limbs }
    }

    /// The product of two numbers.
    pub fn times(&self, other: &BigNat) -> (n: BigNat)
        ensures
            n@ == self@ * other@,
    {
        let mut acc: BigNat = BigNat::zero();
        let mut i: usize = other.limbs.len();
        proof {
            assert(other.limbs@.skip(i as int) =~= Seq::<u32>::empty());
            assert(limbs_value(Seq::<u32>::empty()) == 0);
            assert(self@ * 0 == 0) by (nonlinear_arith);
        }
        while i > 0
            invariant
                i <= other.limbs@.len(),
                acc@ == self@ * limbs_value(other.limbs@.skip(i as int)),
            decreases i,
        {
            i -= 1;
            let limb: u32 = other.limbs[i];
            proof {
                let rest = other.limbs@.skip(i + 1);
                let here = other.limbs@.skip(i as int);
                assert(here.drop_first() =~= rest);
                assert(here[0] == limb);
                let x = self@ as int;
                let v = limbs_value(rest) as int;
                let r = radix();
                assert(x * v * r + x * limb == x * (limb + r * v)) by (nonlinear_arith);
            }
            acc = acc.shifted().plus(&self.times_small(limb));
        }
        proof {
            assert(other.limbs@.skip(0) =~= other.limbs@);
        }
        acc
    }

    /// The number times two to the `bits`.
    pub fn times_power_of_two(&self, bits: u32) -> (n: BigNat)
        ensures
            n@ == self@ * pow2(bits as nat),
    {
        let whole: u32 = bits / 32;
        let part: u32 = bits % 32;
        let mut factor: u32 = 1;
        let mut i: u32 = 0;
        proof {
            lemma2_to64();
        }
        while i < part
            invariant
                i <= part < 32,
                factor == pow2(i as nat),
            decreases part - i,
        {
            proof {
                lemma2_to64();
                if i < 30 {
                    lemma_pow2_strictly_increases(i as nat, 30);
                }
                lemma_pow2_unfold((i + 1) as nat);
            }
            factor = factor * 2;
            i += 1;
        }
        let mut n: BigNat = self.times_small(factor);
        let mut k: u32 = 0;
        proof {
            assert(pow2(part as nat + 0) == pow2(part as nat));
        }
        while k < whole
            invariant
                k <= whole,
                n@ == self@ * pow2((part + 32 * k) as nat),
            decreases whole - k,
        {
            proof {
                lemma2_to64();
                lemma_pow2_adds((part + 32 * k) as nat, 32);
                let x = self@ as int;
                let w = pow2((part + 32 * k) as nat) as int;
                assert(x * w * radix() == x * (w * radix())) by (nonlinear_arith);
            }
            n = n.shifted();
            k += 1;
        }
        n
    }

    /// Whether the number is less than `other`.
    pub fn less_than(&self, other: &BigNat) -> (less: bool)
        ensures
            less == (self@ < other@),
    {
        let la: usize = self.limbs.len();
        let lb: usize = other.limbs.len();
        let len: usize = if la < lb {
            lb
        } else {
            la
        };
        let mut i: usize = len;
        while i > 0
            invariant
                la == self.limbs@.len(),
                lb == other.limbs@.len(),
                len >= la,
                len >= lb,
                i <= len,
                forall|j: int| i <= j < len ==> limb_at(self.limbs@, j) == limb_at(other.limbs@, j),
            decreases i,
        {
            i -= 1;
            let x: u32 = if i < la {
                self.limbs[i]
            } else {
                0
            };
            let y: u32 = if i < lb {
                other.limbs[i]
            } else {
                0
            };
            if x != y {
                proof {
                    if x < y {
                        lemma_first_difference(self.limbs@, other.limbs@, len as nat, i as nat);
                    } else {
                        lemma_first_difference(other.limbs@, self.limbs@, len as nat, i as nat);
                    }
                }
                return x < y;
            }
        }
        proof {
            lemma_same_limbs(self.limbs@, other.limbs@, len as nat);
        }
        false
    }
}

/// The limb at place `i`, zero above the last limb.
pub open spec fn limb_at(limbs: Seq<u32>, i: int) -> u32 {
    if 0 <= i < limbs.len() {
        limbs[i]
    } else {
        0
    }
}

/// What the limbs under place `i` stand for.
pub open spec fn low_part(limbs: Seq<u32>, i: nat) -> nat {
    if i < limbs.len() {
        limbs_value(limbs.take(i as int))
    } else {
        limbs_value(limbs)
    }
}

/// Taking one more place into the low part adds the limb there.
pub proof fn lemma_low_part_step(limbs: Seq<u32>, i: nat)
    ensures
        low_part(limbs, i + 1) == low_part(limbs, i) + limb_at(limbs, i as int) * place(i),
{
    if i < limbs.len() {
        lemma_value_push(limbs.take(i as int), limbs[i as int]);
        assert(limbs.take(i as int).push(limbs[i as int]) =~= limbs.take(i as int + 1));
        assert(limbs.take(limbs.len() as int) =~= limbs);
    } else {
        assert(0 * place(i) == 0) by (nonlinear_arith);
    }
}

/// Numbers whose limbs agree at every place are equal.
pub proof fn lemma_same_limbs(a: Seq<u32>, b: Seq<u32>, len: nat)
    requires
        a.len() <= len,
        b.len() <= len,
        forall|j: int| 0 <= j < len ==> limb_at(a, j) == limb_at(b, j),
    ensures
        limbs_value(a) == limbs_value(b),
    decreases len,
{
    if a.len() == 0 && b.len() == 0 {
    } else if a.len() == 0 {
        assert forall|j: int| 0 <= j < b.len() implies b[j] == 0 by {
            assert(limb_at(a, j) == limb_at(b, j));
        }
        lemma_zero_limbs(b);
    } else if b.len() == 0 {
        assert forall|j: int| 0 <= j < a.len() implies a[j] == 0 by {
            assert(limb_at(a, j) == limb_at(b, j));
        }
        lemma_zero_limbs(a);
    } else {
        assert(limb_at(a, 0) == limb_at(b, 0));
        assert forall|j: int| 0 <= j < len - 1 implies limb_at(a.drop_first(), j) == limb_at(
            b.drop_first(),
            j,
        ) by {
            assert(limb_at(a, j + 1) == limb_at(b, j + 1));
        }
        lemma_same_limbs(a.drop_first(), b.drop_first(), (len - 1) as nat);
    }
}

/// Limbs that are all zero stand for zero.
pub proof fn lemma_zero_limbs(a: Seq<u32>)
    requires
        forall|j: int| 0 <= j < a.len() ==> a[j] == 0,
    ensures
        limbs_value(a) == 0,
    decreases a.len(),
{
    if a.len() > 0 {
        assert forall|j: int| 0 <= j < a.drop_first().len() implies a.drop_first()[j] == 0 by {
            assert(a[j + 1] == 0);
        }
        lemma_zero_limbs(a.drop_first());
    }
}

/// Where two numbers agree above place `i` and differ at it, the one with
/// the smaller limb there is the smaller number.
pub proof fn lemma_first_difference(a: Seq<u32>, b: Seq<u32>, len: nat, i: nat)
    requires
        a.len() <= len,
        b.len() <= len,
        i < len,
        limb_at(a, i as int) < limb_at(b, i as int),
        forall|j: int| i < j < len ==> limb_at(a, j) == limb_at(b, j),
    ensures
        limbs_value(a) < limbs_value(b),
    decreases i,
{
    assert(b.len() > 0);
    let bt = b.drop_first();
    if i == 0 {
        if a.len() == 0 {
            assert(limbs_value(a) == 0);
        } else {
            let at = a.drop_first();
            assert forall|j: int| 0 <= j < len - 1 implies limb_at(at, j) == limb_at(bt, j) by {
                assert(limb_at(a, j + 1) == limb_at(b, j + 1));
            }
            lemma_same_limbs(at, bt, (len - 1) as nat);
        }
    } else {
        let at = if a.len() == 0 {
            a
        } else {
            a.drop_first()
        };
        assert(limb_at(at, i - 1) == limb_at(a, i as int));
        assert(limb_at(bt, i - 1) == limb_at(b, i as int));
        assert forall|j: int| i - 1 < j < len - 1 implies limb_at(at, j) == limb_at(bt, j) by {
            assert(limb_at(a, j + 1) == limb_at(b, j + 1));
        }
        lemma_first_difference(at, bt, (len - 1) as nat, (i - 1) as nat);
        let r = radix();
        let va = limbs_value(at) as int;
        let vb = limbs_value(bt) as int;
        assert(limb_at(a, 0) + r * va < limb_at(b, 0) + r * vb) by (nonlinear_arith)
            requires
                va + 1 <= vb,
                0 <= limb_at(a, 0) < r,
                0 <= limb_at(b, 0),
                r == 0x1_0000_0000,
        ;
        if a.len() == 0 {
            assert(limbs_value(a) == 0);
        }
    }
}

} // verus!
