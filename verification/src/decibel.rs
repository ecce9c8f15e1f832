use vstd::prelude::*;
use vstd::arithmetic::power::pow;
use vstd::arithmetic::power::lemma_pow0;
use vstd::arithmetic::power::lemma_pow1;
use vstd::arithmetic::power::lemma_pow_adds;
use vstd::arithmetic::power::lemma_pow_increases;
use vstd::arithmetic::power::lemma_pow_multiplies;
use vstd::arithmetic::power::lemma_pow_positive;
use vstd::arithmetic::power2::lemma2_to64;
use vstd::arithmetic::power2::lemma2_to64_rest;
use vstd::arithmetic::power2::lemma_pow2;
use crate::bignat::lemma_place_increases;
use crate::bignat::place;
use crate::bignat::radix;
use crate::bignat::BigNat;

verus! {

/// Whether the power ratio `p / q` lies under `db` decibels, that is
/// whether `10 * log10(p / q) < db`, stated without logarithms: raised to
/// the tenth power, the ratio is compared with ten to the `db`. A ratio
/// over nothing lies under no level.
pub open spec fn ratio_below_db(p: nat, q: nat, db: int) -> bool {
    if db <= 0 {
        pow(p as int, 10) * pow(10, (-db) as nat) < pow(q as int, 10)
    } else {
        pow(p as int, 10) < pow(q as int, 10) * pow(10, db as nat)
    }
}

/// A larger base gives a larger power.
pub proof fn lemma_pow_base_increases(a: nat, b: nat, e: nat)
    requires
        a <= b,
    ensures
        0 <= pow(a as int, e) <= pow(b as int, e),
    decreases e,
{
    reveal(pow);
    if e > 0 {
        lemma_pow_base_increases(a, b, (e - 1) as nat);
        let x = pow(a as int, (e - 1) as nat);
        let y = pow(b as int, (e - 1) as nat);
        assert(0 <= a * x <= b * y) by (nonlinear_arith)
            requires
                0 <= a <= b,
                0 <= x <= y,
        ;
    }
}

/// The tenth power of a positive number is positive, that of zero is
/// zero.
pub proof fn lemma_tenth_power_sign(v: nat)
    ensures
        v == 0 ==> pow(v as int, 10) == 0,
        v > 0 ==> pow(v as int, 10) >= 1,
{
    if v == 0 {
        vstd::arithmetic::power::lemma0_pow(10);
    } else {
        lemma_pow_positive(v as int, 10);
    }
}

/// How many decibels either way hold every ratio of two numbers of
/// `limbs` limbs: a limb of thirty-two bits is less than 97 dB.
pub open spec fn decibel_span(limbs: nat) -> int {
    (107 * limbs + 1) as int
}

/// Ten to the `k` exceeds the tenth power of every number of `limbs` limbs
/// once `k` reaches their span.
pub proof fn lemma_ten_outgrows(v: nat, limbs: nat, k: nat)
    requires
        v < place(limbs),
        k >= decibel_span(limbs),
    ensures
        pow(v as int, 10) < pow(10, k),
{
    lemma2_to64();
    lemma2_to64_rest();
    lemma_pow2(32);
    lemma_pow2(3);
    assert(radix() == pow(2, 32));
    assert(pow(2, 3) == 8);
    lemma_pow_multiplies(2, 32, limbs);
    lemma_pow_multiplies(2, 32 * limbs, 10);
    lemma_pow_multiplies(2, 3, k);
    lemma_pow_base_increases(v, place(limbs) as nat, 10);
    lemma_pow_base_increases(8, 10, k);
    assert(32 * limbs * 10 < 3 * k);
    vstd::arithmetic::power::lemma_pow_strictly_increases(2, 32 * limbs * 10, 3 * k);
}

/// At the low end of the span only zero power lies under the level; at
/// the high end everything does that is a ratio at all.
pub proof fn lemma_span_ends(p: nat, q: nat, limbs: nat, db: int)
    requires
        p < place(limbs),
        q < place(limbs),
    ensures
        db <= -decibel_span(limbs) ==> ratio_below_db(p, q, db) == (p == 0 && q > 0),
        db >= decibel_span(limbs) ==> ratio_below_db(p, q, db) == (q > 0),
{
    lemma_tenth_power_sign(p);
    lemma_tenth_power_sign(q);
    let x = pow(p as int, 10);
    let y = pow(q as int, 10);
    if db <= -decibel_span(limbs) {
        let k = (-db) as nat;
        lemma_ten_outgrows(q, limbs, k);
        let w = pow(10, k);
        assert(p > 0 ==> x * w >= w) by (nonlinear_arith)
            requires
                p > 0 ==> x >= 1,
                w >= 0,
        ;
        assert(p == 0 ==> x * w == 0) by (nonlinear_arith)
            requires
                p == 0 ==> x == 0,
        ;
    } else if db >= decibel_span(limbs) {
        let k = db as nat;
        lemma_ten_outgrows(p, limbs, k);
        let w = pow(10, k);
        assert(q > 0 ==> y * w >= w) by (nonlinear_arith)
            requires
                q > 0 ==> y >= 1,
                w >= 0,
        ;
        assert(q == 0 ==> y * w == 0) by (nonlinear_arith)
            requires
                q == 0 ==> y == 0,
        ;
    }
}

/// The tenth power of a number.
pub fn tenth_power(v: &BigNat) -> (n: BigNat)
    ensures
        n@ == pow(v@ as int, 10),
{
    let mut n: BigNat = BigNat::from_u128(1);
    let mut i: u32 = 0;
    proof {
        lemma_pow0(v@ as int);
    }
    while i < 10
        invariant
            i <= 10,
            n@ == pow(v@ as int, i as nat),
        decreases 10 - i,
    {
        proof {
            lemma_pow_adds(v@ as int, i as nat, 1);
            lemma_pow1(v@ as int);
        }
        n = n.times(v);
        i += 1;
    }
    n
}

/// The number times ten to the `k`.
pub fn times_power_of_ten(n: &BigNat, k: u32) -> (out: BigNat)
    ensures
        out@ == n@ * pow(10, k as nat),
{
    let mut out: BigNat = n.times_small(1);
    let mut i: u32 = 0;
    proof {
        lemma_pow0(10);
    }
    while i < k
        invariant
            i <= k,
            out@ == n@ * pow(10, i as nat),
        decreases k - i,
    {
        proof {
            lemma_pow_adds(10, i as nat, 1);
            lemma_pow1(10);
            let x = n@ as int;
            let w = pow(10, i as nat);
            assert(x * w * 10 == x * (w * 10)) by (nonlinear_arith);
        }
        out = out.times_small(10);
        i += 1;
    }
    out
}

/// Decides whether a power ratio lies under `db` decibels, given the
/// tenth powers of its two terms.
fn powers_are_below_db(p: &BigNat, q: &BigNat, p10: &BigNat, q10: &BigNat, db: i32) -> (below: bool)
    requires
        p10@ == pow(p@ as int, 10),
        q10@ == pow(q@ as int, 10),
    ensures
        below == ratio_below_db(p@, q@, db as int),
{
    let lp: usize = p.limb_count();
    let lq: usize = q.limb_count();
    let limbs: usize = if lp < lq {
        lq
    } else {
        lp
    };
    let span: i128 = 107 * (limbs as i128) + 1;
    proof {
        lemma_place_increases(lp as nat, limbs as nat);
        lemma_place_increases(lq as nat, limbs as nat);
        lemma_span_ends(p@, q@, limbs as nat, db as int);
    }
    if (db as i128) <= -span {
        p.is_zero() && !q.is_zero()
    } else if (db as i128) >= span {
        !q.is_zero()
    } else if db <= 0 {
        let k: u32 = (-(db as i64)) as u32;
        times_power_of_ten(p10, k).less_than(q10)
    } else {
        let k: u32 = db as u32;
        p10.less_than(&times_power_of_ten(q10, k))
    }
}

/// Decides whether the power ratio `p / q` lies under `db` decibels.
pub fn ratio_is_below_db(p: &BigNat, q: &BigNat, db: i32) -> (below: bool)
    ensures
        below == ratio_below_db(p@, q@, db as int),
{
    let p10 = tenth_power(p);
    let q10 = tenth_power(q);
    powers_are_below_db(p, q, &p10, &q10, db)
}

/// A level in decibels, rounded down to a whole number.
#[derive(Clone, Copy, Debug, PartialEq, Eq, Structural)]
pub enum Level {
    /// The level of nothing at all: no ratio to take.
    Undefined,
    /// The level of zero power, under every number of decibels.
    NegInfinity,
    /// The largest whole number of decibels that the level reaches.
    Decibels(i32),
}

impl Level {
    /// Whether `self` is the level of the power ratio `p / q`: with `d`
    /// decibels, the ratio does not lie under `d` and does lie under
    /// `d + 1`.
    pub open spec fn is_level_of(self, p: nat, q: nat) -> bool {
        match self {
            Level::Undefined => q == 0,
            Level::NegInfinity => q > 0 && p == 0,
            Level::Decibels(d) => q > 0 && p > 0 && !ratio_below_db(p, q, d as int)
                && ratio_below_db(p, q, d + 1),
        }
    }

    /// Whether the level lies under `db` decibels. An undefined level lies
    /// under none, zero power under all.
    pub open spec fn below(self, db: int) -> bool {
        match self {
            Level::Undefined => false,
            Level::NegInfinity => true,
            Level::Decibels(d) => d < db,
        }
    }

    pub fn is_below(&self, db: i32) -> (below: bool)
        ensures
            below == self.below(db as int),
    {
        match self {
            Level::Undefined => false,
            Level::NegInfinity => true,
            Level::Decibels(d) => *d < db,
        }
    }
}

/// Most limbs that the terms of a ratio may have for its level to be
/// looked for.
pub const LEVEL_LIMBS: u32 = 0x10_0000;

/// The level of the power ratio `p / q` in whole decibels, for terms of
/// no more than `limbs` limbs.
pub fn level_of_ratio(p: &BigNat, q: &BigNat, limbs: u32) -> (level: Level)
    requires
        p@ < place(limbs as nat),
        q@ < place(limbs as nat),
        limbs <= LEVEL_LIMBS,
    ensures
        level.is_level_of(p@, q@),
{
    if q.is_zero() {
        return Level::Undefined;
    }
    if p.is_zero() {
        return Level::NegInfinity;
    }
    let p10 = tenth_power(p);
    let q10 = tenth_power(q);
    let span: i32 = 107 * (limbs as i32) + 1;
    let mut low: i32 = -span;
    let mut high: i32 = span;
    proof {
        lemma_span_ends(p@, q@, limbs as nat, low as int);
        lemma_span_ends(p@, q@, limbs as nat, high as int);
    }
    while high - low > 1
        invariant
            -span <= low < high <= span,
            span <= 107 * 0x10_0000 + 1,
            p10@ == pow(p@ as int, 10),
            q10@ == pow(q@ as int, 10),
            !ratio_below_db(p@, q@, low as int),
            ratio_below_db(p@, q@, high as int),
        decreases high - low,
    {
        let mid: i32 = low + (high - low) / 2;
        if powers_are_below_db(p, q, &p10, &q10, mid) {
            high = mid;
        } else {
            low = mid;
        }
    }
    Level::Decibels(low)
}

/// A ratio under some level is under every higher level.
pub proof fn lemma_below_db_increases(p: nat, q: nat, d1: int, d2: int)
    requires
        d1 <= d2,
        ratio_below_db(p, q, d1),
    ensures
        ratio_below_db(p, q, d2),
{
    let x = pow(p as int, 10);
    let y = pow(q as int, 10);
    lemma_pow_base_increases(0, p, 10);
    lemma_pow_base_increases(0, q, 10);
    if d2 <= 0 {
        let w1 = pow(10, (-d1) as nat);
        let w2 = pow(10, (-d2) as nat);
        lemma_pow_increases(10, (-d2) as nat, (-d1) as nat);
        lemma_pow_positive(10, (-d2) as nat);
        assert(x * w2 <= x * w1) by (nonlinear_arith)
            requires
                0 <= x,
                0 < w2 <= w1,
        ;
    } else if d1 <= 0 {
        let w1 = pow(10, (-d1) as nat);
        let w2 = pow(10, d2 as nat);
        lemma_pow_positive(10, (-d1) as nat);
        lemma_pow_positive(10, d2 as nat);
        assert(x <= x * w1) by (nonlinear_arith)
            requires
                0 <= x,
                1 <= w1,
        ;
        assert(y <= y * w2) by (nonlinear_arith)
            requires
                0 <= y,
                1 <= w2,
        ;
    } else {
        let w1 = pow(10, d1 as nat);
        let w2 = pow(10, d2 as nat);
        lemma_pow_increases(10, d1 as nat, d2 as nat);
        lemma_pow_positive(10, d1 as nat);
        assert(y * w1 <= y * w2) by (nonlinear_arith)
            requires
                0 <= y,
                0 < w1 <= w2,
        ;
    }
}

/// A ratio has one level only.
pub proof fn level_is_unique(a: Level, b: Level, p: nat, q: nat)
    requires
        a.is_level_of(p, q),
        b.is_level_of(p, q),
    ensures
        a == b,
{
    match (a, b) {
        (Level::Decibels(x), Level::Decibels(y)) => {
            if x < y {
                lemma_below_db_increases(p, q, x + 1, y as int);
            } else if y < x {
                lemma_below_db_increases(p, q, y + 1, x as int);
            }
        },
        _ => {},
    }
}

/// Comparing the whole-decibel level of a ratio with a whole number of
/// decibels decides as comparing the ratio itself does, so nothing is
/// lost by rounding down. Zero power lies under every level, and no
/// logarithm of zero is ever taken.
pub proof fn level_decides_as_ratio(level: Level, p: nat, q: nat, db: int)
    requires
        level.is_level_of(p, q),
    ensures
        level.below(db) == ratio_below_db(p, q, db),
{
    lemma_tenth_power_sign(p);
    lemma_tenth_power_sign(q);
    match level {
        Level::Undefined => {
            let x = pow(p as int, 10);
            lemma_pow_base_increases(0, p, 10);
            if db <= 0 {
                lemma_pow_positive(10, (-db) as nat);
                let w = pow(10, (-db) as nat);
                assert(x * w >= 0) by (nonlinear_arith)
                    requires
                        x >= 0,
                        w > 0,
                ;
            } else {
                let w = pow(10, db as nat);
                assert(0 * w == 0) by (nonlinear_arith);
            }
        },
        Level::NegInfinity => {
            let y = pow(q as int, 10);
            if db <= 0 {
                let w = pow(10, (-db) as nat);
                assert(0 * w == 0) by (nonlinear_arith);
            } else {
                lemma_pow_positive(10, db as nat);
                let w = pow(10, db as nat);
                assert(y * w > 0) by (nonlinear_arith)
                    requires
                        y >= 1,
                        w > 0,
                ;
            }
        },
        Level::Decibels(d) => {
            if d < db {
                lemma_below_db_increases(p, q, d + 1, db);
            } else if ratio_below_db(p, q, db) {
                lemma_below_db_increases(p, q, db, d as int);
            }
        },
    }
}

} // verus!
