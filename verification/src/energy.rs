use vstd::prelude::*;
use vstd::arithmetic::power::pow;
use vstd::arithmetic::power::lemma_pow_distributes;
use vstd::arithmetic::power::lemma_pow_multiplies;
use vstd::arithmetic::power::lemma_pow_positive;
use vstd::arithmetic::power2::lemma2_to64;
use vstd::arithmetic::power2::lemma2_to64_rest;
use vstd::arithmetic::power2::lemma_pow2;
use vstd::arithmetic::power2::lemma_pow2_adds;
use vstd::arithmetic::power2::lemma_pow2_pos;
use vstd::arithmetic::power2::lemma_pow2_strictly_increases;
use vstd::arithmetic::power2::pow2;
use crate::bignat::place;
use crate::bignat::BigNat;
use crate::decibel::level_decides_as_ratio;
use crate::decibel::level_of_ratio;
use crate::decibel::ratio_below_db;
use crate::decibel::ratio_is_below_db;
use crate::decibel::Level;

verus! {

/// A sample as an exact fraction of full scale:
/// `numer * 2^shift / (denom * 2^denom_shift)`.
#[derive(Clone, Copy, Debug, PartialEq, Eq, Structural)]
pub struct Amplitude {
    pub numer: i32,
    pub shift: u8,
    pub denom: i32,
    pub denom_shift: u8,
}

impl Amplitude {
    /// The sample itself, in the units that full scale is counted in.
    pub open spec fn numerator(self) -> int {
        self.numer * pow2(self.shift as nat)
    }

    /// Full scale in those units.
    pub open spec fn denominator(self) -> int {
        self.denom * pow2(self.denom_shift as nat)
    }
}

/// Without shifts the fraction is `numer / denom`.
pub proof fn lemma_unshifted(a: Amplitude)
    ensures
        a.shift == 0 ==> a.numerator() == a.numer,
        a.denom_shift == 0 ==> a.denominator() == a.denom,
{
    lemma2_to64();
    assert(a.numer * 1 == a.numer);
    assert(a.denom * 1 == a.denom);
}

/// Sample types whose values are fractions of a full scale.
pub trait Normalizable: Copy {
    /// Whether the sample is a number at all.
    spec fn finite(self) -> bool;

    /// The value of the sample in the units that full scale is counted
    /// in; zero for what is no number.
    spec fn level(self) -> int;

    /// The magnitude that stands for amplitude one.
    spec fn full_scale() -> int;

    /// The sample relative to full scale, or `None` where it is no number.
    fn normalize(self) -> (a: Option<Amplitude>)
        ensures
            a.is_some() == self.finite(),
            a.is_some() ==> a.unwrap().numerator() == self.level() && a.unwrap().denominator()
                == Self::full_scale() && a.unwrap().denom > 0,
            a.is_none() ==> self.level() == 0,
    ;

    /// Full scale is a positive magnitude.
    proof fn lemma_full_scale_positive()
        ensures
            Self::full_scale() > 0,
    ;
}

impl Normalizable for i16 {
    open spec fn finite(self) -> bool {
        true
    }

    open spec fn level(self) -> int {
        self as int
    }

    open spec fn full_scale() -> int {
        32767
    }

    fn normalize(self) -> (a: Option<Amplitude>) {
        let a = Amplitude { numer: self as i32, shift: 0, denom: 32767, denom_shift: 0 };
        proof {
            lemma_unshifted(a);
        }
        Some(a)
    }

    proof fn lemma_full_scale_positive() {
    }
}

/// 24-bit samples travel in 32-bit containers.
impl Normalizable for i32 {
    open spec fn finite(self) -> bool {
        true
    }

    open spec fn level(self) -> int {
        self as int
    }

    open spec fn full_scale() -> int {
        8388607
    }

    fn normalize(self) -> (a: Option<Amplitude>) {
        let a = Amplitude { numer: self, shift: 0, denom: 8388607, denom_shift: 0 };
        proof {
            lemma_unshifted(a);
        }
        Some(a)
    }

    proof fn lemma_full_scale_positive() {
    }
}

/// Sum of the squared values of a block.
pub open spec fn sum_squares<T: Normalizable>(block: Seq<T>) -> int
    decreases block.len(),
{
    if block.len() == 0 {
        0
    } else {
        sum_squares(block.drop_last()) + block.last().level() * block.last().level()
    }
}

/// Whether every sample of a block is a number.
pub open spec fn all_finite<T: Normalizable>(block: Seq<T>) -> bool {
    forall|i: int| 0 <= i < block.len() ==> (#[trigger] block[i]).finite()
}

/// The level, in whole decibels relative to full scale, under which a
/// block counts as silence.
#[derive(Clone, Copy, Debug, PartialEq, Eq, Structural)]
pub struct SilenceThreshold {
    pub db: i32,
}

/// The power of full scale over a block of `count` samples: what the sum
/// of squares is measured against.
pub open spec fn full_power(count: int, full_scale: int) -> int {
    count * (full_scale * full_scale)
}

/// Whether a block of `count` samples with the given sum of squares has
/// an RMS level under `db` decibels: its mean square over the square of
/// full scale is the power ratio that is compared. An empty block lies
/// under no level.
pub open spec fn below_threshold(sum: int, count: int, full_scale: int, db: int) -> bool {
    ratio_below_db(sum as nat, full_power(count, full_scale) as nat, db)
}

/// Whether `block` is silence under `threshold`. A block with a sample
/// that is no number has no level and is no silence.
pub open spec fn block_is_silent<T: Normalizable>(block: Seq<T>, threshold: SilenceThreshold) -> bool {
    all_finite(block) && below_threshold(
        sum_squares(block),
        block.len() as int,
        T::full_scale(),
        threshold.db as int,
    )
}

/// Whether `level` is the RMS level of `block`: ten times the logarithm
/// of its mean square relative to full scale, which is twenty times that
/// of its root, in whole decibels.
pub open spec fn is_rms_db_of<T: Normalizable>(level: Level, block: Seq<T>) -> bool {
    if all_finite(block) {
        level.is_level_of(
            sum_squares(block) as nat,
            full_power(block.len() as int, T::full_scale()) as nat,
        )
    } else {
        level == Level::Undefined
    }
}

impl SilenceThreshold {
    /// The threshold of -40 dB.
    pub open spec fn standard() -> SilenceThreshold {
        SilenceThreshold { db: -40i32 }
    }

    pub fn default_level() -> (t: SilenceThreshold)
        ensures
            t == SilenceThreshold::standard(),
    {
        SilenceThreshold { db: -40 }
    }

    pub fn from_decibels(db: i32) -> (t: SilenceThreshold)
        ensures
            t.db == db,
    {
        SilenceThreshold { db }
    }
}

/// The largest square that a sample can have.
pub open spec fn max_square() -> int {
    0x4000_0000_0000_0000 * pow2(510) as int
}

/// Twenty limbs hold the sum of the squares of any block and the power it
/// is measured against.
pub proof fn lemma_power_fits(count: int, square: int)
    requires
        0 <= count <= u64::MAX,
        0 <= square <= max_square(),
    ensures
        0 <= count * square < place(20),
{
    lemma2_to64();
    lemma2_to64_rest();
    lemma_pow2(32);
    lemma_pow_multiplies(2, 32, 20);
    lemma_pow2(640);
    assert(place(20) == pow2(640));
    lemma_pow2_adds(62, 510);
    lemma_pow2_adds(64, 572);
    lemma_pow2_strictly_increases(636, 640);
    lemma_pow2_pos(572);
    let m = pow2(572) as int;
    assert(max_square() == m);
    assert(0 <= count * square < 0x1_0000_0000_0000_0000 * m) by (nonlinear_arith)
        requires
            0 <= count < 0x1_0000_0000_0000_0000,
            0 <= square <= m,
            m > 0,
    ;
}

/// Squares a magnitude given as a small number times a power of two.
fn scaled_square(numer: i32, shift: u8) -> (square: BigNat)
    ensures
        square@ == (numer * pow2(shift as nat)) * (numer * pow2(shift as nat)),
        square@ <= max_square(),
{
    let v: i64 = numer as i64;
    assert(0 <= v * v <= 0x4000_0000_0000_0000) by (nonlinear_arith)
        requires
            -0x8000_0000 <= v <= 0x7fff_ffff,
    ;
    let small: u128 = (v * v) as u128;
    let bits: u32 = 2 * (shift as u32);
    proof {
        let w = pow2(shift as nat) as int;
        lemma_pow2_adds(shift as nat, shift as nat);
        if bits < 510 {
            lemma_pow2_strictly_increases(bits as nat, 510);
        }
        lemma_pow2_pos(bits as nat);
        assert((v * v) * (w * w) == (v * w) * (v * w)) by (nonlinear_arith);
        assert((v * v) * (w * w) <= 0x4000_0000_0000_0000 * pow2(510)) by (nonlinear_arith)
            requires
                0 <= v * v <= 0x4000_0000_0000_0000,
                0 < w * w <= pow2(510),
        ;
    }
    BigNat::from_u128(small).times_power_of_two(bits)
}

/// Running sum of squares over the samples of one block.
pub struct EnergyMeter {
    sum: BigNat,
    count: u64,
    tainted: bool,
}

impl EnergyMeter {
    /// The sum of the squares metered.
    pub closed spec fn total(&self) -> nat {
        self.sum@
    }

    /// The number of samples metered.
    pub closed spec fn count(&self) -> nat {
        self.count as nat
    }

    /// Whether a sample was metered that is no number.
    pub closed spec fn tainted(&self) -> bool {
        self.tainted
    }

    /// The sum is that of as many squares as were metered, none of them
    /// beyond the largest.
    pub closed spec fn well_formed(&self) -> bool {
        self.sum@ <= self.count * max_square()
    }

    pub fn new() -> (meter: EnergyMeter)
        ensures
            meter.total() == 0,
            meter.count() == 0,
            !meter.tainted(),
            meter.well_formed(),
    {
        EnergyMeter { sum: BigNat::zero(), count: 0, tainted: false }
    }

    /// The number of samples metered.
    pub fn samples(&self) -> (n: u64)
        ensures
            n == self.count(),
    {
        self.count
    }

    /// Takes one more sample into the sum; what is no number adds nothing
    /// to it and taints the meter.
    pub fn add(&mut self, sample: Option<Amplitude>)
        requires
            old(self).well_formed(),
            old(self).count() < u64::MAX,
        ensures
            final(self).well_formed(),
            final(self).count() == old(self).count() + 1,
            final(self).tainted() == (old(self).tainted() || sample.is_none()),
            final(self).total() == old(self).total() + match sample {
                Some(a) => a.numerator() * a.numerator(),
                None => 0,
            },
    {
        proof {
            lemma_pow2_pos(510);
            let c = self.count as int;
            let m = max_square();
            assert(c * m + m == (c + 1) * m) by (nonlinear_arith);
            assert(c * m <= (c + 1) * m) by (nonlinear_arith)
                requires
                    m >= 0,
            ;
        }
        match sample {
            Some(a) => {
                let square = scaled_square(a.numer, a.shift);
                self.sum = self.sum.plus(&square);
            },
            None => {
                self.tainted = true;
            },
        }
        self.count = self.count + 1;
    }

    /// The power of full scale over as many samples as were metered.
    fn reference(&self, scale: &Amplitude) -> (q: BigNat)
        requires
            scale.denom > 0,
        ensures
            q@ == full_power(self.count as int, scale.denominator()),
            q@ < place(20),
    {
        let unit = scaled_square(scale.denom, scale.denom_shift);
        let q = unit.times(&BigNat::from_u128(self.count as u128));
        proof {
            let d = scale.denominator();
            assert(unit@ * self.count == self.count * (d * d)) by (nonlinear_arith)
                requires
                    unit@ == d * d,
            ;
            lemma_power_fits(self.count as int, unit@ as int);
        }
        q
    }

    /// Whether what was metered lies under `threshold`, for samples with
    /// the full scale of `scale`.
    pub fn is_below(&self, scale: &Amplitude, threshold: &SilenceThreshold) -> (silent: bool)
        requires
            scale.denom > 0,
        ensures
            silent == (!self.tainted() && below_threshold(
                self.total() as int,
                self.count() as int,
                scale.denominator(),
                threshold.db as int,
            )),
    {
        if self.tainted {
            false
        } else {
            ratio_is_below_db(&self.sum, &self.reference(scale), threshold.db)
        }
    }

    /// The RMS level of what was metered, in whole decibels relative to
    /// the full scale of `scale`.
    pub fn level(&self, scale: &Amplitude) -> (level: Level)
        requires
            self.well_formed(),
            scale.denom > 0,
        ensures
            if self.tainted() {
                level == Level::Undefined
            } else {
                level.is_level_of(
                    self.total(),
                    full_power(self.count() as int, scale.denominator()) as nat,
                )
            },
    {
        if self.tainted {
            Level::Undefined
        } else {
            let q = self.reference(scale);
            proof {
                if self.count > 0 {
                    lemma_pow2_pos(510);
                    let c = self.count as int;
                    let m = max_square();
                    assert(self.sum@ <= c * m);
                    lemma_power_fits(c, m);
                } else {
                    assert(0 * max_square() == 0);
                    crate::bignat::lemma_place_step(19);
                }
            }
            level_of_ratio(&self.sum, &q, 20)
        }
    }
}

/// A block with one more sample holds numbers only where it did before
/// and the sample is one.
pub proof fn lemma_all_finite_push<T: Normalizable>(block: Seq<T>, sample: T)
    ensures
        all_finite(block.push(sample)) == (all_finite(block) && sample.finite()),
{
    let longer = block.push(sample);
    if all_finite(block) && sample.finite() {
        assert forall|i: int| 0 <= i < longer.len() implies (#[trigger] longer[i]).finite() by {
            if i < block.len() {
                assert(longer[i] == block[i]);
            }
        }
    }
    if all_finite(longer) {
        assert(longer[block.len() as int].finite());
        assert forall|i: int| 0 <= i < block.len() implies (#[trigger] block[i]).finite() by {
            assert(longer[i] == block[i]);
        }
    }
}

/// Sums the squares of a block and notes the scale of its samples.
fn meter_block<T: Normalizable>(block: &[T]) -> (out: (EnergyMeter, Option<Amplitude>))
    ensures
        out.0.well_formed(),
        out.0.total() == sum_squares(block@),
        out.0.count() == block@.len(),
        out.0.tainted() == !all_finite(block@),
        out.1.is_none() ==> out.0.tainted() || block@.len() == 0,
        out.1.is_some() ==> out.1.unwrap().denom > 0 && out.1.unwrap().denominator()
            == T::full_scale(),
{
    let mut meter = EnergyMeter::new();
    let mut scale: Option<Amplitude> = None;
    let mut i: usize = 0;
    while i < block.len()
        invariant
            i <= block.len(),
            meter.well_formed(),
            meter.count() == i,
            meter.total() == sum_squares(block@.take(i as int)),
            meter.tainted() == !all_finite(block@.take(i as int)),
            scale.is_none() ==> meter.tainted() || i == 0,
            scale.is_some() ==> scale.unwrap().denom > 0 && scale.unwrap().denominator()
                == T::full_scale(),
        decreases block.len() - i,
    {
        let a = block[i].normalize();
        proof {
            assert(block@.take(i + 1).drop_last() =~= block@.take(i as int));
            assert(block@.take(i + 1) =~= block@.take(i as int).push(block@[i as int]));
            lemma_all_finite_push(block@.take(i as int), block@[i as int]);
        }
        proof {
            let v = block@[i as int].level();
            if a.is_none() {
                assert(v * v == 0) by (nonlinear_arith)
                    requires
                        v == 0,
                ;
            }
        }
        meter.add(a);
        if a.is_some() {
            scale = a;
        }
        i += 1;
    }
    proof {
        assert(block@.take(i as int) =~= block@);
    }
    (meter, scale)
}

/// The RMS level of a block in whole decibels relative to full scale,
/// rounded down. A block of zeros has the level of zero power; an empty
/// block has none, and neither has one with a sample that is no number.
pub fn calculate_rms_db<T: Normalizable>(block: &[T]) -> (level: Level)
    ensures
        is_rms_db_of(level, block@),
{
    let (meter, scale) = meter_block(block);
    match scale {
        Some(s) => meter.level(&s),
        None => {
            proof {
                assert(full_power(0, T::full_scale()) == 0) by (nonlinear_arith);
            }
            Level::Undefined
        },
    }
}

/// Classifies one block: true where its RMS level lies under `threshold`.
pub fn is_silent<T: Normalizable>(block: &[T], threshold: &SilenceThreshold) -> (silent: bool)
    ensures
        silent == block_is_silent(block@, *threshold),
{
    let (meter, scale) = meter_block(block);
    match scale {
        Some(s) => meter.is_below(&s, threshold),
        None => {
            proof {
                assert(full_power(0, T::full_scale()) == 0) by (nonlinear_arith);
                level_decides_as_ratio(
                    Level::Undefined,
                    sum_squares(block@) as nat,
                    0,
                    threshold.db as int,
                );
            }
            false
        },
    }
}

/// A block whose samples all have the value `v` has the mean square
/// `v * v`.
pub proof fn uniform_block_energy<T: Normalizable>(block: Seq<T>, v: int)
    requires
        forall|i: int| 0 <= i < block.len() ==> (#[trigger] block[i]).level() == v,
    ensures
        sum_squares(block) == block.len() * (v * v),
    decreases block.len(),
{
    if block.len() > 0 {
        uniform_block_energy(block.drop_last(), v);
        assert(block.last().level() == v);
        assert((block.len() - 1) * (v * v) + v * v == block.len() * (v * v))
            by (nonlinear_arith);
    }
}

/// A block of uniform amplitude has the level of that amplitude, however
/// long it is: it lies under a threshold exactly when the square of the
/// amplitude over the square of full scale does, which is to say when
/// `20 * log10(|v| / full_scale)` lies under it.
pub proof fn uniform_block_level<T: Normalizable>(block: Seq<T>, v: int, db: int)
    requires
        block.len() > 0,
        forall|i: int| 0 <= i < block.len() ==> (#[trigger] block[i]).level() == v,
    ensures
        below_threshold(sum_squares(block), block.len() as int, T::full_scale(), db)
            == ratio_below_db((v * v) as nat, (T::full_scale() * T::full_scale()) as nat, db),
{
    T::lemma_full_scale_positive();
    uniform_block_energy(block, v);
    let n = block.len() as int;
    let m = T::full_scale();
    let a = v * v;
    let b = m * m;
    assert(a >= 0) by (nonlinear_arith)
        requires
            a == v * v,
    ;
    assert(b > 0) by (nonlinear_arith)
        requires
            b == m * m,
            m > 0,
    ;
    assert(n * a >= 0 && n * b > 0) by (nonlinear_arith)
        requires
            n > 0,
            a >= 0,
            b > 0,
    ;
    lemma_pow_distributes(n, a, 10);
    lemma_pow_distributes(n, b, 10);
    lemma_pow_positive(n, 10);
    let c = pow(n, 10);
    let x = pow(a, 10);
    let y = pow(b, 10);
    if db <= 0 {
        let w = pow(10, (-db) as nat);
        assert((c * x * w < c * y) == (x * w < y)) by (nonlinear_arith)
            requires
                c > 0,
        ;
    } else {
        let w = pow(10, db as nat);
        assert((c * x < c * y * w) == (x < y * w)) by (nonlinear_arith)
            requires
                c > 0,
        ;
    }
}

/// The RMS level of a block of uniform amplitude `v` is the level of
/// `v * v` over the square of full scale, the whole decibels of
/// `20 * log10(|v| / full_scale)`.
pub proof fn uniform_block_rms_db<T: Normalizable>(block: Seq<T>, v: int, level: Level)
    requires
        block.len() > 0,
        all_finite(block),
        forall|i: int| 0 <= i < block.len() ==> (#[trigger] block[i]).level() == v,
    ensures
        is_rms_db_of(level, block) == level.is_level_of(
            (v * v) as nat,
            (T::full_scale() * T::full_scale()) as nat,
        ),
{
    T::lemma_full_scale_positive();
    uniform_block_energy(block, v);
    let n = block.len() as int;
    let m = T::full_scale();
    let a = v * v;
    let b = m * m;
    assert(a >= 0) by (nonlinear_arith)
        requires
            a == v * v,
    ;
    assert(b > 0) by (nonlinear_arith)
        requires
            b == m * m,
            m > 0,
    ;
    assert(n * b > 0 && (n * a > 0) == (a > 0) && n * a >= 0) by (nonlinear_arith)
        requires
            n > 0,
            a >= 0,
            b > 0,
    ;
    match level {
        Level::Decibels(d) => {
            uniform_block_level(block, v, d as int);
            uniform_block_level(block, v, d + 1);
        },
        _ => {},
    }
}

/// A block of zeros, however long, is silence under every threshold and
/// has the level of zero power.
pub proof fn zero_block_is_silent<T: Normalizable>(block: Seq<T>, threshold: SilenceThreshold)
    requires
        block.len() > 0,
        all_finite(block),
        forall|i: int| 0 <= i < block.len() ==> (#[trigger] block[i]).level() == 0,
    ensures
        block_is_silent(block, threshold),
        is_rms_db_of(Level::NegInfinity, block),
{
    T::lemma_full_scale_positive();
    uniform_block_energy(block, 0);
    let m = T::full_scale();
    let q = full_power(block.len() as int, m);
    assert(q > 0) by (nonlinear_arith)
        requires
            q == block.len() * (m * m),
            block.len() > 0,
            m > 0,
    ;
    level_decides_as_ratio(Level::NegInfinity, 0, q as nat, threshold.db as int);
}

} // verus!
