use vstd::prelude::*;
use vstd::arithmetic::power2::lemma_pow2_pos;
use vstd::arithmetic::power2::pow2;
use crate::energy::Amplitude;
use crate::energy::Normalizable;

verus! {

/// A sample in 32-bit binary floating point, held as its bit pattern:
/// one bit of sign, eight of exponent, twenty-three of fraction. Such a
/// sample is taken as it is: its full scale is one.
#[derive(Clone, Copy, Debug, PartialEq, Eq, Structural)]
pub struct Float32 {
    pub bits: u32,
}

impl Float32 {
    /// Whether the sign bit is set.
    pub open spec fn negative(self) -> bool {
        self.bits >= 0x8000_0000
    }

    /// The eight bits of exponent.
    pub open spec fn exponent_field(self) -> int {
        (self.bits as int / 0x80_0000) % 256
    }

    /// The twenty-three bits of fraction.
    pub open spec fn fraction(self) -> int {
        self.bits as int % 0x80_0000
    }

    /// The fraction with the leading one that all but the smallest
    /// numbers imply.
    pub open spec fn mantissa(self) -> int {
        if self.exponent_field() == 0 {
            self.fraction()
        } else {
            self.fraction() + 0x80_0000
        }
    }

    /// The power of two that the mantissa is scaled by, counted from the
    /// smallest: the magnitude is `mantissa * 2^scale_bits / 2^149`.
    pub open spec fn scale_bits(self) -> nat {
        if self.exponent_field() == 0 {
            0
        } else {
            (self.exponent_field() - 1) as nat
        }
    }

    pub fn from_bits(bits: u32) -> (sample: Float32)
        ensures
            sample.bits == bits,
    {
        Float32 { bits }
    }

    pub fn to_bits(self) -> (bits: u32)
        ensures
            bits == self.bits,
    {
        self.bits
    }
}

impl Normalizable for Float32 {
    /// Infinities and what is not a number carry an exponent of all ones.
    open spec fn finite(self) -> bool {
        self.exponent_field() != 255
    }

    open spec fn level(self) -> int {
        if self.exponent_field() == 255 {
            0
        } else if self.negative() {
            -self.mantissa() * pow2(self.scale_bits())
        } else {
            self.mantissa() * pow2(self.scale_bits())
        }
    }

    /// Amplitude one, in units of two to the minus 149.
    open spec fn full_scale() -> int {
        pow2(149) as int
    }

    fn normalize(self) -> (a: Option<Amplitude>) {
        let exponent: u32 = (self.bits / 0x80_0000) % 256;
        let fraction: u32 = self.bits % 0x80_0000;
        if exponent == 255 {
            None
        } else {
            let mantissa: i32 = if exponent == 0 {
                fraction as i32
            } else {
                (fraction + 0x80_0000) as i32
            };
            let numer: i32 = if self.bits >= 0x8000_0000 {
                -mantissa
            } else {
                mantissa
            };
            let shift: u8 = if exponent == 0 {
                0
            } else {
                (exponent - 1) as u8
            };
            let a = Amplitude { numer, shift, denom: 1, denom_shift: 149 };
            proof {
                assert(1 * pow2(149) == pow2(149));
            }
            Some(a)
        }
    }

    proof fn lemma_full_scale_positive() {
        lemma_pow2_pos(149);
    }
}

} // verus!
