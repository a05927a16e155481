//! Products of two 128-bit numbers, kept whole in 256 bits, so that the
//! acceptance test can compare them without rounding.

use vstd::prelude::*;

verus! {

/// A number below 2^256 in two halves.
#[derive(Clone, Copy, Debug, PartialEq, Eq, Structural)]
pub struct Wide {
    pub high: u128,
    pub low: u128,
}

impl Wide {
    /// The number the two halves stand for.
    pub open spec fn value(self) -> int {
        self.high * 0x1_0000_0000_0000_0000_0000_0000_0000_0000 + self.low
    }

    /// The whole product of `a` and `b`.
    pub fn product(a: u128, b: u128) -> (wide: Wide)
        ensures
            wide.value() == a * b,
    {
        let a0 = a % 0x1_0000_0000_0000_0000;
        let a1 = a / 0x1_0000_0000_0000_0000;
        let b0 = b % 0x1_0000_0000_0000_0000;
        let b1 = b / 0x1_0000_0000_0000_0000;
        assert(a0 * b0 <= 0xffff_ffff_ffff_fffe_0000_0000_0000_0001 && a0 * b1
            <= 0xffff_ffff_ffff_fffe_0000_0000_0000_0001 && a1 * b0
            <= 0xffff_ffff_ffff_fffe_0000_0000_0000_0001 && a1 * b1
            <= 0xffff_ffff_ffff_fffe_0000_0000_0000_0001) by (nonlinear_arith)
            requires
                a0 <= 0xffff_ffff_ffff_ffff,
                a1 <= 0xffff_ffff_ffff_ffff,
                b0 <= 0xffff_ffff_ffff_ffff,
                b1 <= 0xffff_ffff_ffff_ffff,
        ;
        let p00 = a0 * b0;
        let p01 = a0 * b1;
        let p10 = a1 * b0;
        let p11 = a1 * b1;
        let middle = p00 / 0x1_0000_0000_0000_0000 + p01 % 0x1_0000_0000_0000_0000 + p10
            % 0x1_0000_0000_0000_0000;
        let low = (middle % 0x1_0000_0000_0000_0000) * 0x1_0000_0000_0000_0000 + p00
            % 0x1_0000_0000_0000_0000;
        let high = p11 + p01 / 0x1_0000_0000_0000_0000 + p10 / 0x1_0000_0000_0000_0000 + middle
            / 0x1_0000_0000_0000_0000;
        assert(a * b == p11 * 0x1_0000_0000_0000_0000_0000_0000_0000_0000 + (p01 + p10)
            * 0x1_0000_0000_0000_0000 + p00) by (nonlinear_arith)
            requires
                a == a1 * 0x1_0000_0000_0000_0000 + a0,
                b == b1 * 0x1_0000_0000_0000_0000 + b0,
                p00 == a0 * b0,
                p01 == a0 * b1,
                p10 == a1 * b0,
                p11 == a1 * b1,
        ;
        Wide { high, low }
    }

    /// Whether this number is smaller than `other`.
    pub fn less_than(&self, other: &Wide) -> (less: bool)
        ensures
            less == (self.value() < other.value()),
    {
        self.high < other.high || (self.high == other.high && self.low < other.low)
    }
}

} // verus!
