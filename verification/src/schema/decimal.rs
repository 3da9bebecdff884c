//! Decimal numbers: the library's representation of fractional (`Float64`) values.
//!
//! A `Decimal` is `±(whole + fraction / 10^fraction_digits)`, exactly as a number is
//! written in JSON text, kept with no trailing zero in its fraction.
use vstd::prelude::*;

verus! {

/// Ten to the power `n`.
pub open spec fn pow10(n: nat) -> nat
    decreases n,
{
    if n == 0 { 1 } else { 10 * pow10((n - 1) as nat) }
}

/// Ten to any power is positive, and the powers grow with the exponent.
pub proof fn lemma_pow10_monotone(a: nat, b: nat)
    requires
        a <= b,
    ensures
        1 <= pow10(a) <= pow10(b),
    decreases b,
{
    if b > 0 {
        if a <= b - 1 {
            lemma_pow10_monotone(a, (b - 1) as nat);
        } else {
            lemma_pow10_monotone(0, (b - 1) as nat);
        }
    }
}

/// The powers of ten that fit in 32 bits.
pub proof fn lemma_pow10_small()
    ensures
        pow10(0) == 1,
        pow10(1) == 10,
        pow10(2) == 100,
        pow10(3) == 1000,
        pow10(4) == 10000,
        pow10(5) == 100000,
        pow10(6) == 1000000,
        pow10(7) == 10000000,
        pow10(8) == 100000000,
        pow10(9) == 1000000000,
{
    reveal_with_fuel(pow10, 10);
}

/// A decimal number `±(whole + fraction / 10^fraction_digits)`.
#[derive(Clone, Copy, Debug, PartialEq, Eq, Structural)]
pub struct Decimal {
    pub negative: bool,
    pub whole: u32,
    pub fraction: u32,
    pub fraction_digits: u32,
}

/// The largest number of fraction digits a decimal holds.
pub const MAX_FRACTION_DIGITS: u32 = 9;

impl Decimal {
    /// At most nine fraction digits, the fraction below `10^fraction_digits`, and no
    /// trailing zero digit in the fraction.
    pub open spec fn wf(self) -> bool {
        &&& self.fraction_digits <= MAX_FRACTION_DIGITS
        &&& self.fraction < pow10(self.fraction_digits as nat)
        &&& (self.fraction_digits > 0 ==> self.fraction % 10 != 0)
    }

    /// The magnitude scaled by `10^fraction_digits`: `whole * 10^fraction_digits + fraction`.
    pub open spec fn scaled(self) -> int {
        self.whole * pow10(self.fraction_digits as nat) + self.fraction
    }

    /// The signed numerator over the common denominator `10^9`.
    pub open spec fn numerator(self) -> int {
        let m = self.scaled() * pow10((MAX_FRACTION_DIGITS - self.fraction_digits) as nat);
        if self.negative { -m } else { m }
    }

    /// Whether `self` is numerically smaller than `other`.
    pub open spec fn less_than(self, other: Decimal) -> bool {
        self.numerator() < other.numerator()
    }

    /// The numerator over the common denominator `10^9`, as an executable value.
    fn numerator_exec(&self) -> (r: i128)
        requires
            self.wf(),
        ensures
            r == self.numerator(),
    {
        proof {
            lemma_pow10_small();
            lemma_pow10_monotone(self.fraction_digits as nat, 9);
            lemma_pow10_monotone((MAX_FRACTION_DIGITS - self.fraction_digits) as nat, 9);
        }
        let mut p: u64 = 1;
        let mut k: u32 = 0;
        while k < self.fraction_digits
            invariant
                k <= self.fraction_digits <= 9,
                p == pow10(k as nat),
                pow10(k as nat) <= pow10(9),
                pow10(9) == 1000000000,
            decreases self.fraction_digits - k,
        {
            proof {
                lemma_pow10_monotone((k + 1) as nat, 9);
            }
            p = p * 10;
            k = k + 1;
        }
        let mut q: u64 = 1;
        let mut j: u32 = 0;
        while j < MAX_FRACTION_DIGITS - self.fraction_digits
            invariant
                self.fraction_digits <= 9,
                j <= MAX_FRACTION_DIGITS - self.fraction_digits,
                q == pow10(j as nat),
                pow10(j as nat) <= pow10(9),
                pow10(9) == 1000000000,
            decreases MAX_FRACTION_DIGITS - self.fraction_digits - j,
        {
            proof {
                lemma_pow10_monotone((j + 1) as nat, 9);
            }
            q = q * 10;
            j = j + 1;
        }
        assert(self.whole * p <= 4294967295 * 1000000000) by (nonlinear_arith)
            requires
                self.whole <= 4294967295,
                p <= 1000000000,
        ;
        let scaled: u64 = (self.whole as u64) * p + (self.fraction as u64);
        assert(scaled * q <= 4294967296000000000 * 1000000000) by (nonlinear_arith)
            requires
                scaled <= 4294967296000000000,
                q <= 1000000000,
        ;
        let m: i128 = (scaled as i128) * (q as i128);
        if self.negative { -m } else { m }
    }

    /// Whether `self` is numerically smaller than `other`.
    pub fn lt(&self, other: &Decimal) -> (r: bool)
        requires
            self.wf(),
            other.wf(),
        ensures
            r == self.less_than(*other),
    {
        self.numerator_exec() < other.numerator_exec()
    }
    /// Whether `self` and `other` are numerically equal.
    pub fn num_eq(&self, other: &Decimal) -> (r: bool)
        requires
            self.wf(),
            other.wf(),
        ensures
            r == (self.numerator() == other.numerator()),
    {
        self.numerator_exec() == other.numerator_exec()
    }

    /// Whether this decimal is well-formed (see `wf`).
    pub fn is_wf(&self) -> (r: bool)
        ensures
            r == self.wf(),
    {
        if self.fraction_digits > MAX_FRACTION_DIGITS {
            return false;
        }
        proof {
            lemma_pow10_small();
            lemma_pow10_monotone(self.fraction_digits as nat, 9);
        }
        let mut p: u64 = 1;
        let mut k: u32 = 0;
        while k < self.fraction_digits
            invariant
                k <= self.fraction_digits <= 9,
                p == pow10(k as nat),
                pow10(k as nat) <= pow10(9),
                pow10(9) == 1000000000,
            decreases self.fraction_digits - k,
        {
            proof {
                lemma_pow10_monotone((k + 1) as nat, 9);
            }
            p = p * 10;
            k = k + 1;
        }
        (self.fraction as u64) < p && (self.fraction_digits == 0 || self.fraction % 10 != 0)
    }
}

} // verus!
