//! Fixed-point decimal numbers with six fractional digits.

use vstd::prelude::*;

verus! {

/// Micro-units in one unit.
pub const MICROS: i64 = 1_000_000;

/// `10` raised to `n`.
pub open spec fn pow10(n: nat) -> int
    decreases n,
{
    if n == 0 {
        1
    } else {
        10 * pow10((n - 1) as nat)
    }
}

/// The integer nearest to `n / d` (`d > 0`); halves are rounded away from zero.
pub open spec fn round_div(n: int, d: int) -> int {
    if n >= 0 {
        (2 * n + d) / (2 * d)
    } else {
        -((d - 2 * n) / (2 * d))
    }
}

/// `x` limited to the closed range `[lo, hi]`.
pub open spec fn clamp(x: int, lo: int, hi: int) -> int {
    if x < lo {
        lo
    } else if x > hi {
        hi
    } else {
        x
    }
}

/// A real number `micros / 1_000_000`.
#[derive(Clone, Copy, Debug, PartialEq, Eq, Structural)]
pub struct Decimal {
    pub micros: i64,
}

pub proof fn lemma_pow10_positive(n: nat)
    ensures
        pow10(n) >= 1,
    decreases n,
{
    if n > 0 {
        lemma_pow10_positive((n - 1) as nat);
    }
}

/// `10^places` for the places that a [`Decimal`] can hold.
fn pow10_small(places: u32) -> (r: i64)
    requires
        places <= 6,
    ensures
        r == pow10(places as nat),
        1 <= r <= MICROS,
{
    reveal_with_fuel(pow10, 7);
    match places {
        0 => 1,
        1 => 10,
        2 => 100,
        3 => 1_000,
        4 => 10_000,
        5 => 100_000,
        _ => 1_000_000,
    }
}

impl Decimal {
    /// The number `digits / 10^places`, e.g. `Decimal::new(1122, 2)` is 11.22.
    pub fn new(digits: i64, places: u32) -> (r: Decimal)
        requires
            places <= 6,
            -9_000_000_000_000 <= digits <= 9_000_000_000_000,
        ensures
            r.micros == digits * pow10((6 - places) as nat),
    {
        let scale = pow10_small(6 - places);
        assert(-9_000_000_000_000 * MICROS <= digits * scale <= 9_000_000_000_000 * MICROS)
            by (nonlinear_arith)
            requires
                -9_000_000_000_000 <= digits <= 9_000_000_000_000,
                1 <= scale <= MICROS,
        ;
        Decimal { micros: digits * scale }
    }

    /// The whole number `n`.
    pub fn from_int(n: i64) -> (r: Decimal)
        requires
            -9_000_000_000_000 <= n <= 9_000_000_000_000,
        ensures
            r.micros == n * MICROS,
    {
        Decimal { micros: n * MICROS }
    }

    /// This number limited to `[lo, hi]` (given in micro-units).
    pub fn clamp(self, lo: i64, hi: i64) -> (r: Decimal)
        requires
            lo <= hi,
        ensures
            r.micros == clamp(self.micros as int, lo as int, hi as int),
    {
        if self.micros < lo {
            Decimal { micros: lo }
        } else if self.micros > hi {
            Decimal { micros: hi }
        } else {
            self
        }
    }
}

/// `round_div(n, d)` on machine integers.
pub fn round_div_i128(n: i128, d: i128) -> (r: i128)
    requires
        d > 0,
        -0x1000_0000_0000_0000_0000_0000_0000_0000 <= n <= 0x1000_0000_0000_0000_0000_0000_0000_0000,
        d <= 0x1000_0000_0000_0000_0000_0000_0000_0000,
    ensures
        r == round_div(n as int, d as int),
{
    if n >= 0 {
        (2 * n + d) / (2 * d)
    } else {
        -((d - 2 * n) / (2 * d))
    }
}

} // verus!
