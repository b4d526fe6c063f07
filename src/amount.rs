//! Fixed-point amounts: a signed mantissa scaled by a power of ten.

use vstd::prelude::*;

verus! {

/// The largest magnitude a mantissa may have: 96 bits.
pub const MAX_MANTISSA: i128 = 0xFFFF_FFFF_FFFF_FFFF_FFFF_FFFF;

/// The largest number of fractional digits.
pub const MAX_SCALE: u32 = 28;

/// The number of fractional digits an amount keeps in the ledger.
pub const LEDGER_SCALE: u32 = 12;

/// `mantissa / 10^scale`, within the bounds of a 96-bit decimal.
#[derive(Clone, Copy, Debug, PartialEq, Eq, Structural)]
pub struct Amount {
    mantissa: i128,
    scale: u32,
}

pub open spec fn pow10(n: nat) -> int
    decreases n,
{
    if n == 0 {
        1
    } else {
        10 * pow10((n - 1) as nat)
    }
}

/// The (mantissa, scale) pair that rounding the decimal `m / 10^s` to `dp`
/// fractional digits gives, halves going to the even neighbour. A value with
/// at most `dp` fractional digits stays as it is.
pub open spec fn round_half_even(m: int, s: int, dp: int) -> (int, int) {
    if s <= dp {
        (m, s)
    } else {
        let d = pow10((s - dp) as nat);
        let a = if m < 0 {
            -m
        } else {
            m
        };
        let q = a / d;
        let r = a % d;
        let q1 = if 2 * r > d || (2 * r == d && q % 2 == 1) {
            q + 1
        } else {
            q
        };
        (
            if m < 0 {
                -q1
            } else {
                q1
            },
            dp,
        )
    }
}

impl Amount {
    #[verifier::type_invariant]
    spec fn inv(self) -> bool {
        self.scale <= MAX_SCALE && -MAX_MANTISSA <= self.mantissa <= MAX_MANTISSA
    }

    pub closed spec fn spec_mantissa(self) -> int {
        self.mantissa as int
    }

    pub closed spec fn spec_scale(self) -> int {
        self.scale as int
    }

    /// This amount rounded to the ledger's twelve fractional digits.
    pub closed spec fn rounded(self) -> Amount {
        let r = round_half_even(self.mantissa as int, self.scale as int, LEDGER_SCALE as int);
        Amount { mantissa: r.0 as i128, scale: r.1 as u32 }
    }

    /// The amount `mantissa / 10^scale`, if it is within bounds.
    pub fn new(mantissa: i128, scale: u32) -> (r: Option<Amount>)
        ensures
            r is Some <==> (scale <= MAX_SCALE && -MAX_MANTISSA <= mantissa <= MAX_MANTISSA),
            r matches Some(a) ==> a.spec_mantissa() == mantissa && a.spec_scale() == scale,
    {
        if scale <= MAX_SCALE && -MAX_MANTISSA <= mantissa && mantissa <= MAX_MANTISSA {
            Some(Amount { mantissa, scale })
        } else {
            None
        }
    }

    pub fn mantissa(&self) -> (r: i128)
        ensures
            r == self.spec_mantissa(),
    {
        self.mantissa
    }

    pub fn scale(&self) -> (r: u32)
        ensures
            r == self.spec_scale(),
    {
        self.scale
    }

    /// This amount rounded to the ledger's twelve fractional digits.
    pub fn round_dp12(&self) -> (r: Amount)
        ensures
            (r.spec_mantissa(), r.spec_scale()) == round_half_even(
                self.spec_mantissa(),
                self.spec_scale(),
                LEDGER_SCALE as int,
            ),
            r == self.rounded(),
            self.spec_scale() <= LEDGER_SCALE ==> r == *self,
    {
        proof {
            use_type_invariant(self);
        }
        let (mantissa, scale) = round_decimal(self.mantissa, self.scale, LEDGER_SCALE);
        Amount { mantissa, scale }
    }
}

/// Relies on rust_decimal's Decimal::from_i128_with_scale, which panics only
/// outside the bounds required here, and Decimal::round_dp: banker's rounding
/// to `dp` fractional digits, keeping a value that has no more digits than
/// that, and giving again a 96-bit decimal.
#[verifier::external_body]
fn round_decimal(mantissa: i128, scale: u32, dp: u32) -> (r: (i128, u32))
    requires
        scale <= MAX_SCALE,
        -MAX_MANTISSA <= mantissa <= MAX_MANTISSA,
    ensures
        (r.0 as int, r.1 as int) == round_half_even(mantissa as int, scale as int, dp as int),
        -MAX_MANTISSA <= r.0 <= MAX_MANTISSA,
{
    let d = rust_decimal::Decimal::from_i128_with_scale(mantissa, scale).round_dp(dp);
    (d.mantissa(), d.scale())
}

} // verus!
