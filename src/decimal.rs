use vstd::prelude::*;

verus! {

/// Largest number of fractional digits a decimal may carry.
pub const MAX_SCALE: u32 = 28;

/// Largest magnitude of a decimal's mantissa: 2^96 - 1.
pub const MAX_MANTISSA: i128 = 79228162514264337593543950335;

/// An exact decimal number: `mantissa / 10^scale`.
///
/// The arithmetic on it is carried out by `rust_decimal`; this type holds the
/// same value as plain integers so that contracts can speak of it.
#[derive(Clone, Copy, Debug)]
pub struct Dec {
    pub mantissa: i128,
    pub scale: u32,
}

pub open spec fn pow10(n: nat) -> int
    decreases n,
{
    if n == 0 {
        1
    } else {
        10 * pow10((n - 1) as nat)
    }
}

pub proof fn lemma_pow10_positive(n: nat)
    ensures
        pow10(n) >= 1,
    decreases n,
{
    if n > 0 {
        lemma_pow10_positive((n - 1) as nat);
    }
}

pub open spec fn abs(x: int) -> int {
    if x < 0 {
        -x
    } else {
        x
    }
}

/// How two decimals compare by value: `a.m * 10^b.s` against `b.m * 10^a.s`.
pub open spec fn compare_values(a: Dec, b: Dec) -> core::cmp::Ordering {
    let l = a.mantissa * pow10(b.scale as nat);
    let r = b.mantissa * pow10(a.scale as nat);
    if l < r {
        core::cmp::Ordering::Less
    } else if l == r {
        core::cmp::Ordering::Equal
    } else {
        core::cmp::Ordering::Greater
    }
}

/// Mantissa of `d` rounded to `dp` fractional digits, ties to even.
pub open spec fn rounded_mantissa(d: Dec, dp: nat) -> int {
    if d.scale <= dp {
        d.mantissa as int
    } else {
        let unit = pow10((d.scale - dp) as nat);
        let half = 5 * pow10((d.scale - dp - 1) as nat);
        let q = abs(d.mantissa as int) / unit;
        let r = abs(d.mantissa as int) % unit;
        let up = if r > half || (r == half && q % 2 == 1) {
            q + 1
        } else {
            q
        };
        if d.mantissa < 0 {
            -up
        } else {
            up
        }
    }
}

/// Scale of `d` after rounding to `dp` fractional digits.
pub open spec fn rounded_scale(d: Dec, dp: nat) -> nat {
    if d.scale <= dp {
        d.scale as nat
    } else {
        dp
    }
}

/// Result of `rust_decimal`'s checked addition on the two values.
pub uninterp spec fn decimal_sum(a: Dec, b: Dec) -> Option<Dec>;

/// Result of `rust_decimal`'s checked subtraction on the two values.
pub uninterp spec fn decimal_difference(a: Dec, b: Dec) -> Option<Dec>;

/// Result of `rust_decimal`'s checked multiplication on the two values.
pub uninterp spec fn decimal_product(a: Dec, b: Dec) -> Option<Dec>;

/// Result of `rust_decimal`'s checked division on the two values.
pub uninterp spec fn decimal_quotient(a: Dec, b: Dec) -> Option<Dec>;

impl Dec {
    /// The mantissa fits in 96 bits and the scale is at most 28.
    pub open spec fn wf(self) -> bool {
        -MAX_MANTISSA <= self.mantissa <= MAX_MANTISSA && self.scale <= MAX_SCALE
    }

    /// Builds `mantissa / 10^scale`; `None` when it does not fit.
    pub fn new(mantissa: i128, scale: u32) -> (r: Option<Dec>)
        ensures
            r is Some <==> (-MAX_MANTISSA <= mantissa <= MAX_MANTISSA && scale <= MAX_SCALE),
            r matches Some(d) ==> d.mantissa == mantissa && d.scale == scale && d.wf(),
    {
        if -MAX_MANTISSA <= mantissa && mantissa <= MAX_MANTISSA && scale <= MAX_SCALE {
            Some(Dec { mantissa, scale })
        } else {
            None
        }
    }

    /// Whether the mantissa fits in 96 bits and the scale is at most 28.
    pub fn is_valid(&self) -> (r: bool)
        ensures
            r == self.wf(),
    {
        -MAX_MANTISSA <= self.mantissa && self.mantissa <= MAX_MANTISSA && self.scale <= MAX_SCALE
    }

    /// The integer `n` as a decimal.
    pub fn from_int(n: i64) -> (r: Dec)
        ensures
            r.mantissa == n,
            r.scale == 0,
            r.wf(),
    {
        Dec { mantissa: n as i128, scale: 0 }
    }

    /// Compares by value, so that `1.0` and `1.00` are equal.
    pub fn compare(&self, other: &Dec) -> (r: core::cmp::Ordering)
        requires
            self.wf(),
            other.wf(),
        ensures
            r == compare_values(*self, *other),
    {
        decimal_cmp(*self, *other)
    }

    /// Rounds to `dp` fractional digits, ties to even.
    pub fn round_dp(&self, dp: u32) -> (r: Dec)
        requires
            self.wf(),
        ensures
            r.mantissa == rounded_mantissa(*self, dp as nat),
            r.scale == rounded_scale(*self, dp as nat),
            r.wf(),
    {
        decimal_round(*self, dp)
    }
}

impl PartialEq for Dec {
    fn eq(&self, other: &Dec) -> (r: bool)
        ensures
            r == (self.wf() && other.wf() && compare_values(*self, *other)
                == core::cmp::Ordering::Equal),
    {
        if self.is_valid() && other.is_valid() {
            let c = decimal_cmp(*self, *other);
            match c {
                core::cmp::Ordering::Equal => true,
                _ => false,
            }
        } else {
            false
        }
    }
}

impl vstd::std_specs::cmp::PartialEqSpecImpl for Dec {
    open spec fn obeys_eq_spec() -> bool {
        false
    }

    open spec fn eq_spec(&self, other: &Dec) -> bool {
        self.wf() && other.wf() && compare_values(*self, *other) == core::cmp::Ordering::Equal
    }
}

/// Relies on `Ord::cmp` of `rust_decimal::Decimal`, which compares by value.
#[verifier::external_body]
fn decimal_cmp(a: Dec, b: Dec) -> (r: core::cmp::Ordering)
    requires
        a.wf(),
        b.wf(),
    ensures
        r == compare_values(a, b),
{
    let x = rust_decimal::Decimal::from_i128_with_scale(a.mantissa, a.scale);
    let y = rust_decimal::Decimal::from_i128_with_scale(b.mantissa, b.scale);
    x.cmp(&y)
}

/// Relies on `rust_decimal::Decimal::round_dp`: with a scale of at most `dp`
/// the value is returned as it is; otherwise the mantissa is divided by
/// `10^(scale - dp)` and rounded half to even.
#[verifier::external_body]
fn decimal_round(a: Dec, dp: u32) -> (r: Dec)
    requires
        a.wf(),
    ensures
        r.mantissa == rounded_mantissa(a, dp as nat),
        r.scale == rounded_scale(a, dp as nat),
        r.wf(),
{
    let x = rust_decimal::Decimal::from_i128_with_scale(a.mantissa, a.scale).round_dp(dp);
    Dec { mantissa: x.mantissa(), scale: x.scale() }
}

/// Relies on `rust_decimal::Decimal::checked_add`: `None` on overflow.
#[verifier::external_body]
pub(crate) fn decimal_add(a: Dec, b: Dec) -> (r: Option<Dec>)
    requires
        a.wf(),
        b.wf(),
    ensures
        r == decimal_sum(a, b),
        r matches Some(d) ==> d.wf(),
{
    let x = rust_decimal::Decimal::from_i128_with_scale(a.mantissa, a.scale);
    let y = rust_decimal::Decimal::from_i128_with_scale(b.mantissa, b.scale);
    match x.checked_add(y) {
        Some(z) => Some(Dec { mantissa: z.mantissa(), scale: z.scale() }),
        None => None,
    }
}

/// Relies on `rust_decimal::Decimal::checked_sub`: `None` on overflow.
#[verifier::external_body]
pub(crate) fn decimal_sub(a: Dec, b: Dec) -> (r: Option<Dec>)
    requires
        a.wf(),
        b.wf(),
    ensures
        r == decimal_difference(a, b),
        r matches Some(d) ==> d.wf(),
{
    let x = rust_decimal::Decimal::from_i128_with_scale(a.mantissa, a.scale);
    let y = rust_decimal::Decimal::from_i128_with_scale(b.mantissa, b.scale);
    match x.checked_sub(y) {
        Some(z) => Some(Dec { mantissa: z.mantissa(), scale: z.scale() }),
        None => None,
    }
}

/// Relies on `rust_decimal::Decimal::checked_mul`: `None` on overflow.
#[verifier::external_body]
pub(crate) fn decimal_mul(a: Dec, b: Dec) -> (r: Option<Dec>)
    requires
        a.wf(),
        b.wf(),
    ensures
        r == decimal_product(a, b),
        r matches Some(d) ==> d.wf(),
{
    let x = rust_decimal::Decimal::from_i128_with_scale(a.mantissa, a.scale);
    let y = rust_decimal::Decimal::from_i128_with_scale(b.mantissa, b.scale);
    match x.checked_mul(y) {
        Some(z) => Some(Dec { mantissa: z.mantissa(), scale: z.scale() }),
        None => None,
    }
}

/// Relies on `rust_decimal::Decimal::checked_div`: `None` on overflow or a
/// zero divisor.
#[verifier::external_body]
pub(crate) fn decimal_div(a: Dec, b: Dec) -> (r: Option<Dec>)
    requires
        a.wf(),
        b.wf(),
    ensures
        r == decimal_quotient(a, b),
        r matches Some(d) ==> d.wf(),
{
    let x = rust_decimal::Decimal::from_i128_with_scale(a.mantissa, a.scale);
    let y = rust_decimal::Decimal::from_i128_with_scale(b.mantissa, b.scale);
    match x.checked_div(y) {
        Some(z) => Some(Dec { mantissa: z.mantissa(), scale: z.scale() }),
        None => None,
    }
}

} // verus!
