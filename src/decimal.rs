//! Exact base-10 numbers as a mantissa and a scale, and the money type.
use vstd::prelude::*;

verus! {

/// The largest magnitude of a mantissa: 96 bits.
pub const MAX_MANTISSA: i128 = 79228162514264337593543950335;

/// The largest number of fractional digits.
pub const MAX_SCALE: u32 = 28;

/// The number `mantissa / 10^scale`.
#[derive(Clone, Copy, Debug, PartialEq, Eq, Structural)]
pub struct DecimalValue {
    pub mantissa: i128,
    pub scale: u32,
}

/// `10^n`.
pub open spec fn pow10(n: nat) -> int
    decreases n,
{
    if n == 0 {
        1
    } else {
        10 * pow10((n - 1) as nat)
    }
}

/// `n / d` rounded to the nearest integer, ties to the even one.
pub open spec fn round_half_even(n: int, d: int) -> int {
    let q = n / d;
    let r = n % d;
    if 2 * r < d {
        q
    } else if 2 * r > d {
        q + 1
    } else if q % 2 == 0 {
        q
    } else {
        q + 1
    }
}

impl DecimalValue {
    /// The mantissa and the scale are within the bounds of the representation.
    pub open spec fn valid(self) -> bool {
        self.scale <= MAX_SCALE && -MAX_MANTISSA <= self.mantissa <= MAX_MANTISSA
    }

    /// The value rounded to `dp` fractional digits, ties to even; one with no
    /// more than `dp` fractional digits is kept as it is.
    pub open spec fn rounded(self, dp: u32) -> DecimalValue {
        if self.scale <= dp {
            self
        } else {
            DecimalValue {
                mantissa: round_half_even(
                    self.mantissa as int,
                    pow10((self.scale - dp) as nat),
                ) as i128,
                scale: dp,
            }
        }
    }

    /// The value with exactly two fractional digits: rounded to two places,
    /// ties to even, and then widened with zeros; `None` where the widened
    /// mantissa is out of bounds.
    pub open spec fn two_places(self) -> Option<DecimalValue> {
        let r = self.rounded(2);
        let m = r.mantissa * pow10((2 - r.scale) as nat);
        if -MAX_MANTISSA <= m <= MAX_MANTISSA {
            Some(DecimalValue { mantissa: m as i128, scale: 2 })
        } else {
            None
        }
    }

    /// The number `mantissa / 10^scale`, or `None` where it is out of bounds.
    pub fn new(mantissa: i128, scale: u32) -> (r: Option<DecimalValue>)
        ensures
            r == (if (DecimalValue { mantissa, scale }).valid() {
                Some(DecimalValue { mantissa, scale })
            } else {
                None::<DecimalValue>
            }),
    {
        if scale <= MAX_SCALE && -MAX_MANTISSA <= mantissa && mantissa <= MAX_MANTISSA {
            Some(DecimalValue { mantissa, scale })
        } else {
            None
        }
    }

    /// The decimal number written in `s`, or `None` where `s` is not one.
    pub fn parse(s: &str) -> (r: Option<DecimalValue>)
        ensures
            r == decimal_of_text(s@),
            r matches Some(v) ==> v.valid(),
    {
        decimal_from_str(s)
    }

    /// The number in decimal notation, with exactly `scale` fractional digits.
    pub fn to_text(&self) -> (r: String)
        requires
            self.valid(),
        ensures
            r@ == decimal_text(self.mantissa, self.scale),
    {
        decimal_to_string(self)
    }
}

/// A value with at most two fractional digits written with exactly two:
/// the mantissa is multiplied by the missing power of ten.
pub(crate) fn widen_to_two_places(v: DecimalValue) -> (r: Option<DecimalValue>)
    requires
        v.valid(),
        v.scale <= 2,
    ensures
        r == (if -MAX_MANTISSA <= v.mantissa * pow10((2 - v.scale) as nat) <= MAX_MANTISSA {
            Some(DecimalValue { mantissa: (v.mantissa * pow10((2 - v.scale) as nat)) as i128, scale: 2 })
        } else {
            None::<DecimalValue>
        }),
{
    proof {
        reveal_with_fuel(pow10, 3);
    }
    let factor: i128 = if v.scale == 0 {
        100
    } else if v.scale == 1 {
        10
    } else {
        1
    };
    assert(factor == pow10((2 - v.scale) as nat));
    DecimalValue::new(v.mantissa * factor, 2)
}

/// What rust_decimal reads from a text, as mantissa and scale.
pub uninterp spec fn decimal_parsed(s: Seq<char>) -> Option<(i128, u32)>;

/// `decimal_parsed` as a value of this library.
pub open spec fn decimal_of_text(s: Seq<char>) -> Option<DecimalValue> {
    match decimal_parsed(s) {
        Some(p) => Some(DecimalValue { mantissa: p.0, scale: p.1 }),
        None => None,
    }
}

/// Relies on `rust_decimal::Decimal::from_str`: the outcome depends on the
/// text alone, and a number that it returns is within the representation.
#[verifier::external_body]
fn decimal_from_str(s: &str) -> (r: Option<DecimalValue>)
    ensures
        r == (match decimal_parsed(s@) {
            Some(p) => Some(DecimalValue { mantissa: p.0, scale: p.1 }),
            None => None::<DecimalValue>,
        }),
        r matches Some(v) ==> v.valid(),
{
    match <rust_decimal::Decimal as std::str::FromStr>::from_str(s) {
        Ok(d) => Some(DecimalValue { mantissa: d.mantissa(), scale: d.scale() }),
        Err(_) => None,
    }
}

/// What rust_decimal's checked division gives for `a / b`, each number given
/// as mantissa and scale.
pub uninterp spec fn decimal_quotient(am: i128, ascale: u32, bm: i128, bscale: u32) -> Option<(i128, u32)>;

/// `decimal_quotient` as a value of this library.
pub open spec fn quotient_of(a: DecimalValue, b: DecimalValue) -> Option<DecimalValue> {
    match decimal_quotient(a.mantissa, a.scale, b.mantissa, b.scale) {
        Some(p) => Some(DecimalValue { mantissa: p.0, scale: p.1 }),
        None => None,
    }
}

/// Relies on `rust_decimal::Decimal::checked_div`: exact decimal division,
/// `None` where the divisor is zero or the quotient overflows.
#[verifier::external_body]
pub(crate) fn checked_quotient(a: &DecimalValue, b: &DecimalValue) -> (r: Option<DecimalValue>)
    requires
        a.valid(),
        b.valid(),
    ensures
        r == (match decimal_quotient(a.mantissa, a.scale, b.mantissa, b.scale) {
            Some(p) => Some(DecimalValue { mantissa: p.0, scale: p.1 }),
            None => None::<DecimalValue>,
        }),
        b.mantissa == 0 ==> r is None,
        r matches Some(v) ==> v.valid(),
{
    let x = rust_decimal::Decimal::from_i128_with_scale(a.mantissa, a.scale);
    let y = rust_decimal::Decimal::from_i128_with_scale(b.mantissa, b.scale);
    match x.checked_div(y) {
        Some(d) => Some(DecimalValue { mantissa: d.mantissa(), scale: d.scale() }),
        None => None,
    }
}

/// Relies on `rust_decimal::Decimal::round_dp`: rounding to `dp` fractional
/// digits with ties to even, a value with fewer digits returned unchanged.
#[verifier::external_body]
pub(crate) fn round_to_places(v: &DecimalValue, dp: u32) -> (r: DecimalValue)
    requires
        v.valid(),
        dp <= MAX_SCALE,
    ensures
        r == v.rounded(dp),
        r.valid(),
{
    let d = rust_decimal::Decimal::from_i128_with_scale(v.mantissa, v.scale).round_dp(dp);
    DecimalValue { mantissa: d.mantissa(), scale: d.scale() }
}

/// The character of the decimal digit `d` (0 to 9).
pub open spec fn digit_char(d: int) -> char {
    seq!['0', '1', '2', '3', '4', '5', '6', '7', '8', '9'][d]
}

/// The decimal digits of `n`, without leading zeros (`0` for zero).
pub open spec fn digits_of(n: nat) -> Seq<char>
    decreases n,
{
    if n < 10 {
        seq![digit_char(n as int)]
    } else {
        digits_of(n / 10).push(digit_char((n % 10) as int))
    }
}

/// The last `k` decimal digits of `n`, with leading zeros.
pub open spec fn last_digits(n: nat, k: nat) -> Seq<char>
    decreases k,
{
    if k == 0 {
        Seq::empty()
    } else {
        last_digits(n / 10, (k - 1) as nat).push(digit_char((n % 10) as int))
    }
}

/// The magnitude of an integer.
pub open spec fn magnitude(m: int) -> nat {
    if m < 0 {
        (-m) as nat
    } else {
        m as nat
    }
}

/// The number `m / 10^s` in decimal notation: a `-` where it is negative,
/// the digits of the whole part, and, where `s` is not zero, a `.` followed
/// by exactly `s` fractional digits.
pub open spec fn decimal_text(m: i128, s: u32) -> Seq<char> {
    let a = magnitude(m as int);
    let sign = if m < 0 {
        seq!['-']
    } else {
        Seq::empty()
    };
    if s == 0 {
        sign + digits_of(a)
    } else {
        sign + digits_of((a as int / pow10(s as nat)) as nat) + seq!['.'] + last_digits(a, s as nat)
    }
}

/// Relies on `Display` of `rust_decimal::Decimal`, which writes the sign,
/// the digits of the whole part and, for a non-zero scale, the point and as
/// many fractional digits as the scale.
#[verifier::external_body]
fn decimal_to_string(v: &DecimalValue) -> (r: String)
    requires
        v.valid(),
    ensures
        r@ == decimal_text(v.mantissa, v.scale),
{
    rust_decimal::Decimal::from_i128_with_scale(v.mantissa, v.scale).to_string()
}

/// An amount of pounds sterling.
#[derive(Clone, Copy, Debug, PartialEq, Eq, Structural)]
pub struct GBP(pub DecimalValue);

impl GBP {
    /// The amount as a number, without the currency sign.
    pub fn as_decimal(&self) -> (r: &DecimalValue)
        ensures
            *r == self.0,
    {
        &self.0
    }

    /// The amount written with the pound sign in front.
    pub fn to_string(&self) -> (r: String)
        requires
            self.0.valid(),
        ensures
            r@ == seq!['\u{a3}'] + decimal_text(self.0.mantissa, self.0.scale),
            self.0.scale == 2 ==> r@ == seq!['\u{a3}'] + (if self.0.mantissa < 0 {
                seq!['-']
            } else {
                Seq::empty()
            }) + digits_of(magnitude(self.0.mantissa as int) / 100nat) + seq!['.'] + last_digits(
                magnitude(self.0.mantissa as int),
                2,
            ),
    {
        proof {
            reveal_with_fuel(pow10, 3);
        }
        let mut s = String::from_str("\u{a3}");
        proof {
            reveal_strlit("\u{a3}");
        }
        let t = self.0.to_text();
        s.append(t.as_str());
        s
    }
}

} // verus!
