//! Monetary amounts.
//!
//! An [`Amount`] holds, as plain values, what a `rust_decimal::Decimal`
//! holds: a signed 96-bit mantissa and a decimal scale between 0 and 28.
//! Its value is `mantissa / 10^scale`.  All arithmetic, comparison, rounding
//! and formatting is done by `rust_decimal` itself, behind the trusted
//! wrappers at the end of this file.
use rust_decimal::Decimal;
use vstd::prelude::*;

verus! {

/// The largest mantissa magnitude a decimal can hold: `2^96 - 1`.
pub const MAX_MANTISSA: i128 = 79228162514264337593543950335;

/// The largest number of fractional digits a decimal can hold.
pub const MAX_SCALE: u32 = 28;

/// `10^n`.
pub open spec fn pow10(n: nat) -> int
    decreases n,
{
    if n == 0 {
        1
    } else {
        10 * pow10((n - 1) as nat)
    }
}

/// Powers of ten are positive.
pub proof fn lemma_pow10_positive(n: nat)
    ensures
        pow10(n) > 0,
    decreases n,
{
    if n > 0 {
        lemma_pow10_positive((n - 1) as nat);
    }
}

/// Powers of ten grow with the exponent.
pub proof fn lemma_pow10_monotone(x: nat, y: nat)
    requires
        x <= y,
    ensures
        pow10(x) <= pow10(y),
    decreases y,
{
    if x < y {
        lemma_pow10_monotone(x, (y - 1) as nat);
        lemma_pow10_positive((y - 1) as nat);
    }
}

proof fn lemma_pow10_27()
    ensures
        pow10(27) == 1_000_000_000_000_000_000_000_000_000,
        pow10(28) == 10_000_000_000_000_000_000_000_000_000,
{
    reveal_with_fuel(pow10, 29);
}

/// `10^n` for `n <= 28`.
fn pow10_exec(n: u32) -> (p: i128)
    requires
        n <= MAX_SCALE,
    ensures
        p == pow10(n as nat),
        p > 0,
{
    let mut p: i128 = 1;
    let mut i: u32 = 0;
    proof {
        lemma_pow10_27();
    }
    while i < n
        invariant
            i <= n <= MAX_SCALE,
            p == pow10(i as nat),
            pow10(28) == 10_000_000_000_000_000_000_000_000_000,
        decreases n - i,
    {
        proof {
            lemma_pow10_monotone(i as nat, 27);
            lemma_pow10_27();
            lemma_pow10_positive(i as nat);
            assert(p <= 1_000_000_000_000_000_000_000_000_000);
        }
        p = p * 10;
        i = i + 1;
    }
    proof {
        lemma_pow10_positive(n as nat);
    }
    p
}

/// A decimal number `mantissa / 10^scale`, with `|mantissa| < 2^96` and
/// `scale <= 28`, exactly the range of `rust_decimal::Decimal`.
#[derive(Clone, Copy, Debug)]
pub struct Amount {
    mantissa: i128,
    scale: u32,
}

impl Amount {
    /// Every amount lies in the range of a decimal.
    #[verifier::type_invariant]
    pub closed spec fn wf(self) -> bool {
        &&& -MAX_MANTISSA <= self.mantissa <= MAX_MANTISSA
        &&& self.scale <= MAX_SCALE
    }

    pub closed spec fn spec_mantissa(self) -> int {
        self.mantissa as int
    }

    pub closed spec fn spec_scale(self) -> nat {
        self.scale as nat
    }

    /// The value of the amount, counted in units of `10^-28`.  Two amounts
    /// have the same value exactly when they have the same units.
    pub open spec fn units(self) -> int {
        self.spec_mantissa() * pow10((MAX_SCALE - self.spec_scale()) as nat)
    }

    /// The zero that `Decimal::ZERO` is: mantissa 0 at scale 0.
    pub closed spec fn spec_zero() -> Amount {
        Amount { mantissa: 0, scale: 0 }
    }

    /// The amount with the given mantissa and scale.
    pub closed spec fn spec_from_parts(mantissa: int, scale: nat) -> Amount {
        Amount { mantissa: mantissa as i128, scale: scale as u32 }
    }

    /// Every `Amount` value is in range.
    pub proof fn lemma_in_range(a: Amount)
        requires
            a.wf(),
        ensures
            in_range(a),
    {
    }

    pub proof fn lemma_zero()
        ensures
            in_range(Self::spec_zero()),
            Self::spec_zero().spec_mantissa() == 0,
            Self::spec_zero().spec_scale() == 0,
            Self::spec_zero().units() == 0,
    {
    }

    /// Builds the amount `mantissa / 10^scale`; `None` where a decimal cannot
    /// hold it.
    pub fn new(mantissa: i128, scale: u32) -> (r: Option<Amount>)
        ensures
            r is Some <==> (-MAX_MANTISSA <= mantissa <= MAX_MANTISSA && scale <= MAX_SCALE),
            r matches Some(a) ==> a.spec_mantissa() == mantissa && a.spec_scale() == scale,
    {
        if -MAX_MANTISSA <= mantissa && mantissa <= MAX_MANTISSA && scale <= MAX_SCALE {
            Some(Amount { mantissa, scale })
        } else {
            None
        }
    }

    /// Zero, with scale 0.
    pub fn zero() -> (r: Amount)
        ensures
            r == Self::spec_zero(),
            r.units() == 0,
    {
        proof {
            Self::lemma_zero();
        }
        Amount { mantissa: 0, scale: 0 }
    }

    pub fn mantissa(&self) -> (m: i128)
        ensures
            m == self.spec_mantissa(),
            -MAX_MANTISSA <= m <= MAX_MANTISSA,
    {
        proof {
            use_type_invariant(self);
        }
        self.mantissa
    }

    pub fn scale(&self) -> (s: u32)
        ensures
            s == self.spec_scale(),
            s <= MAX_SCALE,
    {
        proof {
            use_type_invariant(self);
        }
        self.scale
    }

    /// `self + other` as a decimal computes it; `None` where it overflows.
    /// Where no rounding is needed the sum is exact.
    pub fn checked_add(&self, other: &Amount) -> (r: Option<Amount>)
        ensures
            r == decimal_add(*self, *other),
            add_is_exact(*self, *other) ==> r->0.units() == self.units() + other.units(),
    {
        proof {
            use_type_invariant(self);
            use_type_invariant(other);
            if add_is_exact(*self, *other) {
                lemma_exact_add_units(*self, *other);
            }
        }
        decimal_checked_add(self, other)
    }

    /// `self - other` as a decimal computes it; `None` where it overflows.
    /// Where no rounding is needed the difference is exact.
    pub fn checked_sub(&self, other: &Amount) -> (r: Option<Amount>)
        ensures
            r == decimal_sub(*self, *other),
            sub_is_exact(*self, *other) ==> r->0.units() == self.units() - other.units(),
            self.units() >= other.units() ==> (r matches Some(x) ==> x.units() >= 0),
    {
        proof {
            use_type_invariant(self);
            use_type_invariant(other);
            if sub_is_exact(*self, *other) {
                lemma_exact_sub_units(*self, *other);
            }
        }
        decimal_checked_sub(self, other)
    }

    /// Whether the value of `self` is below that of `other`.
    pub fn less_than(&self, other: &Amount) -> (r: bool)
        ensures
            r == (self.units() < other.units()),
    {
        proof {
            use_type_invariant(self);
            use_type_invariant(other);
        }
        decimal_lt(self, other)
    }

    /// `self` rounded to `dp` fractional digits, half to even.
    pub fn round_dp(&self, dp: u32) -> (r: Amount)
        ensures
            r == rounded_dp(*self, dp as nat),
    {
        proof {
            use_type_invariant(self);
        }
        decimal_round_dp(self, dp)
    }

    /// Whether the integer part of `self` has at most 27 digits, so that
    /// `to_string_4dp` can write it.
    pub fn text_4dp_fits(&self) -> (b: bool)
        ensures
            b == text_4dp_fits(*self),
    {
        proof {
            use_type_invariant(self);
        }
        let p = pow10_exec(self.scale);
        let m: i128 = if self.mantissa < 0 {
            -self.mantissa
        } else {
            self.mantissa
        };
        proof {
            lemma_pow10_27();
        }
        m / p < 1_000_000_000_000_000_000_000_000_000
    }

    /// The text of `self` with exactly four fractional digits.
    pub fn to_string_4dp(&self) -> (s: String)
        requires
            text_4dp_fits(*self),
        ensures
            s@ == text_4dp(*self),
    {
        proof {
            use_type_invariant(self);
        }
        decimal_text_4dp(self)
    }
}

/// Whether `x` fits in a 96-bit mantissa.
pub open spec fn within_96_bits(x: int) -> bool {
    -MAX_MANTISSA <= x <= MAX_MANTISSA
}

/// The larger of the two scales.
pub open spec fn common_scale(a: Amount, b: Amount) -> nat {
    if a.spec_scale() <= b.spec_scale() {
        b.spec_scale()
    } else {
        a.spec_scale()
    }
}

/// The mantissa of `a` written at scale `s >= a.scale`.
pub open spec fn mantissa_at(a: Amount, s: nat) -> int {
    a.spec_mantissa() * pow10((s - a.spec_scale()) as nat)
}

/// Adding `a` and `b` needs no rounding: both operands, and their sum,
/// written at the larger of their scales, fit in 96 bits.
pub open spec fn fits_add(a: Amount, b: Amount) -> bool {
    let s = common_scale(a, b);
    &&& within_96_bits(mantissa_at(a, s))
    &&& within_96_bits(mantissa_at(b, s))
    &&& within_96_bits(mantissa_at(a, s) + mantissa_at(b, s))
}

/// Subtracting `b` from `a` needs no rounding, in the same sense.
pub open spec fn fits_sub(a: Amount, b: Amount) -> bool {
    let s = common_scale(a, b);
    &&& within_96_bits(mantissa_at(a, s))
    &&& within_96_bits(mantissa_at(b, s))
    &&& within_96_bits(mantissa_at(a, s) - mantissa_at(b, s))
}

/// Adding `a` and `b` involves no rounding: one of them is zero, or they fit
/// as `fits_add` says.
pub open spec fn add_is_exact(a: Amount, b: Amount) -> bool {
    a.spec_mantissa() == 0 || b.spec_mantissa() == 0 || fits_add(a, b)
}

/// Subtracting `b` from `a` involves no rounding.
pub open spec fn sub_is_exact(a: Amount, b: Amount) -> bool {
    a.spec_mantissa() == 0 || b.spec_mantissa() == 0 || fits_sub(a, b)
}

/// The decimal `a + b` where no rounding is needed: the other operand where
/// one is zero (the left one's zero gives way first); otherwise the sum of the
/// mantissas aligned to the larger scale, at that scale.
pub open spec fn exact_add(a: Amount, b: Amount) -> Amount {
    if a.spec_mantissa() == 0 {
        b
    } else if b.spec_mantissa() == 0 {
        a
    } else {
        let s = common_scale(a, b);
        Amount::spec_from_parts(mantissa_at(a, s) + mantissa_at(b, s), s)
    }
}

/// The decimal `a - b` where no rounding is needed: `-b` where `a` is zero,
/// `a` where `b` is zero, otherwise the difference of the aligned mantissas.
pub open spec fn exact_sub(a: Amount, b: Amount) -> Amount {
    if a.spec_mantissa() == 0 {
        Amount::spec_from_parts(-b.spec_mantissa(), b.spec_scale())
    } else if b.spec_mantissa() == 0 {
        a
    } else {
        let s = common_scale(a, b);
        Amount::spec_from_parts(mantissa_at(a, s) - mantissa_at(b, s), s)
    }
}

/// What adding two decimals gives: the exact sum where no rounding is needed,
/// else whatever `Decimal::checked_add` returns (`None` on overflow).
pub open spec fn decimal_add(a: Amount, b: Amount) -> Option<Amount> {
    if add_is_exact(a, b) {
        Some(exact_add(a, b))
    } else {
        checked_add_result(a, b)
    }
}

/// What subtracting two decimals gives, in the same sense.
pub open spec fn decimal_sub(a: Amount, b: Amount) -> Option<Amount> {
    if sub_is_exact(a, b) {
        Some(exact_sub(a, b))
    } else {
        checked_sub_result(a, b)
    }
}

proof fn lemma_pow10_add(x: nat, y: nat)
    ensures
        pow10(x) * pow10(y) == pow10(x + y),
    decreases x,
{
    if x > 0 {
        lemma_pow10_add((x - 1) as nat, y);
        let p = pow10((x - 1) as nat);
        let q = pow10(y);
        assert(pow10(x) == 10 * p);
        assert(pow10(x + y) == 10 * pow10((x - 1 + y) as nat));
        assert((10 * p) * q == 10 * (p * q)) by (nonlinear_arith);
    }
}

/// Writing an amount at a larger scale keeps its value.
proof fn lemma_units_at(a: Amount, s: nat)
    requires
        a.spec_scale() <= s <= MAX_SCALE,
    ensures
        mantissa_at(a, s) * pow10((MAX_SCALE - s) as nat) == a.units(),
{
    let x = (s - a.spec_scale()) as nat;
    let y = (MAX_SCALE - s) as nat;
    lemma_pow10_add(x, y);
    assert(x + y == MAX_SCALE - a.spec_scale());
    let m = a.spec_mantissa();
    assert((m * pow10(x)) * pow10(y) == m * (pow10(x) * pow10(y))) by (nonlinear_arith);
}

pub proof fn lemma_from_parts(m: int, s: nat)
    requires
        within_96_bits(m),
        s <= MAX_SCALE,
    ensures
        Amount::spec_from_parts(m, s).spec_mantissa() == m,
        Amount::spec_from_parts(m, s).spec_scale() == s,
{
}

/// The exact sum has the value of the sum.
pub proof fn lemma_exact_add_units(a: Amount, b: Amount)
    requires
        a.spec_scale() <= MAX_SCALE,
        b.spec_scale() <= MAX_SCALE,
        add_is_exact(a, b),
    ensures
        exact_add(a, b).units() == a.units() + b.units(),
{
    if a.spec_mantissa() == 0 {
        assert(a.units() == 0);
    } else if b.spec_mantissa() == 0 {
        assert(b.units() == 0);
    } else {
        let s = common_scale(a, b);
        let x = mantissa_at(a, s);
        let y = mantissa_at(b, s);
        lemma_from_parts(x + y, s);
        lemma_units_at(a, s);
        lemma_units_at(b, s);
        let p = pow10((MAX_SCALE - s) as nat);
        assert((x + y) * p == x * p + y * p) by (nonlinear_arith);
    }
}

/// The exact difference has the value of the difference.
pub proof fn lemma_exact_sub_units(a: Amount, b: Amount)
    requires
        a.spec_scale() <= MAX_SCALE,
        b.spec_scale() <= MAX_SCALE,
        -MAX_MANTISSA <= b.spec_mantissa() <= MAX_MANTISSA,
        sub_is_exact(a, b),
    ensures
        exact_sub(a, b).units() == a.units() - b.units(),
{
    if a.spec_mantissa() == 0 {
        assert(a.units() == 0);
        lemma_from_parts(-b.spec_mantissa(), b.spec_scale());
        let p = pow10((MAX_SCALE - b.spec_scale()) as nat);
        assert((-b.spec_mantissa()) * p == -(b.spec_mantissa() * p)) by (nonlinear_arith);
    } else if b.spec_mantissa() == 0 {
        assert(b.units() == 0);
    } else {
        let s = common_scale(a, b);
        let x = mantissa_at(a, s);
        let y = mantissa_at(b, s);
        lemma_from_parts(x - y, s);
        lemma_units_at(a, s);
        lemma_units_at(b, s);
        let p = pow10((MAX_SCALE - s) as nat);
        assert((x - y) * p == x * p - y * p) by (nonlinear_arith);
    }
}

/// The amount lies in the range of a decimal (as every `Amount` value does,
/// by its type invariant).
pub open spec fn in_range(a: Amount) -> bool {
    within_96_bits(a.spec_mantissa()) && a.spec_scale() <= MAX_SCALE
}

/// Exact sums and differences of amounts in range are in range.
pub proof fn lemma_exact_in_range(a: Amount, b: Amount)
    requires
        in_range(a),
        in_range(b),
    ensures
        add_is_exact(a, b) ==> in_range(exact_add(a, b)),
        sub_is_exact(a, b) ==> in_range(exact_sub(a, b)),
{
    let s = common_scale(a, b);
    if a.spec_mantissa() == 0 {
        lemma_from_parts(-b.spec_mantissa(), b.spec_scale());
    } else if b.spec_mantissa() != 0 {
        if fits_add(a, b) {
            lemma_from_parts(mantissa_at(a, s) + mantissa_at(b, s), s);
        }
        if fits_sub(a, b) {
            lemma_from_parts(mantissa_at(a, s) - mantissa_at(b, s), s);
        }
    }
}

/// `a` rounded to `dp` fractional digits, half to even ("banker's rounding"):
/// unchanged where it has at most `dp` of them; otherwise the mantissa's
/// magnitude is divided by `10^(scale - dp)`, and one is added where the
/// remainder is above half, or is exactly half and the quotient is odd.
pub open spec fn rounded_dp(a: Amount, dp: nat) -> Amount {
    if a.spec_scale() <= dp {
        a
    } else {
        let k = (a.spec_scale() - dp) as nat;
        let magnitude = magnitude(a);
        let q = magnitude / pow10(k);
        let rem = magnitude % pow10(k);
        let half = 5 * pow10((k - 1) as nat);
        let rounded = if rem > half || (rem == half && q % 2 == 1) {
            q + 1
        } else {
            q
        };
        Amount::spec_from_parts(
            if a.spec_mantissa() < 0 {
                -rounded
            } else {
                rounded
            },
            dp,
        )
    }
}

/// The magnitude of the mantissa.
pub open spec fn magnitude(a: Amount) -> int {
    if a.spec_mantissa() < 0 {
        -a.spec_mantissa()
    } else {
        a.spec_mantissa()
    }
}

/// The integer part of the magnitude: `|mantissa| / 10^scale`.
pub open spec fn integer_part(a: Amount) -> int {
    magnitude(a) / pow10(a.spec_scale())
}

/// `Display` can write the decimal with four fractional digits: its text
/// buffer holds 32 characters, so the integer part has at most 27 digits.
pub open spec fn text_4dp_fits(a: Amount) -> bool {
    integer_part(a) < pow10(27)
}

/// What `Decimal::checked_add` returns on the two decimals.
pub uninterp spec fn checked_add_result(a: Amount, b: Amount) -> Option<Amount>;

/// What `Decimal::checked_sub` returns on the two decimals.
pub uninterp spec fn checked_sub_result(a: Amount, b: Amount) -> Option<Amount>;

/// The character of the decimal digit `d`, from 0 to 9.
pub open spec fn digit_char(d: int) -> char {
    (48 + d) as char
}

/// The decimal digits of `n`, most significant first, without leading zeros
/// (a single `0` for zero).
pub open spec fn decimal_digits(n: nat) -> Seq<char>
    decreases n,
{
    if n < 10 {
        seq![digit_char(n as int)]
    } else {
        decimal_digits(n / 10).push(digit_char((n % 10) as int))
    }
}

/// The last four decimal digits of `n`, with leading zeros.
pub open spec fn four_digits(n: nat) -> Seq<char> {
    seq![
        digit_char(((n / 1000) % 10) as int),
        digit_char(((n / 100) % 10) as int),
        digit_char(((n / 10) % 10) as int),
        digit_char((n % 10) as int),
    ]
}

/// The text that `Display` writes for a decimal at precision 4 (`{:.4}`): a
/// minus sign where the mantissa is negative, the digits of the integer part,
/// a point, and the first four fractional digits (zero-padded, and cut off,
/// not rounded, beyond the fourth).
pub open spec fn text_4dp(a: Amount) -> Seq<char> {
    let magnitude: int = if a.spec_mantissa() < 0 {
        -a.spec_mantissa()
    } else {
        a.spec_mantissa()
    };
    let p = pow10(a.spec_scale());
    let sign: Seq<char> = if a.spec_mantissa() < 0 {
        seq!['-']
    } else {
        seq![]
    };
    sign + decimal_digits((magnitude / p) as nat) + seq!['.'] + four_digits(
        ((magnitude * 10000 / p) % 10000) as nat,
    )
}

/// Calls `rust_decimal::Decimal::checked_add`.  Claims: the result is a
/// function of the two operands alone; where the left operand is zero the
/// right one is returned, else where the right one is zero the left one is;
/// and where the operands and their sum, aligned to the larger scale, fit in
/// 96 bits, that sum is returned at that scale (the source's fast paths and
/// `aligned_add` then take no rounding step).  Where rounding or overflow
/// occurs nothing more is claimed.
#[verifier::external_body]
fn decimal_checked_add(a: &Amount, b: &Amount) -> (r: Option<Amount>)
    requires
        a.wf(),
        b.wf(),
    ensures
        r == checked_add_result(*a, *b),
        add_is_exact(*a, *b) ==> r == Some(exact_add(*a, *b)),
{
    let x = Decimal::from_i128_with_scale(a.mantissa, a.scale);
    let y = Decimal::from_i128_with_scale(b.mantissa, b.scale);
    match x.checked_add(y) {
        Some(d) => Some(Amount { mantissa: d.mantissa(), scale: d.scale() }),
        None => None,
    }
}

/// Calls `rust_decimal::Decimal::checked_sub`.  Claims the same as for
/// `checked_add`, for the difference; where the left operand is zero the
/// negated right one is returned.  Also claims that a difference that is
/// not negative stays so when it is rounded: the sign is that of the exact
/// difference (`aligned_add` flips it only where the exact result is
/// negative), and rounding changes only the magnitude.
#[verifier::external_body]
fn decimal_checked_sub(a: &Amount, b: &Amount) -> (r: Option<Amount>)
    requires
        a.wf(),
        b.wf(),
    ensures
        r == checked_sub_result(*a, *b),
        sub_is_exact(*a, *b) ==> r == Some(exact_sub(*a, *b)),
        a.units() >= b.units() ==> (r matches Some(x) ==> x.units() >= 0),
{
    let x = Decimal::from_i128_with_scale(a.mantissa, a.scale);
    let y = Decimal::from_i128_with_scale(b.mantissa, b.scale);
    match x.checked_sub(y) {
        Some(d) => Some(Amount { mantissa: d.mantissa(), scale: d.scale() }),
        None => None,
    }
}

/// Calls `<` on `rust_decimal::Decimal` (`PartialOrd::lt`, through
/// `cmp_impl`).  Claims that it compares the exact values.
#[verifier::external_body]
fn decimal_lt(a: &Amount, b: &Amount) -> (r: bool)
    requires
        a.wf(),
        b.wf(),
    ensures
        r == (a.units() < b.units()),
{
    Decimal::from_i128_with_scale(a.mantissa, a.scale) < Decimal::from_i128_with_scale(b.mantissa, b.scale)
}

/// Calls `rust_decimal::Decimal::round_dp`.  Claims that it rounds half to
/// even at `dp` digits as `rounded_dp` states, as its documentation says and
/// `round_dp_with_strategy` does for `MidpointNearestEven`.
#[verifier::external_body]
fn decimal_round_dp(a: &Amount, dp: u32) -> (r: Amount)
    requires
        a.wf(),
    ensures
        r == rounded_dp(*a, dp as nat),
{
    let d = Decimal::from_i128_with_scale(a.mantissa, a.scale).round_dp(dp);
    Amount { mantissa: d.mantissa(), scale: d.scale() }
}

/// Calls `Display::fmt` of `rust_decimal::Decimal` with precision 4, through
/// `format!`.  Claims the text that `text_4dp` states, as `to_str_internal`
/// builds it and `pad_integral` signs it.  `to_str_internal` pushes the text
/// into a 32-character `ArrayString`, which panics when full: the integer
/// digits, the point and four digits must fit, hence `text_4dp_fits`.
#[verifier::external_body]
fn decimal_text_4dp(a: &Amount) -> (s: String)
    requires
        a.wf(),
        text_4dp_fits(*a),
    ensures
        s@ == text_4dp(*a),
{
    format!("{:.4}", Decimal::from_i128_with_scale(a.mantissa, a.scale))
}

} // verus!
