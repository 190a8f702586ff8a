//! Exact signed decimal amounts and the positive-amount guard.

use vstd::prelude::*;

verus! {

/// Largest magnitude of a mantissa: `2^96 - 1`, the range of `rust_decimal`.
pub const MAX_MANTISSA: i128 = 79228162514264337593543950335;

/// Largest number of fractional digits.
pub const MAX_SCALE: u32 = 28;

/// `10^n`.
pub open spec fn pow10(n: nat) -> int
    decreases n,
{
    if n == 0 {
        1
    } else {
        10 * pow10((n - 1) as nat)
    }
}

/// Powers of ten are positive.
pub proof fn lemma_pow10_positive(n: nat)
    ensures
        pow10(n) >= 1,
    decreases n,
{
    if n > 0 {
        lemma_pow10_positive((n - 1) as nat);
    }
}

/// `10^(x + y) == 10^x * 10^y`.
pub proof fn lemma_pow10_add(x: nat, y: nat)
    ensures
        pow10(x + y) == pow10(x) * pow10(y),
    decreases y,
{
    if y > 0 {
        lemma_pow10_add(x, (y - 1) as nat);
        assert(pow10(x + y) == 10 * pow10((x + y - 1) as nat));
        assert(pow10(x) * pow10(y) == pow10(x) * (10 * pow10((y - 1) as nat)));
        assert(pow10(x) * (10 * pow10((y - 1) as nat)) == 10 * (pow10(x) * pow10(
            (y - 1) as nat,
        ))) by (nonlinear_arith);
    }
}

/// `10^n` for `n <= 28`, which fits in an `i128`.
pub fn pow10_exec(n: u32) -> (r: i128)
    requires
        n <= MAX_SCALE,
    ensures
        r as int == pow10(n as nat),
        r >= 1,
{
    proof {
        reveal_with_fuel(pow10, 29);
    }
    let mut r: i128 = 1;
    let mut i: u32 = 0;
    while i < n
        invariant
            i <= n <= MAX_SCALE,
            r as int == pow10(i as nat),
            r >= 1,
            pow10(28) == 10000000000000000000000000000,
        decreases n - i,
    {
        proof {
            lemma_pow10_mono((i + 1) as nat, 28);
        }
        r = r * 10;
        i = i + 1;
    }
    r
}

/// Powers of ten grow with the exponent.
pub proof fn lemma_pow10_mono(a: nat, b: nat)
    requires
        a <= b,
    ensures
        pow10(a) <= pow10(b),
{
    lemma_pow10_add(a, (b - a) as nat);
    lemma_pow10_positive(a);
    lemma_pow10_positive((b - a) as nat);
    assert(pow10(a) * pow10((b - a) as nat) >= pow10(a) * 1) by (nonlinear_arith)
        requires
            pow10(a) >= 1,
            pow10((b - a) as nat) >= 1,
    ;
}

/// A signed decimal number, `mantissa / 10^scale`, in the range of `rust_decimal`.
///
/// The same number may have several representations (`1.5` and `1.50`): `==` compares
/// representations, while `ge` and the contracts compare numbers by `value`.
#[derive(Clone, Copy, Debug, PartialEq, Eq, Structural)]
pub struct Amount {
    pub mantissa: i128,
    pub scale: u32,
}

/// The larger of two scales: the scale of a sum.
pub open spec fn max_scale(a: Amount, b: Amount) -> u32 {
    if a.scale >= b.scale {
        a.scale
    } else {
        b.scale
    }
}

/// The mantissa of `a` written with `s` fractional digits (`s >= a.scale`).
pub open spec fn aligned(a: Amount, s: u32) -> int {
    a.mantissa * pow10((s - a.scale) as nat)
}

/// Whether `m` is a mantissa that `rust_decimal` can hold.
pub open spec fn mantissa_fits(m: int) -> bool {
    -MAX_MANTISSA <= m <= MAX_MANTISSA
}

/// The exact sum of two amounts at the larger scale, if its mantissa fits.
pub open spec fn sum_spec(a: Amount, b: Amount) -> Option<Amount> {
    let s = max_scale(a, b);
    let m = aligned(a, s) + aligned(b, s);
    if mantissa_fits(m) {
        Some(Amount { mantissa: m as i128, scale: s })
    } else {
        None
    }
}

/// The exact difference `a - b` at the larger scale, if its mantissa fits.
pub open spec fn diff_spec(a: Amount, b: Amount) -> Option<Amount> {
    sum_spec(a, b.neg_spec())
}

impl Amount {
    /// A well-formed amount: a representable mantissa and scale.
    pub open spec fn wf(self) -> bool {
        self.scale <= MAX_SCALE && mantissa_fits(self.mantissa as int)
    }

    /// The number, in units of `10^-28`.
    pub open spec fn value(self) -> int {
        self.mantissa * pow10((MAX_SCALE - self.scale) as nat)
    }

    /// The amount with the sign of the mantissa flipped.
    pub open spec fn neg_spec(self) -> Amount {
        Amount { mantissa: (-self.mantissa) as i128, scale: self.scale }
    }

    /// Zero, with no fractional digits.
    pub open spec fn zero_spec() -> Amount {
        Amount { mantissa: 0, scale: 0 }
    }

    /// The amount `mantissa / 10^scale`, if it is representable.
    pub fn new(mantissa: i128, scale: u32) -> (r: Option<Amount>)
        ensures
            r == (if (Amount { mantissa, scale }).wf() {
                Some(Amount { mantissa, scale })
            } else {
                None
            }),
    {
        if scale <= MAX_SCALE && -MAX_MANTISSA <= mantissa && mantissa <= MAX_MANTISSA {
            Some(Amount { mantissa, scale })
        } else {
            None
        }
    }

    /// Zero.
    pub fn zero() -> (r: Amount)
        ensures
            r == Amount::zero_spec(),
            r.wf(),
            r.value() == 0,
    {
        Amount { mantissa: 0, scale: 0 }
    }

    /// The negated amount.
    pub fn neg(&self) -> (r: Amount)
        requires
            self.wf(),
        ensures
            r == self.neg_spec(),
            r.wf(),
            r.value() == -self.value(),
    {
        proof {
            lemma_neg_value(*self);
        }
        Amount { mantissa: -self.mantissa, scale: self.scale }
    }

    /// Whether the amount is above zero.
    pub fn is_positive(&self) -> (r: bool)
        requires
            self.wf(),
        ensures
            r == (self.value() > 0),
    {
        proof {
            lemma_sign_of_value(*self);
        }
        self.mantissa > 0
    }

    /// The exact sum, or `None` where its mantissa at the larger scale leaves the
    /// representable range.
    pub fn checked_add(&self, other: &Amount) -> (r: Option<Amount>)
        requires
            self.wf(),
            other.wf(),
        ensures
            r == sum_spec(*self, *other),
            r matches Some(v) ==> v.wf() && v.value() == self.value() + other.value(),
    {
        let s = if self.scale >= other.scale {
            self.scale
        } else {
            other.scale
        };
        let pa = pow10_exec(s - self.scale);
        let pb = pow10_exec(s - other.scale);
        proof {
            assert(pow10(0) == 1);
            if s == self.scale {
                assert(self.mantissa * pa == self.mantissa) by (nonlinear_arith)
                    requires
                        pa == 1,
                ;
            }
            if s == other.scale {
                assert(other.mantissa * pb == other.mantissa) by (nonlinear_arith)
                    requires
                        pb == 1,
                ;
            }
        }
        let r = match self.mantissa.checked_mul(pa) {
            None => {
                assert(s != self.scale);
                assert(pb == 1);
                assert(aligned(*other, s) == other.mantissa);
                None
            },
            Some(x) => match other.mantissa.checked_mul(pb) {
                None => {
                    assert(s != other.scale);
                    assert(pa == 1);
                    assert(aligned(*self, s) == self.mantissa);
                    None
                },
                Some(y) => match x.checked_add(y) {
                    None => None,
                    Some(m) => {
                        if -MAX_MANTISSA <= m && m <= MAX_MANTISSA {
                            Some(Amount { mantissa: m, scale: s })
                        } else {
                            None
                        }
                    },
                },
            },
        };
        proof {
            if let Some(v) = r {
                lemma_sum_value(*self, *other);
            }
        }
        r
    }

    /// The exact difference `self - other`, or `None` where its mantissa at the larger
    /// scale leaves the representable range.
    pub fn checked_sub(&self, other: &Amount) -> (r: Option<Amount>)
        requires
            self.wf(),
            other.wf(),
        ensures
            r == diff_spec(*self, *other),
            r matches Some(v) ==> v.wf() && v.value() == self.value() - other.value(),
    {
        let n = other.neg();
        self.checked_add(&n)
    }

    /// Whether `self >= other` as numbers.
    pub fn ge(&self, other: &Amount) -> (r: bool)
        requires
            self.wf(),
            other.wf(),
        ensures
            r == (self.value() >= other.value()),
    {
        let s = if self.scale >= other.scale {
            self.scale
        } else {
            other.scale
        };
        let pa = pow10_exec(s - self.scale);
        let pb = pow10_exec(s - other.scale);
        proof {
            assert(pow10(0) == 1);
            if s == self.scale {
                assert(self.mantissa * pa == self.mantissa) by (nonlinear_arith)
                    requires
                        pa == 1,
                ;
            }
            if s == other.scale {
                assert(other.mantissa * pb == other.mantissa) by (nonlinear_arith)
                    requires
                        pb == 1,
                ;
            }
            lemma_value_aligned(*self, s);
            lemma_value_aligned(*other, s);
            lemma_pow10_positive((MAX_SCALE - s) as nat);
            lemma_scaled_order(aligned(*self, s), aligned(*other, s), pow10((MAX_SCALE - s) as nat));
            lemma_scaled_order(self.mantissa as int, 0, pa as int);
            lemma_scaled_order(0, self.mantissa as int, pa as int);
            lemma_scaled_order(other.mantissa as int, 0, pb as int);
            lemma_scaled_order(0, other.mantissa as int, pb as int);
            assert(0 * (pa as int) == 0 && 0 * (pb as int) == 0) by (nonlinear_arith);
        }
        match self.mantissa.checked_mul(pa) {
            None => {
                assert(s != self.scale);
                assert(pb == 1);
                self.mantissa > 0
            },
            Some(x) => match other.mantissa.checked_mul(pb) {
                None => {
                    assert(s != other.scale);
                    assert(pa == 1);
                    other.mantissa < 0
                },
                Some(y) => x >= y,
            },
        }
    }
}

/// Multiplying by a positive factor keeps the order.
proof fn lemma_scaled_order(x: int, y: int, p: int)
    requires
        p >= 1,
    ensures
        (x >= y) == (x * p >= y * p),
{
    if x >= y {
        assert((x - y) * p >= 0) by (nonlinear_arith)
            requires
                x - y >= 0,
                p >= 1,
        ;
        assert((x - y) * p == x * p - y * p) by (nonlinear_arith);
    } else {
        assert((y - x) * p > 0) by (nonlinear_arith)
            requires
                y - x > 0,
                p >= 1,
        ;
        assert((y - x) * p == y * p - x * p) by (nonlinear_arith);
    }
}

/// The value of an amount is its aligned mantissa at any larger scale, times the
/// remaining power of ten.
pub proof fn lemma_value_aligned(a: Amount, s: u32)
    requires
        a.scale <= s <= MAX_SCALE,
    ensures
        a.value() == aligned(a, s) * pow10((MAX_SCALE - s) as nat),
{
    let k = (s - a.scale) as nat;
    let j = (MAX_SCALE - s) as nat;
    lemma_pow10_add(k, j);
    assert((MAX_SCALE - a.scale) as nat == k + j);
    assert(a.mantissa * (pow10(k) * pow10(j)) == (a.mantissa * pow10(k)) * pow10(j))
        by (nonlinear_arith);
}

/// A sum that fits has, as its value, the sum of the values.
pub proof fn lemma_sum_value(a: Amount, b: Amount)
    requires
        a.wf(),
        b.wf(),
        sum_spec(a, b) is Some,
    ensures
        sum_spec(a, b)->0.wf(),
        sum_spec(a, b)->0.value() == a.value() + b.value(),
{
    let s = max_scale(a, b);
    lemma_value_aligned(a, s);
    lemma_value_aligned(b, s);
    let p = pow10((MAX_SCALE - s) as nat);
    assert((aligned(a, s) + aligned(b, s)) * p == aligned(a, s) * p + aligned(b, s) * p)
        by (nonlinear_arith);
}

/// Negation keeps an amount representable and negates its value.
pub proof fn lemma_neg_value(a: Amount)
    requires
        a.wf(),
    ensures
        a.neg_spec().wf(),
        a.neg_spec().value() == -a.value(),
{
    let p = pow10((MAX_SCALE - a.scale) as nat);
    assert((-a.mantissa) * p == -(a.mantissa * p)) by (nonlinear_arith);
}

/// The sign of the value is the sign of the mantissa.
pub proof fn lemma_sign_of_value(a: Amount)
    requires
        a.wf(),
    ensures
        (a.value() == 0) == (a.mantissa == 0),
        (a.value() > 0) == (a.mantissa > 0),
        (a.value() < 0) == (a.mantissa < 0),
{
    let p = pow10((MAX_SCALE - a.scale) as nat);
    lemma_pow10_positive((MAX_SCALE - a.scale) as nat);
    lemma_scaled_order(a.mantissa as int, 0, p);
    lemma_scaled_order(0, a.mantissa as int, p);
    assert(0 * p == 0) by (nonlinear_arith);
}


/// Rounding half away from zero to `dp` fractional digits; an amount with no more than
/// `dp` fractional digits is kept as it is.
pub open spec fn round_spec(a: Amount, dp: u32) -> Amount {
    if a.scale <= dp {
        a
    } else {
        let d = pow10((a.scale - dp) as nat);
        let mag: int = if a.mantissa < 0 {
            -a.mantissa
        } else {
            a.mantissa as int
        };
        let q = if 2 * (mag % d) >= d {
            mag / d + 1
        } else {
            mag / d
        };
        Amount {
            mantissa: (if a.mantissa < 0 {
                -q
            } else {
                q
            }) as i128,
            scale: dp,
        }
    }
}

/// Relies on `rust_decimal::Decimal::round_dp_with_strategy` with
/// `RoundingStrategy::MidpointAwayFromZero`: an amount with at most `dp` fractional digits
/// comes back unchanged; otherwise the magnitude is divided by `10^(scale - dp)`, raised by
/// one where the remainder is at least half the divisor, and given scale `dp`.
#[verifier::external_body]
fn round_half_away(a: Amount, dp: u32) -> (r: Amount)
    requires
        a.wf(),
    ensures
        r == round_spec(a, dp),
{
    let d = rust_decimal::Decimal::from_i128_with_scale(a.mantissa, a.scale);
    let d = d.round_dp_with_strategy(dp, rust_decimal::RoundingStrategy::MidpointAwayFromZero);
    Amount { mantissa: d.mantissa(), scale: d.scale() }
}

impl Amount {
    /// The amount rounded half away from zero to `dp` fractional digits.
    pub fn round_dp(&self, dp: u32) -> (r: Amount)
        requires
            self.wf(),
        ensures
            r == round_spec(*self, dp),
    {
        round_half_away(*self, dp)
    }
}

/// What `rust_decimal` reads from a text: the mantissa and scale of the decimal, or `None`
/// where it refuses the text.
pub uninterp spec fn decimal_from_str(s: Seq<char>) -> Option<(i128, u32)>;

/// Relies on `rust_decimal::Decimal`'s `FromStr`: the decimal it reads depends on the
/// text alone, and is handed back as its mantissa and scale.
#[verifier::external_body]
pub(crate) fn read_decimal(s: &str) -> (r: Option<(i128, u32)>)
    ensures
        r == decimal_from_str(s@),
{
    match <rust_decimal::Decimal as std::str::FromStr>::from_str(s) {
        Ok(d) => Some((d.mantissa(), d.scale())),
        Err(_) => None,
    }
}

/// The amount of a mantissa and scale, where it is representable and above zero.
pub open spec fn positive_amount(parsed: Option<(i128, u32)>) -> Option<Amount> {
    match parsed {
        Some((m, s)) => {
            let a = Amount { mantissa: m, scale: s };
            if a.wf() && a.value() > 0 {
                Some(a)
            } else {
                None
            }
        },
        None => None,
    }
}

/// The condition raised where an amount is zero or negative.
#[derive(Clone, Copy, Debug, PartialEq, Eq, Structural)]
pub struct InvalidAmount;

/// An amount above zero. Only `try_new` makes one, so deposits and withdrawals never
/// need to check the sign again.
#[derive(Clone, Copy, Debug, PartialEq, Eq)]
pub struct PositiveDecimal(Amount);

impl View for PositiveDecimal {
    type V = Amount;

    closed spec fn view(&self) -> Amount {
        self.0
    }
}

impl PositiveDecimal {
    #[verifier::type_invariant]
    spec fn valid(self) -> bool {
        self.0.wf() && self.0.value() > 0
    }

    /// A positive amount from `a`, or `InvalidAmount` where `a` is zero or negative.
    pub fn try_new(a: Amount) -> (r: Result<PositiveDecimal, InvalidAmount>)
        requires
            a.wf(),
        ensures
            r is Ok <==> a.value() > 0,
            r matches Ok(p) ==> p@ == a,
    {
        if a.is_positive() {
            Ok(PositiveDecimal(a))
        } else {
            Err(InvalidAmount)
        }
    }

    /// The positive amount from a mantissa and scale, if they are representable and the
    /// number is above zero.
    pub fn from_parts(mantissa: i128, scale: u32) -> (r: Result<PositiveDecimal, InvalidAmount>)
        ensures
            r is Ok <==> (Amount { mantissa, scale }).wf() && (Amount { mantissa, scale }).value()
                > 0,
            r matches Ok(p) ==> p@ == (Amount { mantissa, scale }),
    {
        match Amount::new(mantissa, scale) {
            Some(a) => PositiveDecimal::try_new(a),
            None => Err(InvalidAmount),
        }
    }

    /// The positive amount that `rust_decimal` reads from a text, or `InvalidAmount` where
    /// it reads none, or one that is zero or negative.
    pub fn parse(s: &str) -> (r: Result<PositiveDecimal, InvalidAmount>)
        ensures
            r is Ok <==> positive_amount(decimal_from_str(s@)) is Some,
            r matches Ok(p) ==> Some(p@) == positive_amount(decimal_from_str(s@)),
    {
        match read_decimal(s) {
            Some((m, sc)) => PositiveDecimal::from_parts(m, sc),
            None => Err(InvalidAmount),
        }
    }

    /// The amount held.
    pub fn amount(&self) -> (r: Amount)
        ensures
            r == self@,
            r.wf(),
            r.value() > 0,
    {
        proof {
            use_type_invariant(self);
        }
        self.0
    }
}

} // verus!
