//! Decimal digits in text: reading unsigned integers and writing rounded amounts.

use crate::decimal::{pow10, pow10_exec, round_spec, Amount};
use vstd::prelude::*;

verus! {

/// The character of a decimal digit.
pub open spec fn digit_char(d: nat) -> char {
    if d == 0 {
        '0'
    } else if d == 1 {
        '1'
    } else if d == 2 {
        '2'
    } else if d == 3 {
        '3'
    } else if d == 4 {
        '4'
    } else if d == 5 {
        '5'
    } else if d == 6 {
        '6'
    } else if d == 7 {
        '7'
    } else if d == 8 {
        '8'
    } else {
        '9'
    }
}

pub open spec fn is_digit(c: char) -> bool {
    '0' <= c <= '9'
}

/// The value of a digit character.
pub open spec fn digit_value(c: char) -> nat {
    (c as u32 - '0' as u32) as nat
}

/// The decimal text of `n`, without leading zeros.
pub open spec fn digits_text(n: nat) -> Seq<char>
    decreases n,
{
    if n < 10 {
        seq![digit_char(n)]
    } else {
        digits_text(n / 10).push(digit_char(n % 10))
    }
}

/// The `w` digits of `f`, zero-padded on the left.
pub open spec fn padded_text(f: nat, w: nat) -> Seq<char>
    decreases w,
{
    if w == 0 {
        seq![]
    } else {
        padded_text(f / 10, (w - 1) as nat).push(digit_char(f % 10))
    }
}

/// The `w` digits of the fraction `f / 10^w`, without trailing zeros.
pub open spec fn fraction_text(f: nat, w: nat) -> Seq<char>
    decreases w,
{
    if w > 0 && f % 10 == 0 {
        fraction_text(f / 10, (w - 1) as nat)
    } else {
        padded_text(f, w)
    }
}

/// The text of a number given in units of `10^-4`: a minus sign for a negative number,
/// the integer part, and the fraction without trailing zeros, left out where it is zero.
pub open spec fn units4_text(u: int) -> Seq<char> {
    let mag: nat = (if u < 0 {
        -u
    } else {
        u
    }) as nat;
    let sign: Seq<char> = if u < 0 {
        seq!['-']
    } else {
        seq![]
    };
    let frac: Seq<char> = if mag % 10000 == 0 {
        seq![]
    } else {
        seq!['.'] + fraction_text(mag % 10000, 4)
    };
    sign + digits_text(mag / 10000) + frac
}

/// An amount with at most four fractional digits, in units of `10^-4`.
pub open spec fn units4(a: Amount) -> int {
    a.mantissa * pow10((4 - a.scale) as nat)
}

/// The output text of an amount: rounded half away from zero to four fractional
/// digits, with trailing zeros of the fraction dropped (`100.0000` reads `100`).
pub open spec fn amount_text(a: Amount) -> Seq<char> {
    units4_text(units4(round_spec(a, 4)))
}

fn digit_str(d: u128) -> (r: &'static str)
    requires
        d < 10,
    ensures
        r@ == seq![digit_char(d as nat)],
{
    proof {
        reveal_strlit("0");
        reveal_strlit("1");
        reveal_strlit("2");
        reveal_strlit("3");
        reveal_strlit("4");
        reveal_strlit("5");
        reveal_strlit("6");
        reveal_strlit("7");
        reveal_strlit("8");
        reveal_strlit("9");
    }
    if d == 0 {
        "0"
    } else if d == 1 {
        "1"
    } else if d == 2 {
        "2"
    } else if d == 3 {
        "3"
    } else if d == 4 {
        "4"
    } else if d == 5 {
        "5"
    } else if d == 6 {
        "6"
    } else if d == 7 {
        "7"
    } else if d == 8 {
        "8"
    } else {
        "9"
    }
}

/// Appends the decimal digits of `n`.
pub fn push_digits(out: &mut String, n: u128)
    ensures
        final(out)@ == old(out)@ + digits_text(n as nat),
    decreases n,
{
    if n >= 10 {
        push_digits(out, n / 10);
    }
    out.append(digit_str(n % 10));
}

fn push_padded(out: &mut String, f: u128, w: u32)
    ensures
        final(out)@ == old(out)@ + padded_text(f as nat, w as nat),
    decreases w,
{
    if w > 0 {
        push_padded(out, f / 10, w - 1);
        out.append(digit_str(f % 10));
    }
}

fn push_fraction(out: &mut String, f: u128, w: u32)
    ensures
        final(out)@ == old(out)@ + fraction_text(f as nat, w as nat),
    decreases w,
{
    if w > 0 && f % 10 == 0 {
        push_fraction(out, f / 10, w - 1);
    } else {
        push_padded(out, f, w);
    }
}

/// The output text of an amount: rounded half away from zero to four fractional digits,
/// then written without trailing zeros in the fraction.
pub fn format_amount(a: &Amount) -> (r: String)
    requires
        a.wf(),
    ensures
        r@ == amount_text(*a),
{
    let rounded = a.round_dp(4);
    proof {
        if a.scale > 4 {
            lemma_rounded_bound(*a);
        }
    }
    let p = pow10_exec(4 - rounded.scale);
    assert(p <= 10000) by {
        crate::decimal::lemma_pow10_mono((4 - rounded.scale) as nat, 4);
        reveal_with_fuel(pow10, 5);
    }
    assert(-79228162514264337593543950335 * 10000 <= rounded.mantissa * p <= 79228162514264337593543950335 * 10000) by (nonlinear_arith)
        requires
            -79228162514264337593543950335 <= rounded.mantissa <= 79228162514264337593543950335,
            1 <= p <= 10000,
    ;
    let u: i128 = rounded.mantissa * p;
    let mag: u128 = if u < 0 {
        (-u) as u128
    } else {
        u as u128
    };
    let mut out = String::new();
    if u < 0 {
        proof {
            reveal_strlit("-");
        }
        out.append("-");
    }
    push_digits(&mut out, mag / 10000);
    if mag % 10000 != 0 {
        proof {
            reveal_strlit(".");
        }
        out.append(".");
        push_fraction(&mut out, mag % 10000, 4);
    }
    assert(out@ =~= units4_text(u as int));
    out
}

proof fn lemma_rounded_bound(a: Amount)
    requires
        a.wf(),
        a.scale > 4,
    ensures
        round_spec(a, 4).wf(),
{
    let d = pow10((a.scale - 4) as nat);
    crate::decimal::lemma_pow10_positive((a.scale - 4) as nat);
    crate::decimal::lemma_pow10_mono(1, (a.scale - 4) as nat);
    assert(pow10(1) == 10) by {
        reveal_with_fuel(pow10, 2);
    }
    let mag: int = if a.mantissa < 0 {
        -a.mantissa
    } else {
        a.mantissa as int
    };
    assert(mag / d <= mag / 10) by {
        vstd::arithmetic::div_mod::lemma_div_is_ordered_by_denominator(mag, 10, d);
    }
    assert(mag / 10 * 10 <= mag) by {
        vstd::arithmetic::div_mod::lemma_fundamental_div_mod(mag, 10);
    }
}


/// The value of a text of decimal digits.
pub open spec fn digits_value(s: Seq<char>) -> nat
    decreases s.len(),
{
    if s.len() == 0 {
        0
    } else {
        digits_value(s.drop_last()) * 10 + digit_value(s.last())
    }
}

pub open spec fn all_digits(s: Seq<char>) -> bool {
    forall|i: int| 0 <= i < s.len() ==> is_digit(#[trigger] s[i])
}

/// An unsigned integer as Rust's `str::parse` reads it: an optional `+`, then one or
/// more decimal digits, with a value of at most `max`.
pub open spec fn uint_value(s: Seq<char>, max: nat) -> Option<nat> {
    let body = if s.len() > 0 && s[0] == '+' {
        s.drop_first()
    } else {
        s
    };
    if body.len() > 0 && all_digits(body) && digits_value(body) <= max {
        Some(digits_value(body))
    } else {
        None
    }
}

proof fn lemma_digits_prefix_le(t: Seq<char>, k: int)
    requires
        0 <= k <= t.len(),
    ensures
        digits_value(t.subrange(0, k)) <= digits_value(t),
    decreases t.len(),
{
    if k == t.len() {
        assert(t.subrange(0, k) =~= t);
    } else {
        lemma_digits_prefix_le(t.drop_last(), k);
        assert(t.drop_last().subrange(0, k) =~= t.subrange(0, k));
    }
}

/// Reads an unsigned integer of at most `max`: an optional `+`, then decimal digits.
pub fn parse_uint(s: &str, max: u64) -> (r: Option<u64>)
    ensures
        match uint_value(s@, max as nat) {
            Some(v) => r == Some(v as u64),
            None => r is None,
        },
{
    let n = s.unicode_len();
    let mut i: usize = 0;
    if n > 0 && s.get_char(0) == '+' {
        i = 1;
    }
    let start = i;
    let ghost body = if s@.len() > 0 && s@[0] == '+' {
        s@.drop_first()
    } else {
        s@
    };
    assert(body =~= s@.subrange(start as int, n as int));
    if start >= n {
        return None;
    }
    let mut acc: u64 = 0;
    assert(s@.subrange(start as int, start as int) =~= Seq::<char>::empty());
    while i < n
        invariant
            start <= i <= n,
            n == s@.len(),
            body =~= s@.subrange(start as int, n as int),
            body == (if s@.len() > 0 && s@[0] == '+' {
                s@.drop_first()
            } else {
                s@
            }),
            all_digits(s@.subrange(start as int, i as int)),
            acc as nat == digits_value(s@.subrange(start as int, i as int)),
            acc <= max,
        decreases n - i,
    {
        let c = s.get_char(i);
        let ghost pre = s@.subrange(start as int, (i + 1) as int);
        assert(pre.drop_last() =~= s@.subrange(start as int, i as int));
        assert(pre =~= body.subrange(0, (i + 1 - start) as int));
        assert(c == s@[i as int]);
        assert(body[(i - start) as int] == c);
        assert(pre.last() == c);
        if c < '0' || c > '9' {
            assert(!is_digit(body[(i - start) as int]));
            assert(!all_digits(body));
            assert(uint_value(s@, max as nat) is None);
            return None;
        }
        let d: u64 = (c as u32 - '0' as u32) as u64;
        let next: u128 = acc as u128 * 10 + d as u128;
        if next > max as u128 {
            proof {
                assert(digit_value(c) == d);
                assert(digits_value(pre) == digits_value(pre.drop_last()) * 10 + digit_value(c));
                assert(digits_value(pre) == next);
                if all_digits(body) {
                    lemma_digits_prefix_le(body, (i + 1 - start) as int);
                }
                assert(uint_value(s@, max as nat) is None);
            }
            return None;
        }
        acc = next as u64;
        i = i + 1;
    }
    assert(s@.subrange(start as int, i as int) =~= body);
    Some(acc)
}

/// Whether two texts are equal.
pub fn text_eq(a: &str, b: &str) -> (r: bool)
    ensures
        r == (a@ == b@),
{
    let n = a.unicode_len();
    if n != b.unicode_len() {
        return false;
    }
    let mut i: usize = 0;
    while i < n
        invariant
            i <= n,
            n == a@.len(),
            n == b@.len(),
            a@.subrange(0, i as int) =~= b@.subrange(0, i as int),
        decreases n - i,
    {
        if a.get_char(i) != b.get_char(i) {
            return false;
        }
        assert(a@.subrange(0, i + 1) =~= a@.subrange(0, i as int).push(a@[i as int]));
        assert(b@.subrange(0, i + 1) =~= b@.subrange(0, i as int).push(b@[i as int]));
        i = i + 1;
    }
    assert(a@ =~= a@.subrange(0, n as int));
    assert(b@ =~= b@.subrange(0, n as int));
    true
}

} // verus!
