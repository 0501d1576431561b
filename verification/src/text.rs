//! Textual display and entry of the amplitude parameter.
//!
//! The host shows the amplitude as a decimal number in [0, 2] with two
//! decimal places, and may hand back a decimal string typed by the user.
//! Rendering and parsing both work on the fixed-point representation:
//! rendering rounds half away from zero to hundredths; parsing accepts an
//! optional sign, an integer part of value at most [`INT_CAP`], and an
//! optional fraction of at most six digits (the fixed-point resolution).

use vstd::prelude::*;

use crate::UNIT;
use vstd::math::abs;
use vstd::string::StringExecFns;

verus! {

/// Largest integer part a decimal literal may carry; larger values are
/// rejected (they are far outside every parameter range anyway).
pub const INT_CAP: i64 = 9999;

/// The decimal digit characters.
pub open spec fn is_digit(c: char) -> bool {
    48 <= c as u32 <= 57
}

/// Numeric value of a digit character.
pub open spec fn digit_val(c: char) -> int {
    c as u32 - 48
}

/// The character for a digit value.
pub open spec fn digit_char(d: int) -> char {
    if d == 0 {
        '0'
    } else if d == 1 {
        '1'
    } else if d == 2 {
        '2'
    } else if d == 3 {
        '3'
    } else if d == 4 {
        '4'
    } else if d == 5 {
        '5'
    } else if d == 6 {
        '6'
    } else if d == 7 {
        '7'
    } else if d == 8 {
        '8'
    } else {
        '9'
    }
}

pub open spec fn all_digits(s: Seq<char>) -> bool {
    forall|i: int| 0 <= i < s.len() ==> is_digit(#[trigger] s[i])
}

pub open spec fn pow10(k: nat) -> int
    decreases k,
{
    if k == 0 {
        1
    } else {
        10 * pow10((k - 1) as nat)
    }
}

/// Value of a string of digit characters, most significant first.
pub open spec fn digits_value(s: Seq<char>) -> int
    decreases s.len(),
{
    if s.len() == 0 {
        0
    } else {
        digits_value(s.drop_last()) * 10 + digit_val(s.last())
    }
}

/// A digit string's value is nonnegative and below ten to its length.
pub proof fn lemma_digits_range(s: Seq<char>)
    requires
        all_digits(s),
    ensures
        0 <= digits_value(s) < pow10(s.len()),
    decreases s.len(),
{
    if s.len() > 0 {
        assert(is_digit(s[s.len() - 1]));
        assert(all_digits(s.drop_last()));
        lemma_digits_range(s.drop_last());
    }
}

/// Extending a digit string never decreases its value.
pub proof fn lemma_digits_prefix_le(s: Seq<char>, k: int)
    requires
        all_digits(s),
        0 <= k <= s.len(),
    ensures
        digits_value(s.take(k)) <= digits_value(s),
    decreases s.len() - k,
{
    if k == s.len() {
        assert(s.take(k) =~= s);
    } else {
        assert(s.take(k + 1).drop_last() =~= s.take(k));
        assert(all_digits(s.take(k)));
        lemma_digits_range(s.take(k));
        assert(is_digit(s[k]));
        lemma_digits_prefix_le(s, k + 1);
    }
}

/// Whether a decimal literal is negative (carries a leading minus sign).
pub open spec fn is_negative(s: Seq<char>) -> bool {
    s.len() > 0 && s.first() == '-'
}

/// The literal with any leading sign removed.
pub open spec fn body_of(s: Seq<char>) -> Seq<char> {
    if s.len() > 0 && (s.first() == '-' || s.first() == '+') {
        s.drop_first()
    } else {
        s
    }
}

/// Index of the first decimal point, or the length if there is none.
pub open spec fn first_dot(s: Seq<char>) -> int
    decreases s.len(),
{
    if s.len() == 0 {
        0
    } else if s.first() == '.' {
        0
    } else {
        1 + first_dot(s.drop_first())
    }
}

/// The first dot position never exceeds the length.
pub proof fn lemma_first_dot_le(s: Seq<char>)
    ensures
        0 <= first_dot(s) <= s.len(),
    decreases s.len(),
{
    if s.len() > 0 && s.first() != '.' {
        lemma_first_dot_le(s.drop_first());
    }
}

/// Pins `first_dot` down from a scan: if no dot occurs before `i`, and `i`
/// is the length or holds a dot, then `i` is the first dot position.
pub proof fn lemma_first_dot_at(s: Seq<char>, i: int)
    requires
        0 <= i <= s.len(),
        forall|t: int| 0 <= t < i ==> s[t] != '.',
        i == s.len() || s[i] == '.',
    ensures
        first_dot(s) == i,
    decreases s.len(),
{
    if i == 0 {
        if s.len() > 0 {
            assert(s.first() == '.');
        }
    } else {
        assert(s.first() != '.');
        lemma_first_dot_at(s.drop_first(), i - 1);
    }
}

/// The integer-part digits of a sign-stripped literal.
pub open spec fn int_part(b: Seq<char>) -> Seq<char> {
    b.take(first_dot(b))
}

/// The fraction digits of a sign-stripped literal (empty without a dot).
pub open spec fn frac_part(b: Seq<char>) -> Seq<char> {
    if first_dot(b) == b.len() {
        Seq::empty()
    } else {
        b.skip(first_dot(b) + 1)
    }
}

/// A well-formed sign-stripped decimal literal: digits around at most one
/// decimal point, at least one digit overall, and at most six fraction
/// digits (the fixed-point resolution).
pub open spec fn valid_body(b: Seq<char>) -> bool {
    &&& all_digits(int_part(b))
    &&& all_digits(frac_part(b))
    &&& int_part(b).len() + frac_part(b).len() > 0
    &&& frac_part(b).len() <= 6
}

/// Value of a valid sign-stripped literal, in fixed-point units.
pub open spec fn body_value(b: Seq<char>) -> int {
    digits_value(int_part(b)) * UNIT + digits_value(frac_part(b)) * pow10(
        (6 - frac_part(b).len()) as nat,
    )
}

/// Whether a decimal literal is accepted by [`parse_fixed`].
pub open spec fn parse_ok(s: Seq<char>) -> bool {
    &&& valid_body(body_of(s))
    &&& digits_value(int_part(body_of(s))) <= INT_CAP
}

/// Fixed-point value of an accepted decimal literal.
pub open spec fn decimal_value(s: Seq<char>) -> int {
    if is_negative(s) {
        -body_value(body_of(s))
    } else {
        body_value(body_of(s))
    }
}

/// Parses a decimal literal (optional sign, digits, optional point and up
/// to six fraction digits) into fixed-point units. Returns `None` exactly
/// on malformed input and on integer parts larger than [`INT_CAP`];
/// accepted values are exact — no rounding is involved.
pub fn parse_fixed(s: &str) -> (r: Option<i64>)
    ensures
        match r {
            Some(v) => parse_ok(s@) && v as int == decimal_value(s@),
            None => !parse_ok(s@),
        },
{
    let len: usize = s.unicode_len();
    let mut start: usize = 0;
    let mut neg: bool = false;
    if len > 0 {
        let c0 = s.get_char(0);
        if c0 == '-' {
            neg = true;
            start = 1;
        } else if c0 == '+' {
            start = 1;
        }
    }
    let ghost b = body_of(s@);
    proof {
        assert(b =~= s@.skip(start as int));
        assert(neg == is_negative(s@));
    }
    // Integer part: scan digits until a dot or the end.
    let mut i: usize = start;
    let mut acc_int: i64 = 0;
    loop
        invariant
            start <= i <= len,
            len == s@.len(),
            b == body_of(s@),
            b =~= s@.skip(start as int),
            forall|t: int| 0 <= t < i - start ==> b[t] != '.',
            all_digits(b.take(i - start)),
            0 <= acc_int <= INT_CAP,
            acc_int == digits_value(b.take(i - start)),
        ensures
            start <= i <= len,
            i == len || s@[i as int] == '.',
            first_dot(b) == i - start,
            all_digits(int_part(b)),
            0 <= acc_int <= INT_CAP,
            acc_int == digits_value(int_part(b)),
        decreases len - i,
    {
        if i == len {
            proof {
                lemma_first_dot_at(b, i - start);
                assert(int_part(b) =~= b.take(i - start));
            }
            break ;
        }
        let c = s.get_char(i);
        let cu: u32 = c as u32;
        proof {
            assert(b[i - start] == s@[i as int]);
        }
        if c == '.' {
            proof {
                lemma_first_dot_at(b, i - start);
                assert(int_part(b) =~= b.take(i - start));
            }
            break ;
        }
        if !(cu >= 48 && cu <= 57) {
            proof {
                // The offending character sits inside the integer part, so
                // the literal cannot be well formed.
                if parse_ok(s@) {
                    lemma_first_dot_ge(b, i - start + 1);
                    lemma_first_dot_le(b);
                    assert(int_part(b)[i - start] == b[i - start]);
                    assert(is_digit(int_part(b)[i - start]));
                    assert(false);
                }
            }
            return None;
        }
        let d: i64 = (cu - 48) as i64;
        proof {
            assert(b.take(i - start + 1).drop_last() =~= b.take(i - start));
            assert(b.take(i - start + 1).last() == b[i - start]);
        }
        acc_int = acc_int * 10 + d;
        i = i + 1;
        if acc_int > INT_CAP {
            proof {
                if parse_ok(s@) {
                    lemma_first_dot_ge(b, i - start);
                    lemma_first_dot_le(b);
                    assert(b.take(i - start) =~= int_part(b).take(i - start));
                    lemma_digits_prefix_le(int_part(b), i - start);
                    assert(false);
                }
            }
            return None;
        }
    }
    // Fraction part, if a dot was found.
    let mut acc_frac: i64 = 0;
    let mut frac_count: usize = 0;
    if i < len {
        let mut k: usize = i + 1;
        while k < len
            invariant
                i + 1 <= k <= len,
                len == s@.len(),
                start <= i < len,
                b == body_of(s@),
                b =~= s@.skip(start as int),
                first_dot(b) == i - start,
                frac_count == k - i - 1,
                frac_count <= 6,
                all_digits(b.skip(i - start + 1).take(frac_count as int)),
                0 <= acc_frac < pow10(frac_count as nat),
                acc_frac <= 999_999,
                acc_frac == digits_value(b.skip(i - start + 1).take(frac_count as int)),
            decreases len - k,
        {
            let c = s.get_char(k);
            let cu: u32 = c as u32;
            proof {
                assert(b[k - start] == s@[k as int]);
                assert(b.skip(i - start + 1)[k - i - 1] == b[k - start]);
            }
            if !(cu >= 48 && cu <= 57) {
                proof {
                    if parse_ok(s@) {
                        assert(frac_part(b) =~= b.skip(i - start + 1));
                        assert(frac_part(b)[k - i - 1] == b[k - start]);
                        assert(is_digit(frac_part(b)[k - i - 1]));
                        assert(false);
                    }
                }
                return None;
            }
            if frac_count == 6 {
                proof {
                    if parse_ok(s@) {
                        assert(frac_part(b) =~= b.skip(i - start + 1));
                        assert(frac_part(b).len() == len - i - 1);
                        assert(len - i - 1 >= 7);
                        assert(false);
                    }
                }
                return None;
            }
            let d: i64 = (cu - 48) as i64;
            proof {
                let fp = b.skip(i - start + 1);
                assert(fp.take(frac_count + 1).drop_last() =~= fp.take(frac_count as int));
                assert(fp.take(frac_count + 1).last() == fp[frac_count as int]);
                lemma_digits_range(fp.take(frac_count + 1));
                assert(pow10(0) == 1);
                assert(pow10(1) == 10);
                assert(pow10(2) == 100);
                assert(pow10(3) == 1000);
                assert(pow10(4) == 10000);
                assert(pow10(5) == 100000);
                assert(pow10(6) == 1000000);
                if frac_count == 0 {
                    assert(acc_frac < 1);
                } else if frac_count == 1 {
                    assert(acc_frac < 10);
                } else if frac_count == 2 {
                    assert(acc_frac < 100);
                } else if frac_count == 3 {
                    assert(acc_frac < 1000);
                } else if frac_count == 4 {
                    assert(acc_frac < 10000);
                } else {
                    assert(acc_frac < 100000);
                }
            }
            acc_frac = acc_frac * 10 + d;
            frac_count = frac_count + 1;
            k = k + 1;
        }
        proof {
            assert(frac_part(b) =~= b.skip(i - start + 1));
            assert(b.skip(i - start + 1).take(frac_count as int) =~= frac_part(b));
        }
    } else {
        proof {
            assert(frac_part(b) =~= Seq::<char>::empty());
        }
    }
    // At least one digit must have appeared on either side of the dot.
    if i == start && frac_count == 0 {
        proof {
            assert(int_part(b).len() == 0);
            assert(frac_part(b).len() == 0);
        }
        return None;
    }
    proof {
        assert(valid_body(b));
        assert(parse_ok(s@));
    }
    let scale: i64 = frac_scale(frac_count);
    proof {
        assert(acc_frac * scale <= 1_000_000_000_000 && acc_frac * scale >= 0)
            by (nonlinear_arith)
            requires
                0 <= acc_frac <= 999_999,
                1 <= scale <= 1_000_000,
        ;
    }
    let total: i64 = acc_int * UNIT + acc_frac * scale;
    proof {
        assert(total == body_value(b));
    }
    if neg {
        Some(-total)
    } else {
        Some(total)
    }
}

/// `first_dot` is at least `i` when no dot occurs before `i`.
pub proof fn lemma_first_dot_ge(s: Seq<char>, i: int)
    requires
        0 <= i <= s.len(),
        forall|t: int| 0 <= t < i ==> s[t] != '.',
    ensures
        first_dot(s) >= i,
    decreases i,
{
    if i > 0 {
        assert(s.first() != '.');
        assert forall|t: int| 0 <= t < i - 1 implies s.drop_first()[t] != '.' by {
            assert(s[t + 1] != '.');
        }
        lemma_first_dot_ge(s.drop_first(), i - 1);
        assert(first_dot(s) == 1 + first_dot(s.drop_first()));
    } else {
        lemma_first_dot_le(s);
    }
}

/// The fixed-point weight of a fraction of `count` digits.
fn frac_scale(count: usize) -> (r: i64)
    requires
        count <= 6,
    ensures
        r == pow10((6 - count) as nat),
        1 <= r <= 1_000_000,
{
    proof {
        assert(pow10(0) == 1);
        assert(pow10(1) == 10);
        assert(pow10(2) == 100);
        assert(pow10(3) == 1000);
        assert(pow10(4) == 10000);
        assert(pow10(5) == 100000);
        assert(pow10(6) == 1000000);
    }
    if count == 0 {
        1_000_000
    } else if count == 1 {
        100_000
    } else if count == 2 {
        10_000
    } else if count == 3 {
        1_000
    } else if count == 4 {
        100
    } else if count == 5 {
        10
    } else {
        1
    }
}

/// Decimal digit string of a number, most significant digit first, no
/// leading zeros (a bare `0` for zero).
pub open spec fn dec_digits(n: nat) -> Seq<char>
    decreases n,
{
    if n < 10 {
        seq![digit_char(n as int)]
    } else {
        dec_digits(n / 10).push(digit_char((n % 10) as int))
    }
}

/// A digit character carries its digit value.
pub proof fn lemma_digit_char_val(d: int)
    requires
        0 <= d <= 9,
    ensures
        is_digit(digit_char(d)),
        digit_val(digit_char(d)) == d,
{
}

/// Rendering and parsing agree: the digit string of a number is made of
/// digits and re-reads to the same number.
pub proof fn lemma_dec_digits_value(n: nat)
    ensures
        all_digits(dec_digits(n)),
        digits_value(dec_digits(n)) == n,
    decreases n,
{
    if n < 10 {
        lemma_digit_char_val(n as int);
        assert(dec_digits(n).drop_last() =~= Seq::<char>::empty());
        assert(dec_digits(n).last() == digit_char(n as int));
        assert(digits_value(Seq::<char>::empty()) == 0);
        assert(digits_value(dec_digits(n)) == digits_value(dec_digits(n).drop_last()) * 10
            + digit_val(dec_digits(n).last()));
    } else {
        lemma_dec_digits_value(n / 10);
        lemma_digit_char_val((n % 10) as int);
        vstd::arithmetic::div_mod::lemma_fundamental_div_mod(n as int, 10);
        assert(dec_digits(n).drop_last() =~= dec_digits(n / 10));
        assert(dec_digits(n).last() == digit_char((n % 10) as int));
        assert forall|i: int| 0 <= i < dec_digits(n).len() implies is_digit(
            #[trigger] dec_digits(n)[i],
        ) by {
            if i < dec_digits(n).len() - 1 {
                assert(dec_digits(n)[i] == dec_digits(n / 10)[i]);
            }
        }
    }
}

/// Hundredths rounded half away from zero: the displayed precision of the
/// amplitude readout.
pub open spec fn rounded_hundredths(v: int) -> int {
    if v >= 0 {
        (v + 5000) / 10000
    } else {
        -((-v + 5000) / 10000)
    }
}

/// The two-decimal text of a value given in hundredths: optional sign,
/// integer digits, a point, and exactly two fraction digits.
pub open spec fn hundredths_text(h: int) -> Seq<char> {
    let a = abs(h) as int;
    let sign: Seq<char> = if h < 0 {
        seq!['-']
    } else {
        Seq::empty()
    };
    sign + dec_digits((a / 100) as nat) + seq!['.'] + seq![
        digit_char((a / 10) % 10),
        digit_char(a % 10),
    ]
}

/// The string for one digit value.
pub fn digit_str(d: u64) -> (r: &'static str)
    requires
        d < 10,
    ensures
        r@ == seq![digit_char(d as int)],
{
    proof {
        reveal_strlit("0");
        reveal_strlit("1");
        reveal_strlit("2");
        reveal_strlit("3");
        reveal_strlit("4");
        reveal_strlit("5");
        reveal_strlit("6");
        reveal_strlit("7");
        reveal_strlit("8");
        reveal_strlit("9");
    }
    if d == 0 {
        "0"
    } else if d == 1 {
        "1"
    } else if d == 2 {
        "2"
    } else if d == 3 {
        "3"
    } else if d == 4 {
        "4"
    } else if d == 5 {
        "5"
    } else if d == 6 {
        "6"
    } else if d == 7 {
        "7"
    } else if d == 8 {
        "8"
    } else {
        "9"
    }
}

/// Renders a number as decimal digits, most significant first.
pub fn uint_string(n: u64) -> (r: String)
    ensures
        r@ == dec_digits(n as nat),
    decreases n,
{
    if n < 10 {
        digit_str(n).to_owned()
    } else {
        let mut r = uint_string(n / 10);
        r.append(digit_str(n % 10));
        r
    }
}

/// Renders a value given in hundredths with two decimal places and an
/// optional leading minus sign.
pub fn hundredths_string(h: i64) -> (r: String)
    requires
        -1_000_000_000 <= h <= 1_000_000_000,
    ensures
        r@ == hundredths_text(h as int),
{
    proof {
        reveal_strlit("-");
        reveal_strlit(".");
    }
    let a: i64 = if h >= 0 {
        h
    } else {
        -h
    };
    let mut r = String::new();
    if h < 0 {
        r.append("-");
    }
    let whole = uint_string((a / 100) as u64);
    r.append(whole.as_str());
    r.append(".");
    r.append(digit_str(((a / 10) % 10) as u64));
    r.append(digit_str((a % 10) as u64));
    proof {
        assert(r@ =~= hundredths_text(h as int));
    }
    r
}

} // verus!
