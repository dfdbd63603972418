//! The values of INI settings as JSON.

use crate::json;
use crate::json::{float_number, integer_number, Json, JsonView, NumberView};
use crate::text;
use crate::text::chars_of;
use vstd::prelude::*;

verus! {

broadcast use vstd::string::group_string_axioms;

/// A decimal digit.
pub open spec fn is_digit(c: char) -> bool {
    '0' <= c <= '9'
}

/// One or more decimal digits.
pub open spec fn is_digits(s: Seq<char>) -> bool {
    s.len() > 0 && forall|i: int| 0 <= i < s.len() ==> is_digit(#[trigger] s[i])
}

/// The number that decimal digits spell.
pub open spec fn digits_value(s: Seq<char>) -> int
    decreases s.len(),
{
    if s.len() == 0 {
        0
    } else {
        digits_value(s.drop_last()) * 10 + (s.last() as int - '0' as int)
    }
}

/// The integer that a text spells: decimal digits with at most one sign before
/// them.
pub open spec fn integer_text(s: Seq<char>) -> Option<int> {
    if s.len() > 0 && (s[0] == '-' || s[0] == '+') {
        if is_digits(s.drop_first()) {
            Some(
                if s[0] == '-' {
                    -digits_value(s.drop_first())
                } else {
                    digits_value(s.drop_first())
                },
            )
        } else {
            None
        }
    } else if is_digits(s) {
        Some(digits_value(s))
    } else {
        None
    }
}

/// The integer that a text spells, if it fits in an `i64` or a `u64`.
pub open spec fn small_integer(s: Seq<char>) -> Option<int> {
    match integer_text(s) {
        Some(n) => if i64::MIN <= n <= u64::MAX {
            Some(n)
        } else {
            None
        },
        None => None,
    }
}

/// A setting as JSON: an integer stays exact, another finite number becomes a
/// floating-point number, and anything else stays text.
pub open spec fn setting_json(s: Seq<char>) -> JsonView {
    match small_integer(s) {
        Some(n) => JsonView::Number(NumberView::Integer(n)),
        None => match json::float_text(s) {
            Some(t) => JsonView::Number(NumberView::Fraction(t)),
            None => JsonView::Text(s),
        },
    }
}

/// More digits, no smaller number.
proof fn lemma_digits_grow(s: Seq<char>, i: int)
    requires
        0 <= i <= s.len(),
        forall|j: int| 0 <= j < s.len() ==> is_digit(#[trigger] s[j]),
    ensures
        0 <= digits_value(s.take(i)) <= digits_value(s),
    decreases s.len(),
{
    if i == s.len() {
        assert(s.take(i) =~= s);
        if s.len() > 0 {
            lemma_digits_grow(s.drop_last(), s.len() - 1);
            assert(s.drop_last().take(s.len() - 1) =~= s.drop_last());
            assert(is_digit(s.last()));
        }
    } else {
        lemma_digits_grow(s.drop_last(), i);
        assert(s.drop_last().take(i) =~= s.take(i));
        assert(is_digit(s.last()));
    }
}

/// Reads the integer that a text spells, if it fits in an `i64` or a `u64`.
pub fn parse_integer(s: &str) -> (r: Option<i128>)
    ensures
        match r {
            Some(n) => small_integer(s@) == Some(n as int),
            None => small_integer(s@) is None,
        },
{
    let chars = chars_of(s);
    let len = chars.len();
    let signed = len > 0 && (chars[0] == '-' || chars[0] == '+');
    let negative = len > 0 && chars[0] == '-';
    let start: usize = if signed { 1 } else { 0 };
    let ghost digits = s@.skip(start as int);
    proof {
        if signed {
            assert(digits =~= s@.drop_first());
        } else {
            assert(digits =~= s@);
        }
    }
    if start >= len {
        return None;
    }
    let mut value: i128 = 0;
    let mut i: usize = start;
    while i < len
        invariant
            start <= i <= len,
            start <= 1,
            len == s@.len(),
            chars@ == s@,
            digits == s@.skip(start as int),
            forall|j: int| 0 <= j < i - start ==> is_digit(#[trigger] digits[j]),
            value == digits_value(digits.take(i - start)),
            0 <= value <= u64::MAX,
            integer_text(s@) matches Some(n) ==> is_digits(digits) && (n == digits_value(digits)
                || n == -digits_value(digits)),
        decreases len - i,
    {
        let c = chars[i];
        assert(digits[i - start] == c);
        if c < '0' || '9' < c {
            return None;
        }
        value = value * 10 + (c as i128 - '0' as i128);
        i += 1;
        proof {
            let taken = digits.take(i - start);
            assert(taken.drop_last() =~= digits.take(i - start - 1));
            assert(taken.last() == c);
        }
        if value > u64::MAX as i128 {
            proof {
                if integer_text(s@) is Some {
                    lemma_digits_grow(digits, i - start);
                }
            }
            return None;
        }
    }
    assert(digits.take(len - start) =~= digits);
    if negative {
        if value > 0x8000_0000_0000_0000 {
            None
        } else {
            Some(-value)
        }
    } else {
        Some(value)
    }
}

/// A setting that is no small integer as JSON: the number that it spells as a
/// floating-point number, or else its text.
pub fn number_or_text(s: &str, float: Option<serde_json::Number>) -> (r: Json)
    ensures
        r.tree() == match float {
            Some(x) => JsonView::Number(json::number_value(x)),
            None => JsonView::Text(s@),
        },
{
    match float {
        Some(x) => Json::Number(x),
        None => Json::Text(s.to_owned()),
    }
}

/// A setting as JSON.
pub fn setting_value(s: &str) -> (r: Json)
    ensures
        r.tree() == setting_json(s@),
{
    if let Some(n) = parse_integer(s) {
        if let Some(x) = integer_number(n) {
            return Json::Number(x);
        }
    }
    number_or_text(s, float_number(s))
}

/// A number in decimal digits spells that number.
pub proof fn law_decimal_spells_number(n: nat)
    ensures
        is_digits(text::decimal(n)),
        digits_value(text::decimal(n)) == n,
        integer_text(text::decimal(n)) == Some(n as int),
    decreases n,
{
    let d = text::decimal(n);
    let last = text::digit_char((n % 10) as int);
    assert(is_digit(last) && last as int - '0' as int == n % 10);
    if n < 10 {
        assert(d =~= Seq::<char>::empty().push(last));
        assert(d.drop_last() =~= Seq::<char>::empty());
        assert(digits_value(Seq::<char>::empty()) == 0);
    } else {
        law_decimal_spells_number(n / 10);
        assert(d.drop_last() =~= text::decimal(n / 10));
    }
    assert(is_digit(d[0]));
}

// ---------------------------------------------------------------------------
// Laws
// ---------------------------------------------------------------------------

/// One digit more makes a number ten times as large, and adds the digit.
pub proof fn law_one_digit_more(s: Seq<char>, d: int)
    requires
        0 <= d <= 9,
    ensures
        digits_value(Seq::empty()) == 0,
        digits_value(s.push(text::digit_char(d))) == 10 * digits_value(s) + d,
        text::digit_char(0) == '0' && text::digit_char(1) == '1' && text::digit_char(2) == '2'
            && text::digit_char(3) == '3' && text::digit_char(4) == '4' && text::digit_char(5)
            == '5' && text::digit_char(6) == '6' && text::digit_char(7) == '7'
            && text::digit_char(8) == '8' && text::digit_char(9) == '9',
{
    let c = text::digit_char(d);
    assert(s.push(c).drop_last() =~= s);
    assert(c as int - '0' as int == d);
}

/// An integer is a sign, or none, and digits, one or more. It has the value of
/// its digits, or minus that after `-`. Nothing else is an integer.
pub proof fn law_integers_are_sign_and_digits(s: Seq<char>, digits: Seq<char>)
    requires
        digits.len() > 0,
        forall|i: int| 0 <= i < digits.len() ==> '0' <= #[trigger] digits[i] <= '9',
    ensures
        integer_text(digits) == Some(digits_value(digits)),
        integer_text(seq!['+'] + digits) == Some(digits_value(digits)),
        integer_text(seq!['-'] + digits) == Some(-digits_value(digits)),
        integer_text(s) is Some ==> s.len() > 0 && (forall|i: int|
            1 <= i < s.len() ==> '0' <= #[trigger] s[i] <= '9') && ('0' <= s[0] <= '9' || (s.len()
            > 1 && (s[0] == '-' || s[0] == '+'))),
{
    assert((seq!['+'] + digits).drop_first() =~= digits);
    assert((seq!['-'] + digits).drop_first() =~= digits);
    assert('0' <= digits[0] <= '9');
    assert(is_digits(digits)) by {
        assert forall|i: int| 0 <= i < digits.len() implies is_digit(#[trigger] digits[i]) by {
            assert('0' <= digits[i] <= '9');
        }
    }
    if integer_text(s) is Some {
        assert forall|i: int| 1 <= i < s.len() implies '0' <= #[trigger] s[i] <= '9' by {
            if s[0] == '-' || s[0] == '+' {
                assert(s.drop_first()[i - 1] == s[i]);
                assert(is_digit(s.drop_first()[i - 1]));
            } else {
                assert(is_digit(s[i]));
            }
        }
        if s[0] == '-' || s[0] == '+' {
            assert(s.drop_first().len() > 0);
        } else {
            assert(is_digit(s[0]));
        }
    }
}

/// A setting that spells an integer of up to 64 bits, with a sign or without,
/// is that integer. One that does not, but spells a finite floating-point
/// number, is that number. Any other is its text.
pub proof fn law_settings_are_numbers_first(s: Seq<char>)
    ensures
        integer_text(s) matches Some(n) ==> (-0x8000_0000_0000_0000 <= n <= 0xffff_ffff_ffff_ffff
            ==> setting_json(s) == JsonView::Number(NumberView::Integer(n))),
        (integer_text(s) matches Some(n) ==> n < -0x8000_0000_0000_0000 || n
            > 0xffff_ffff_ffff_ffff) ==> setting_json(s) == match json::float_text(s) {
            Some(t) => JsonView::Number(NumberView::Fraction(t)),
            None => JsonView::Text(s),
        },
{
}

/// A number in decimal digits, with `-` before it or without, is a setting of
/// that number.
pub proof fn law_decimal_settings(n: nat)
    ensures
        n <= 0xffff_ffff_ffff_ffff ==> setting_json(text::decimal(n)) == JsonView::Number(
            NumberView::Integer(n as int),
        ),
        n <= 0x8000_0000_0000_0000 ==> setting_json(seq!['-'] + text::decimal(n))
            == JsonView::Number(NumberView::Integer(-n)),
{
    law_decimal_spells_number(n);
    let d = text::decimal(n);
    assert((seq!['-'] + d).drop_first() =~= d);
}

} // verus!
