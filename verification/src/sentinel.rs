//! Sentinel token ids, as the environment gives them.

use vstd::prelude::*;

verus! {

/// `c` is a decimal digit.
pub open spec fn is_digit(c: char) -> bool {
    '0' as int <= c as int <= '9' as int
}

/// The number that a sequence of decimal digits writes.
pub open spec fn decimal_value(digits: Seq<char>) -> int
    decreases digits.len(),
{
    if digits.len() == 0 {
        0
    } else {
        decimal_value(digits.drop_last()) * 10 + (digits.last() as int - '0' as int)
    }
}

/// The digits of a text that may start with a plus sign.
pub open spec fn without_plus_sign(text: Seq<char>) -> Seq<char> {
    if text.len() > 0 && text[0] == '+' {
        text.skip(1)
    } else {
        text
    }
}

/// The token id that a text writes: one or more decimal digits, after a plus sign
/// or not, whose value is a `u32`. No other text writes one.
pub open spec fn written_token(text: Seq<char>) -> Option<u32> {
    let digits = without_plus_sign(text);
    if digits.len() > 0 && (forall|i: int| 0 <= i < digits.len() ==> is_digit(#[trigger] digits[i]))
        && decimal_value(digits) <= u32::MAX {
        Some(decimal_value(digits) as u32)
    } else {
        None
    }
}

/// The token id that an optional text writes.
pub open spec fn optional_token(value: Option<&str>) -> Option<u32> {
    match value {
        Some(text) => written_token(text@),
        None => None,
    }
}

/// Calls `str::parse` of the standard library for a `u32`.
///
/// Claimed of it: it accepts an optional plus sign followed by decimal digits and
/// nothing else, fails on values over `u32::MAX`, and otherwise returns the value.
#[verifier::external_body]
fn parse_u32(text: &str) -> (value: Option<u32>)
    ensures
        value == written_token(text@),
{
    match text.parse::<u32>() {
        Ok(n) => Some(n),
        Err(_) => None,
    }
}

/// The Plus sentinel token id, from the value of the environment variable that
/// names it.
pub fn pic_plus_token(value: Option<&str>) -> (token: Option<u32>)
    ensures
        token == optional_token(value),
        value is None ==> token is None,
        value matches Some(text) ==> token == written_token(text@),
{
    match value {
        Some(text) => parse_u32(text),
        None => None,
    }
}

/// The Cross sentinel token id, from the value of the environment variable that
/// names it.
pub fn pic_cross_token(value: Option<&str>) -> (token: Option<u32>)
    ensures
        token == optional_token(value),
        value is None ==> token is None,
        value matches Some(text) ==> token == written_token(text@),
{
    match value {
        Some(text) => parse_u32(text),
        None => None,
    }
}

/// Without a value there is no token, and with one it is the token that the value writes.
pub proof fn law_token_needs_a_value(text: &str)
    ensures
        optional_token(None) is None,
        optional_token(Some(text)) == written_token(text@),
{
}

/// A single decimal digit writes its value.
pub proof fn law_digit_writes_its_value(c: char)
    requires
        '0' <= c <= '9',
    ensures
        written_token(seq![c]) == Some((c as int - '0' as int) as u32),
{
    let digits = without_plus_sign(seq![c]);
    assert(digits =~= seq![c]);
    assert(digits.drop_last() =~= Seq::<char>::empty());
    assert(decimal_value(digits.drop_last()) == 0);
}

/// One more digit makes ten times the token and the digit's value, or no token where
/// that is too large.
pub proof fn law_digit_appends_to_a_token(text: Seq<char>, c: char, token: u32)
    requires
        written_token(text) == Some(token),
        '0' <= c <= '9',
    ensures
        token * 10 + (c as int - '0' as int) <= u32::MAX ==> written_token(text.push(c)) == Some(
            (token * 10 + (c as int - '0' as int)) as u32,
        ),
        token * 10 + (c as int - '0' as int) > u32::MAX ==> written_token(text.push(c)) is None,
{
    let digits = without_plus_sign(text);
    let longer = without_plus_sign(text.push(c));
    assert(longer =~= digits.push(c));
    assert(longer.drop_last() =~= digits);
    lemma_decimal_value_is_natural(digits);
    assert forall|i: int| 0 <= i < longer.len() implies is_digit(#[trigger] longer[i]) by {
        if i < digits.len() {
            assert(longer[i] == digits[i]);
        }
    }
}

proof fn lemma_decimal_value_is_natural(digits: Seq<char>)
    requires
        forall|i: int| 0 <= i < digits.len() ==> is_digit(#[trigger] digits[i]),
    ensures
        decimal_value(digits) >= 0,
    decreases digits.len(),
{
    if digits.len() > 0 {
        lemma_decimal_value_is_natural(digits.drop_last());
        assert(is_digit(digits[digits.len() - 1]));
    }
}

/// Digits that write no token, their value being too large, write none with more digits
/// after them.
pub proof fn law_too_large_stays_too_large(text: Seq<char>, c: char)
    requires
        text.len() > 0,
        forall|i: int| 0 <= i < text.len() ==> '0' <= #[trigger] text[i] <= '9',
        written_token(text) is None,
        '0' <= c <= '9',
    ensures
        written_token(text.push(c)) is None,
{
    assert(text[0] != '+');
    let digits = without_plus_sign(text);
    assert(digits =~= text);
    assert forall|i: int| 0 <= i < digits.len() implies is_digit(#[trigger] digits[i]) by {
        assert(digits[i] == text[i]);
    }
    assert(decimal_value(text) > u32::MAX);
    let longer = without_plus_sign(text.push(c));
    assert(text.push(c)[0] == text[0]);
    assert(longer =~= text.push(c));
    assert(longer.drop_last() =~= text);
}

/// A plus sign before a text that starts without one changes nothing.
pub proof fn law_plus_sign_changes_nothing(text: Seq<char>)
    requires
        text.len() > 0,
        text[0] != '+',
    ensures
        written_token(seq!['+'] + text) == written_token(text),
{
    assert((seq!['+'] + text).skip(1) =~= text);
}

/// What writes a token is a digit or more, after a plus sign or not, and nothing else.
pub proof fn law_only_digits_write_a_token(text: Seq<char>)
    requires
        written_token(text) is Some,
    ensures
        text.len() > 0,
        '0' <= text.last() <= '9',
        text[0] == '+' || '0' <= text[0] <= '9',
        forall|i: int| 1 <= i < text.len() ==> '0' <= #[trigger] text[i] <= '9',
{
    let digits = without_plus_sign(text);
    if text[0] == '+' {
        assert forall|i: int| 1 <= i < text.len() implies '0' <= #[trigger] text[i] <= '9' by {
            assert(is_digit(digits[i - 1]));
        }
    } else {
        assert forall|i: int| 0 <= i < text.len() implies '0' <= #[trigger] text[i] <= '9' by {
            assert(is_digit(digits[i]));
        }
    }
}

/// The decimal digits of a number, the highest first.
pub open spec fn decimal_digits(n: nat) -> Seq<char>
    decreases n,
{
    if n < 10 {
        seq![('0' as int + n) as char]
    } else {
        decimal_digits(n / 10).push(('0' as int + n % 10) as char)
    }
}

/// Every token id is written by its decimal digits.
pub proof fn law_every_token_is_written(token: u32)
    ensures
        written_token(decimal_digits(token as nat)) == Some(token),
    decreases token,
{
    let n = token as nat;
    let c = ('0' as int + n % 10) as char;
    assert('0' <= c <= '9' && c as int - '0' as int == n % 10);
    if n < 10 {
        law_digit_writes_its_value(c);
    } else {
        law_every_token_is_written((n / 10) as u32);
        law_digit_appends_to_a_token(decimal_digits(n / 10), c, (n / 10) as u32);
    }
}

} // verus!
