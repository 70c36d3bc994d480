use vstd::prelude::*;

use crate::error::{outcome_view, ErrorKind, PResult, ParseError};

use nom::bytes::complete::{tag, take_while_m_n};
use nom::character::complete::{char as nom_char, digit1, one_of};

verus! {

#[verifier::external_type_specification]
#[verifier::external_body]
pub struct ExParseIntError(core::num::ParseIntError);

/// An ASCII hexadecimal digit: `0-9`, `a-f` or `A-F`.
pub open spec fn is_hex_char(c: char) -> bool {
    ('0' <= c && c <= '9') || ('a' <= c && c <= 'f') || ('A' <= c && c <= 'F')
}

/// The value of a hexadecimal digit.
pub open spec fn hex_char_value(c: char) -> nat {
    if '0' <= c && c <= '9' {
        (c as nat - '0' as nat) as nat
    } else if 'a' <= c && c <= 'f' {
        (c as nat - 'a' as nat + 10) as nat
    } else {
        (c as nat - 'A' as nat + 10) as nat
    }
}

/// Every character of `s` is a hexadecimal digit.
pub open spec fn all_hex(s: Seq<char>) -> bool {
    forall|i: int| 0 <= i < s.len() ==> is_hex_char(#[trigger] s[i])
}

/// The number that a string of hexadecimal digits spells, most significant first.
pub open spec fn hex_value(s: Seq<char>) -> nat
    decreases s.len(),
{
    if s.len() == 0 {
        0
    } else {
        hex_value(s.drop_last()) * 16 + hex_char_value(s.last())
    }
}

/// An ASCII decimal digit.
pub open spec fn is_digit_char(c: char) -> bool {
    '0' <= c && c <= '9'
}

/// The value of a decimal digit.
pub open spec fn digit_char_value(c: char) -> nat {
    (c as nat - '0' as nat) as nat
}

/// The length of the longest prefix of `s` made of decimal digits.
pub open spec fn digit_run_len(s: Seq<char>) -> nat
    decreases s.len(),
{
    if s.len() > 0 && is_digit_char(s[0]) {
        1 + digit_run_len(s.drop_first())
    } else {
        0
    }
}

/// The number that a string of decimal digits spells, most significant first.
pub open spec fn decimal_value(s: Seq<char>) -> nat
    decreases s.len(),
{
    if s.len() == 0 {
        0
    } else {
        decimal_value(s.drop_last()) * 10 + digit_char_value(s.last())
    }
}

/// Relies on `u8::from_str_radix` (std): with radix 16, a non-empty string of
/// hexadecimal digits is read as that number when it fits in a byte, and an
/// empty string is refused.
pub assume_specification[ u8::from_str_radix ](src: &str, radix: u32) -> (r: Result<
    u8,
    core::num::ParseIntError,
>)
    requires
        radix == 16,
    ensures
        src@.len() == 0 ==> r is Err,
        src@.len() > 0 && all_hex(src@) ==> (r is Ok <==> hex_value(src@) <= 255),
        src@.len() > 0 && all_hex(src@) && r is Ok ==> r->Ok_0 == hex_value(src@),
;

/// Tells whether `c` is a hexadecimal digit, in either case.
pub fn is_hex_digit(c: char) -> (r: bool)
    ensures
        r == is_hex_char(c),
{
    ('0' <= c && c <= '9') || ('a' <= c && c <= 'f') || ('A' <= c && c <= 'F')
}

/// Reads a string of hexadecimal digits as a byte.
///
/// A non-empty string of digits gives its value when that fits in a byte and
/// an error when it does not; an empty string is an error.
pub fn from_hex(input: &str) -> (r: Result<u8, core::num::ParseIntError>)
    ensures
        input@.len() == 0 ==> r is Err,
        input@.len() > 0 && all_hex(input@) ==> (r is Ok <==> hex_value(input@) <= 255),
        input@.len() > 0 && all_hex(input@) && r is Ok ==> r->Ok_0 == hex_value(input@),
{
    u8::from_str_radix(input, 16)
}

/// Every character of `s` is a decimal digit.
pub open spec fn all_digits(s: Seq<char>) -> bool {
    forall|i: int| 0 <= i < s.len() ==> is_digit_char(#[trigger] s[i])
}

/// The longest run of digits at the start of `s` is made of digits, and is
/// followed by the end of `s` or by a character that is not a digit.
pub proof fn lemma_digit_run(s: Seq<char>)
    ensures
        digit_run_len(s) <= s.len(),
        all_digits(s.take(digit_run_len(s) as int)),
        digit_run_len(s) < s.len() ==> !is_digit_char(s[digit_run_len(s) as int]),
    decreases s.len(),
{
    if s.len() > 0 && is_digit_char(s[0]) {
        let t = s.drop_first();
        lemma_digit_run(t);
        assert forall|i: int| 0 <= i < digit_run_len(s) implies is_digit_char(
            #[trigger] s.take(digit_run_len(s) as int)[i],
        ) by {
            if i > 0 {
                assert(s.take(digit_run_len(s) as int)[i] == t.take(digit_run_len(t) as int)[i
                    - 1]);
            }
        }
    }
}

/// A number spelt by a prefix of a string of digits is at most the number that
/// the whole string spells.
pub proof fn lemma_decimal_prefix_le(s: Seq<char>, k: int)
    requires
        0 <= k <= s.len(),
    ensures
        decimal_value(s.take(k)) <= decimal_value(s),
    decreases s.len(),
{
    if k < s.len() {
        let t = s.drop_last();
        lemma_decimal_prefix_le(t, k);
        assert(t.take(k) =~= s.take(k));
    } else {
        assert(s.take(k) =~= s);
    }
}

/// Relies on nom's `bytes::complete::tag` on `&str`: it matches when the input
/// starts with `t` and then splits the input right after it.
#[verifier::external_body]
fn match_tag<'a>(t: &str, input: &'a str) -> (r: Option<(&'a str, &'a str)>)
    ensures
        r is Some <==> (t@.len() <= input@.len() && input@.take(t@.len() as int) == t@),
        r matches Some((rest, matched)) ==> rest@ == input@.skip(t@.len() as int) && matched@
            == t@,
{
    match tag::<&str, &'a str, nom::error::Error<&'a str>>(t)(input) {
        Ok(pair) => Some(pair),
        Err(_) => None,
    }
}

/// Relies on nom's `bytes::complete::take_while_m_n(2, 2, is_hex_digit)` on
/// `&str`: it takes exactly the first two characters when both are hexadecimal
/// digits, and fails otherwise.
#[verifier::external_body]
fn take_hex_pair<'a>(input: &'a str) -> (r: Option<(&'a str, &'a str)>)
    ensures
        r is Some <==> (input@.len() >= 2 && is_hex_char(input@[0]) && is_hex_char(input@[1])),
        r matches Some((rest, matched)) ==> rest@ == input@.skip(2) && matched@ == input@.take(
            2,
        ),
{
    match take_while_m_n::<_, &'a str, nom::error::Error<&'a str>>(2, 2, is_hex_digit)(input) {
        Ok(pair) => Some(pair),
        Err(_) => None,
    }
}

/// Relies on nom's `character::complete::digit1` on `&str`: it takes the
/// longest non-empty run of ASCII decimal digits at the start of the input.
#[verifier::external_body]
fn take_digits<'a>(input: &'a str) -> (r: Option<(&'a str, &'a str)>)
    ensures
        r is Some <==> digit_run_len(input@) > 0,
        r matches Some((rest, matched)) ==> rest@ == input@.skip(digit_run_len(input@) as int)
            && matched@ == input@.take(digit_run_len(input@) as int),
{
    match digit1::<&'a str, nom::error::Error<&'a str>>(input) {
        Ok(pair) => Some(pair),
        Err(_) => None,
    }
}

/// Relies on nom's `character::complete::char` on `&str`: it takes the first
/// character when it is `c`.
#[verifier::external_body]
fn take_char<'a>(c: char, input: &'a str) -> (r: Option<(&'a str, char)>)
    ensures
        r is Some <==> (input@.len() > 0 && input@[0] == c),
        r matches Some((rest, found)) ==> rest@ == input@.skip(1) && found == c,
{
    match nom_char::<&'a str, nom::error::Error<&'a str>>(c)(input) {
        Ok(pair) => Some(pair),
        Err(_) => None,
    }
}

/// Relies on nom's `character::complete::one_of` on `&str`: it takes the first
/// character when `list` contains it.
#[verifier::external_body]
fn take_one_of<'a>(list: &str, input: &'a str) -> (r: Option<(&'a str, char)>)
    ensures
        r is Some <==> (input@.len() > 0 && list@.contains(input@[0])),
        r matches Some((rest, found)) ==> rest@ == input@.skip(1) && found == input@[0],
{
    match one_of::<&'a str, &str, nom::error::Error<&'a str>>(list)(input) {
        Ok(pair) => Some(pair),
        Err(_) => None,
    }
}

/// Reads a string of decimal digits as a `u32`, or gives `None` when the
/// number does not fit.
fn decimal_u32(s: &str) -> (r: Option<u32>)
    requires
        all_digits(s@),
    ensures
        decimal_value(s@) <= u32::MAX ==> r == Some(decimal_value(s@) as u32),
        decimal_value(s@) > u32::MAX ==> r is None,
{
    let n = s.unicode_len();
    let mut acc: u32 = 0;
    let mut i: usize = 0;
    assert(s@.take(0) =~= Seq::<char>::empty());
    while i < n
        invariant
            n == s@.len(),
            i <= n,
            all_digits(s@),
            acc as nat == decimal_value(s@.take(i as int)),
        decreases n - i,
    {
        let c = s.get_char(i);
        assert(is_digit_char(s@[i as int]));
        let d: u32 = (c as u32) - ('0' as u32);
        let ghost next = s@.take(i + 1);
        assert(next.drop_last() =~= s@.take(i as int));
        assert(decimal_value(next) == decimal_value(s@.take(i as int)) * 10 + d);
        match acc.checked_mul(10) {
            Some(m) => match m.checked_add(d) {
                Some(v) => {
                    acc = v;
                },
                None => {
                    proof {
                        lemma_decimal_prefix_le(s@, i + 1);
                    }
                    return None;
                },
            },
            None => {
                proof {
                    lemma_decimal_prefix_le(s@, i + 1);
                }
                return None;
            },
        }
        i = i + 1;
    }
    assert(s@.take(n as int) =~= s@);
    Some(acc)
}

/// `s` begins with `t`.
pub open spec fn starts_with(s: Seq<char>, t: Seq<char>) -> bool {
    t.len() <= s.len() && s.take(t.len() as int) == t
}

/// The byte spelt by the two hexadecimal digits at positions `k` and `k + 1`.
pub open spec fn byte_at(s: Seq<char>, k: int) -> u8 {
    (hex_char_value(s[k]) * 16 + hex_char_value(s[k + 1])) as u8
}

/// A group of two hexadecimal digits, read as a byte.
pub open spec fn spec_hex_primary(s: Seq<char>) -> Result<(Seq<char>, u8), ParseError> {
    if s.len() >= 2 && is_hex_char(s[0]) && is_hex_char(s[1]) {
        Ok((s.skip(2), byte_at(s, 0)))
    } else {
        Err(ParseError::Mismatch(ErrorKind::HexDigit))
    }
}

/// A non-empty run of decimal digits, read as a `u32`.
pub open spec fn spec_decimal_digits(s: Seq<char>) -> Result<(Seq<char>, u32), ParseError> {
    let n = digit_run_len(s) as int;
    if n == 0 {
        Err(ParseError::Mismatch(ErrorKind::Digit))
    } else if decimal_value(s.take(n)) > u32::MAX {
        Err(ParseError::Failure(ErrorKind::Overflow))
    } else {
        Ok((s.skip(n), decimal_value(s.take(n)) as u32))
    }
}

/// One sign character, `+` or `-`.
pub open spec fn spec_sign_char(s: Seq<char>) -> Result<(Seq<char>, char), ParseError> {
    if s.len() > 0 && (s[0] == '+' || s[0] == '-') {
        Ok((s.skip(1), s[0]))
    } else {
        Err(ParseError::Mismatch(ErrorKind::OneOf))
    }
}

/// One given character `c`.
pub open spec fn spec_char_literal(c: char, s: Seq<char>) -> Result<(Seq<char>, char), ParseError> {
    if s.len() > 0 && s[0] == c {
        Ok((s.skip(1), c))
    } else {
        Err(ParseError::Mismatch(ErrorKind::Char))
    }
}

/// Matches the fixed text `text` at the start of `input`, case-sensitively,
/// and yields the matched part.
pub fn literal<'a>(text: &str, input: &'a str) -> (r: PResult<'a, &'a str>)
    ensures
        r is Ok <==> starts_with(input@, text@),
        r matches Ok((rest, matched)) ==> rest@ == input@.skip(text@.len() as int) && matched@
            == text@,
        r is Err ==> r == Err::<(&str, &str), ParseError>(ParseError::Mismatch(ErrorKind::Tag)),
{
    match match_tag(text, input) {
        Some(pair) => Ok(pair),
        None => Err(ParseError::Mismatch(ErrorKind::Tag)),
    }
}

/// Matches exactly two hexadecimal digits and reads them as a byte.
pub fn hex_primary<'a>(input: &'a str) -> (r: PResult<'a, u8>)
    ensures
        outcome_view(r) == spec_hex_primary(input@),
{
    match take_hex_pair(input) {
        Some((rest, digits)) => {
            proof {
                let d = digits@;
                reveal_with_fuel(hex_value, 3);
                assert(d.drop_last().drop_last() =~= Seq::<char>::empty());
                assert(all_hex(d));
            }
            match from_hex(digits) {
                Ok(v) => Ok((rest, v)),
                Err(_) => Err(ParseError::Failure(ErrorKind::HexDigit)),
            }
        },
        None => Err(ParseError::Mismatch(ErrorKind::HexDigit)),
    }
}

/// Matches the longest non-empty run of decimal digits and reads it as a
/// `u32`; a number too large for that width is a failure, not a mismatch.
pub fn decimal_digits<'a>(input: &'a str) -> (r: PResult<'a, u32>)
    ensures
        outcome_view(r) == spec_decimal_digits(input@),
{
    match take_digits(input) {
        Some((rest, digits)) => {
            proof {
                lemma_digit_run(input@);
            }
            match decimal_u32(digits) {
                Some(v) => Ok((rest, v)),
                None => Err(ParseError::Failure(ErrorKind::Overflow)),
            }
        },
        None => Err(ParseError::Mismatch(ErrorKind::Digit)),
    }
}

/// Matches one sign character, `+` or `-`.
pub fn sign_char<'a>(input: &'a str) -> (r: PResult<'a, char>)
    ensures
        outcome_view(r) == spec_sign_char(input@),
{
    let signs = "+-";
    proof {
        reveal_strlit("+-");
    }
    match take_one_of(signs, input) {
        Some(pair) => Ok(pair),
        None => {
            assert(!(input@.len() > 0 && (input@[0] == '+' || input@[0] == '-'))) by {
                if input@.len() > 0 && (input@[0] == '+' || input@[0] == '-') {
                    if input@[0] == '+' {
                        assert(signs@[0] == '+');
                    } else {
                        assert(signs@[1] == '-');
                    }
                }
            }
            Err(ParseError::Mismatch(ErrorKind::OneOf))
        },
    }
}

/// Matches the one character `c`.
pub fn char_literal<'a>(c: char, input: &'a str) -> (r: PResult<'a, char>)
    ensures
        outcome_view(r) == spec_char_literal(c, input@),
{
    match take_char(c, input) {
        Some(pair) => Ok(pair),
        None => Err(ParseError::Mismatch(ErrorKind::Char)),
    }
}

} // verus!
