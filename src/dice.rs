use vstd::prelude::*;

use crate::combinators::{commit, optional, spec_commit, spec_optional};
use crate::error::{outcome_view, ErrorKind, PResult, ParseError};
use crate::primitives::{
    char_literal, decimal_digits, digit_run_len, is_digit_char, lemma_digit_run, sign_char,
    spec_char_literal, spec_decimal_digits, spec_sign_char,
};

verus! {

/// A dice roll: `count` dice with `sides` faces each, plus `modifier`.
#[derive(Debug, Clone, Copy, PartialEq, Eq, Structural)]
pub struct DiceRoll {
    pub sides: u32,
    pub count: u32,
    pub modifier: i32,
}

/// A sign character immediately followed by a run of decimal digits.
pub open spec fn spec_signed_digits(s: Seq<char>) -> Result<(Seq<char>, (char, u32)), ParseError> {
    match spec_sign_char(s) {
        Ok((t, sign)) => match spec_decimal_digits(t) {
            Ok((u, v)) => Ok((u, (sign, v))),
            Err(e) => Err(e),
        },
        Err(e) => Err(e),
    }
}

/// The signed value of a magnitude under a sign, when it fits in an `i32`.
pub open spec fn signed_value(sign: char, magnitude: u32) -> Option<i32> {
    if sign == '-' {
        if magnitude <= 0x8000_0000 {
            Some((-(magnitude as int)) as i32)
        } else {
            None
        }
    } else {
        if magnitude <= i32::MAX {
            Some(magnitude as i32)
        } else {
            None
        }
    }
}

/// The optional modifier: a sign with its digits, or nothing (zero). A sign
/// that no digit follows is not part of the modifier and is left unconsumed.
pub open spec fn spec_modifier(s: Seq<char>) -> Result<(Seq<char>, i32), ParseError> {
    match spec_optional(s, spec_signed_digits(s)) {
        Ok((rest, None)) => Ok((rest, 0)),
        Ok((rest, Some((sign, v)))) => match signed_value(sign, v) {
            Some(m) => Ok((rest, m)),
            None => Err(ParseError::Failure(ErrorKind::Overflow)),
        },
        Err(e) => Err(e),
    }
}

/// The dice grammar `<count>D<sides>[±<modifier>]`. Once the count has been
/// read the input is committed: a missing `D` or a missing side count is a
/// failure.
pub open spec fn spec_dice_roll(s: Seq<char>) -> Result<(Seq<char>, DiceRoll), ParseError> {
    match spec_decimal_digits(s) {
        Err(e) => Err(e),
        Ok((t, count)) => match spec_commit(spec_char_literal('D', t)) {
            Err(e) => Err(e),
            Ok((u, _)) => match spec_commit(spec_decimal_digits(u)) {
                Err(e) => Err(e),
                Ok((w, sides)) => match spec_modifier(w) {
                    Err(e) => Err(e),
                    Ok((x, modifier)) => Ok((x, DiceRoll { sides, count, modifier })),
                },
            },
        },
    }
}

/// Matches a sign character immediately followed by a run of decimal digits.
pub fn signed_digits<'a>(input: &'a str) -> (r: PResult<'a, (char, u32)>)
    ensures
        outcome_view(r) == spec_signed_digits(input@),
{
    let (rest, sign) = match sign_char(input) {
        Ok(p) => p,
        Err(e) => {
            return Err(e);
        },
    };
    match decimal_digits(rest) {
        Ok((rest, v)) => Ok((rest, (sign, v))),
        Err(e) => Err(e),
    }
}

/// Gives the signed value of `magnitude` under `sign`, or `None` when it does
/// not fit in an `i32`.
pub fn to_signed(sign: char, magnitude: u32) -> (r: Option<i32>)
    ensures
        r == signed_value(sign, magnitude),
{
    if sign == '-' {
        if magnitude <= 0x8000_0000 {
            let m = magnitude as i64;
            Some((-m) as i32)
        } else {
            None
        }
    } else {
        if magnitude <= 0x7fff_ffff {
            Some(magnitude as i32)
        } else {
            None
        }
    }
}

/// Parses the optional modifier of a dice roll: `+` or `-` with digits gives
/// that signed number, and anything else gives zero with nothing consumed. A
/// modifier that does not fit in an `i32` is a failure.
pub fn parse_modifier<'a>(input: &'a str) -> (r: PResult<'a, i32>)
    ensures
        outcome_view(r) == spec_modifier(input@),
{
    let o = optional(signed_digits, input);
    proof {
        let r1 = choose|r1: PResult<'a, (char, u32)>|
            #![trigger signed_digits.ensures((input,), r1)]
            signed_digits.ensures((input,), r1) && o == match r1 {
                Ok((rest, v)) => Ok((rest, Some(v))),
                Err(ParseError::Mismatch(_)) => Ok((input, None)),
                Err(ParseError::Failure(k)) => Err(ParseError::Failure(k)),
            };
        assert(outcome_view(r1) == spec_signed_digits(input@));
    }
    match o {
        Ok((rest, None)) => Ok((rest, 0)),
        Ok((rest, Some((sign, v)))) => match to_signed(sign, v) {
            Some(m) => Ok((rest, m)),
            None => Err(ParseError::Failure(ErrorKind::Overflow)),
        },
        Err(e) => Err(e),
    }
}

/// Parses a dice roll `<count>D<sides>[±<modifier>]` at the start of `input`.
///
/// The count and the number of sides are runs of decimal digits read as
/// `u32`; the `D` is upper case. Once the count has been read, a missing `D`
/// or a missing side count is a failure, not a mismatch. Without a modifier,
/// or with a sign that no digit follows, the modifier is zero and the sign is
/// left in the remaining input. A number too large for its width is a
/// failure.
pub fn dice_roll<'a>(input: &'a str) -> (r: PResult<'a, DiceRoll>)
    ensures
        outcome_view(r) == spec_dice_roll(input@),
{
    let (input, count) = match decimal_digits(input) {
        Ok(p) => p,
        Err(e) => {
            return Err(e);
        },
    };
    let (input, _) = match commit(char_literal('D', input)) {
        Ok(p) => p,
        Err(e) => {
            return Err(e);
        },
    };
    let (input, sides) = match commit(decimal_digits(input)) {
        Ok(p) => p,
        Err(e) => {
            return Err(e);
        },
    };
    let (input, modifier) = match parse_modifier(input) {
        Ok(p) => p,
        Err(e) => {
            return Err(e);
        },
    };
    Ok((input, DiceRoll { sides, count, modifier }))
}

/// A parser for dice rolls; see [`dice_roll`].
pub struct BasicRoll {}

impl BasicRoll {
    /// Parses a dice roll at the start of `input`, as [`dice_roll`] does.
    pub fn parse<'a>(&mut self, input: &'a str) -> (r: PResult<'a, DiceRoll>)
        ensures
            outcome_view(r) == spec_dice_roll(input@),
            *final(self) == *old(self),
    {
        dice_roll(input)
    }
}

/// A sign that no digit follows is not taken as a modifier: the modifier is
/// zero and the sign stays in the remaining input.
pub proof fn lemma_dangling_sign(s: Seq<char>)
    requires
        s.len() > 0,
        s[0] == '+' || s[0] == '-',
        !(s.len() > 1 && is_digit_char(s[1])),
    ensures
        spec_modifier(s) == Ok::<(Seq<char>, i32), ParseError>((s, 0i32)),
{
    let t = s.skip(1);
    assert(digit_run_len(t) == 0) by {
        if t.len() > 0 {
            assert(t[0] == s[1]);
        }
    }
}

proof fn lemma_decimal_digits_suffix(s: Seq<char>)
    ensures
        spec_decimal_digits(s) matches Ok((rest, _)) ==> rest.len() < s.len() && rest == s.skip(
            s.len() - rest.len(),
        ),
{
    lemma_digit_run(s);
}

proof fn lemma_modifier_suffix(s: Seq<char>)
    ensures
        spec_modifier(s) matches Ok((rest, _)) ==> rest.len() <= s.len() && rest == s.skip(
            s.len() - rest.len(),
        ),
{
    assert(s.skip(0) =~= s);
    if let Ok((t, _)) = spec_sign_char(s) {
        lemma_decimal_digits_suffix(t);
        if let Ok((u, _)) = spec_decimal_digits(t) {
            assert(t.skip(t.len() - u.len()) =~= s.skip(s.len() - u.len()));
        }
    }
}

/// A successful dice-roll parse consumes a non-empty prefix of `s` and leaves
/// the rest of `s` exactly.
pub proof fn lemma_dice_roll_consumes(s: Seq<char>)
    ensures
        spec_dice_roll(s) matches Ok((rest, _)) ==> rest.len() < s.len() && rest == s.skip(
            s.len() - rest.len(),
        ),
{
    lemma_decimal_digits_suffix(s);
    if let Ok((t, _)) = spec_decimal_digits(s) {
        if let Ok((u, _)) = spec_commit(spec_char_literal('D', t)) {
            assert(u =~= s.skip(s.len() - u.len()));
            lemma_decimal_digits_suffix(u);
            if let Ok((w, _)) = spec_commit(spec_decimal_digits(u)) {
                assert(u.skip(u.len() - w.len()) =~= s.skip(s.len() - w.len()));
                lemma_modifier_suffix(w);
                if let Ok((x, _)) = spec_modifier(w) {
                    assert(w.skip(w.len() - x.len()) =~= s.skip(s.len() - x.len()));
                }
            }
        }
    }
}

/// Parsing again what a successful dice-roll parse left over never reads the
/// characters that the first parse consumed: a second success consumes a
/// further, non-empty stretch that lies wholly after the first.
pub proof fn lemma_dice_roll_reparse(s: Seq<char>)
    ensures
        spec_dice_roll(s) matches Ok((rest, _)) ==> {
            &&& 0 < s.len() - rest.len()
            &&& rest == s.skip(s.len() - rest.len())
            &&& spec_dice_roll(rest) matches Ok((rest2, _)) ==> {
                &&& rest2.len() < rest.len()
                &&& rest2 == s.skip(s.len() - rest2.len())
            }
        },
{
    lemma_dice_roll_consumes(s);
    if let Ok((rest, _)) = spec_dice_roll(s) {
        lemma_dice_roll_consumes(rest);
        if let Ok((rest2, _)) = spec_dice_roll(rest) {
            assert(rest.skip(rest.len() - rest2.len()) =~= s.skip(s.len() - rest2.len()));
        }
    }
}

} // verus!
