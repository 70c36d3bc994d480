use vstd::prelude::*;

use crate::combinators::{alternative, spec_alternative};
use crate::error::{outcome_view, ErrorKind, PResult, ParseError};
use crate::primitives::{byte_at, hex_char_value, hex_primary, is_hex_char, literal, starts_with};

verus! {

/// A colour with red, green and blue channels and an optional alpha channel.
#[derive(Debug, Clone, Copy, PartialEq, Eq, Structural)]
pub struct Color {
    pub red: u8,
    pub green: u8,
    pub blue: u8,
    pub alpha: Option<u8>,
}

/// The first `n` two-digit groups of `s` are all hexadecimal.
pub open spec fn hex_groups(s: Seq<char>, n: int) -> bool {
    s.len() >= 2 * n && forall|i: int| 0 <= i < 2 * n ==> is_hex_char(#[trigger] s[i])
}

/// Four groups of two hexadecimal digits: red, green, blue and alpha.
pub open spec fn spec_hex_rgba(s: Seq<char>) -> Result<(Seq<char>, Color), ParseError> {
    if hex_groups(s, 4) {
        Ok(
            (
                s.skip(8),
                Color {
                    red: byte_at(s, 0),
                    green: byte_at(s, 2),
                    blue: byte_at(s, 4),
                    alpha: Some(byte_at(s, 6)),
                },
            ),
        )
    } else {
        Err(ParseError::Mismatch(ErrorKind::HexDigit))
    }
}

/// Three groups of two hexadecimal digits: red, green and blue.
pub open spec fn spec_hex_rgb(s: Seq<char>) -> Result<(Seq<char>, Color), ParseError> {
    if hex_groups(s, 3) {
        Ok(
            (
                s.skip(6),
                Color { red: byte_at(s, 0), green: byte_at(s, 2), blue: byte_at(s, 4), alpha: None },
            ),
        )
    } else {
        Err(ParseError::Mismatch(ErrorKind::HexDigit))
    }
}

/// The optional label that may stand before the `#`.
pub open spec fn color_label() -> Seq<char> {
    seq!['c', 'o', 'l', 'o', 'r']
}

/// What is left of `s` once an exact leading label, if any, is taken off.
pub open spec fn after_label(s: Seq<char>) -> Seq<char> {
    if starts_with(s, color_label()) {
        s.skip(5)
    } else {
        s
    }
}

/// The colour grammar `[color]#RRGGBB[AA]`: the four-group form is tried
/// before the three-group form.
pub open spec fn spec_hex_color(s: Seq<char>) -> Result<(Seq<char>, Color), ParseError> {
    let b = after_label(s);
    if b.len() > 0 && b[0] == '#' {
        spec_alternative(spec_hex_rgba(b.skip(1)), spec_hex_rgb(b.skip(1)))
    } else {
        Err(ParseError::Failure(ErrorKind::Tag))
    }
}

proof fn lemma_step(s: Seq<char>, k: int)
    requires
        0 <= k,
        k + 2 <= s.len(),
    ensures
        s.skip(k).skip(2) == s.skip(k + 2),
        byte_at(s.skip(k), 0) == byte_at(s, k),
        s.skip(k)[0] == s[k],
        s.skip(k)[1] == s[k + 1],
        s.skip(k).len() == s.len() - k,
{
    assert(s.skip(k).skip(2) =~= s.skip(k + 2));
}

/// Three groups of two hexadecimal digits, as a colour without alpha.
pub fn hex_rgb<'a>(input: &'a str) -> (r: PResult<'a, Color>)
    ensures
        outcome_view(r) == spec_hex_rgb(input@),
{
    let ghost s = input@;
    proof {
        assert(s.skip(0) =~= s);
    }
    let (input, red) = match hex_primary(input) {
        Ok(p) => p,
        Err(e) => {
            return Err(e);
        },
    };
    proof {
        lemma_step(s, 0);
    }
    let (input, green) = match hex_primary(input) {
        Ok(p) => p,
        Err(e) => {
            return Err(e);
        },
    };
    proof {
        lemma_step(s, 2);
    }
    let (input, blue) = match hex_primary(input) {
        Ok(p) => p,
        Err(e) => {
            return Err(e);
        },
    };
    proof {
        lemma_step(s, 4);
    }
    Ok((input, Color { red, green, blue, alpha: None }))
}

/// Four groups of two hexadecimal digits, as a colour with alpha.
pub fn hex_rgba<'a>(input: &'a str) -> (r: PResult<'a, Color>)
    ensures
        outcome_view(r) == spec_hex_rgba(input@),
{
    let ghost s = input@;
    proof {
        assert(s.skip(0) =~= s);
    }
    let (input, red) = match hex_primary(input) {
        Ok(p) => p,
        Err(e) => {
            return Err(e);
        },
    };
    proof {
        lemma_step(s, 0);
    }
    let (input, green) = match hex_primary(input) {
        Ok(p) => p,
        Err(e) => {
            return Err(e);
        },
    };
    proof {
        lemma_step(s, 2);
    }
    let (input, blue) = match hex_primary(input) {
        Ok(p) => p,
        Err(e) => {
            return Err(e);
        },
    };
    proof {
        lemma_step(s, 4);
    }
    let (input, alpha) = match hex_primary(input) {
        Ok(p) => p,
        Err(e) => {
            return Err(e);
        },
    };
    proof {
        lemma_step(s, 6);
    }
    Ok((input, Color { red, green, blue, alpha: Some(alpha) }))
}

/// Parses a colour code `[color]#RRGGBB[AA]` at the start of `input`.
///
/// The label `color` is taken off when the input starts with it exactly. A `#`
/// must follow; without it the parse fails outright. Then four groups of two
/// hexadecimal digits give a colour with alpha; failing that, three groups
/// give one without. The four-group form is tried first, so that eight digits
/// are never read as six with two left over. Whatever follows the digits is
/// returned as the remaining input.
pub fn hex_color<'a>(input: &'a str) -> (r: PResult<'a, Color>)
    ensures
        outcome_view(r) == spec_hex_color(input@),
{
    let label = "color";
    proof {
        reveal_strlit("color");
        assert(label@ =~= color_label());
    }
    let input = match literal(label, input) {
        Ok((rest, _)) => rest,
        Err(_) => input,
    };
    let ghost b = input@;
    let hash = "#";
    proof {
        reveal_strlit("#");
        assert(starts_with(b, hash@) <==> (b.len() > 0 && b[0] == '#')) by {
            if b.len() > 0 && b[0] == '#' {
                assert(b.take(1) =~= hash@);
            }
            if starts_with(b, hash@) {
                assert(b.take(1)[0] == hash@[0]);
            }
        }
    }
    let input = match literal(hash, input) {
        Ok((rest, _)) => rest,
        Err(_) => {
            return Err(ParseError::Failure(ErrorKind::Tag));
        },
    };
    let r = alternative(hex_rgba, hex_rgb, input);
    proof {
        let r1 = choose|r1: PResult<'a, Color>|
            #![trigger hex_rgba.ensures((input,), r1)]
            hex_rgba.ensures((input,), r1) && match r1 {
                Err(ParseError::Mismatch(_)) => hex_rgb.ensures((input,), r),
                _ => r == r1,
            };
        assert(outcome_view(r1) == spec_hex_rgba(input@));
    }
    r
}

/// A parser for colour codes; see [`hex_color`].
pub struct ColorCode {}

impl ColorCode {
    /// Parses a colour code at the start of `input`, as [`hex_color`] does.
    pub fn parse<'a>(&mut self, input: &'a str) -> (r: PResult<'a, Color>)
        ensures
            outcome_view(r) == spec_hex_color(input@),
            *final(self) == *old(self),
    {
        hex_color(input)
    }
}

/// `d` is two hexadecimal digits, in either case, that spell the byte `v`.
pub open spec fn encodes_byte(d: Seq<char>, v: u8) -> bool {
    &&& d.len() == 2
    &&& is_hex_char(d[0])
    &&& is_hex_char(d[1])
    &&& hex_char_value(d[0]) * 16 + hex_char_value(d[1]) == v as nat
}

/// For any bytes written as two hexadecimal digits each, `#` with the red,
/// green and blue digits parses to exactly that colour without alpha and
/// leaves nothing; with the alpha digits appended it parses to that colour
/// with alpha and leaves nothing.
pub proof fn lemma_hex_color_round_trip(
    red: u8,
    green: u8,
    blue: u8,
    alpha: u8,
    dr: Seq<char>,
    dg: Seq<char>,
    db: Seq<char>,
    da: Seq<char>,
)
    requires
        encodes_byte(dr, red),
        encodes_byte(dg, green),
        encodes_byte(db, blue),
        encodes_byte(da, alpha),
    ensures
        spec_hex_color(seq!['#'] + dr + dg + db) == Ok::<(Seq<char>, Color), ParseError>(
            (Seq::<char>::empty(), Color { red, green, blue, alpha: None }),
        ),
        spec_hex_color(seq!['#'] + dr + dg + db + da) == Ok::<(Seq<char>, Color), ParseError>(
            (Seq::<char>::empty(), Color { red, green, blue, alpha: Some(alpha) }),
        ),
{
    let s3 = seq!['#'] + dr + dg + db;
    let s4 = seq!['#'] + dr + dg + db + da;
    assert(!starts_with(s3, color_label())) by {
        assert(s3.take(5)[0] == '#');
    }
    assert(!starts_with(s4, color_label())) by {
        assert(s4.take(5)[0] == '#');
    }
    let b3 = s3.skip(1);
    let b4 = s4.skip(1);
    assert(b3 =~= dr + dg + db);
    assert(b4 =~= dr + dg + db + da);
    assert(b3[0] == dr[0] && b3[1] == dr[1] && b3[2] == dg[0] && b3[3] == dg[1] && b3[4] == db[0]
        && b3[5] == db[1]);
    assert(b4[0] == dr[0] && b4[1] == dr[1] && b4[2] == dg[0] && b4[3] == dg[1] && b4[4] == db[0]
        && b4[5] == db[1] && b4[6] == da[0] && b4[7] == da[1]);
    assert(!hex_groups(b3, 4));
    assert(hex_groups(b3, 3));
    assert(hex_groups(b4, 4));
    assert(b3.skip(6) =~= Seq::<char>::empty());
    assert(b4.skip(8) =~= Seq::<char>::empty());
}

/// Where eight hexadecimal digits follow the `#`, the colour is always read
/// with alpha from all eight, never as three groups with two digits left over.
pub proof fn lemma_rgba_before_rgb(s: Seq<char>)
    requires
        after_label(s).len() > 0,
        after_label(s)[0] == '#',
        hex_groups(after_label(s).skip(1), 4),
    ensures
        spec_hex_color(s) == spec_hex_rgba(after_label(s).skip(1)),
        spec_hex_color(s) is Ok,
        spec_hex_color(s)->Ok_0.1.alpha is Some,
        spec_hex_color(s)->Ok_0.0 == after_label(s).skip(9),
        spec_hex_color(s) != spec_hex_rgb(after_label(s).skip(1)),
{
    let d = after_label(s).skip(1);
    assert(hex_groups(d, 3));
    assert(d.skip(8) =~= after_label(s).skip(9));
}

/// A successful colour parse consumes a non-empty prefix of `s` and leaves the
/// rest of `s` exactly.
pub proof fn lemma_hex_color_consumes(s: Seq<char>)
    ensures
        spec_hex_color(s) matches Ok((rest, _)) ==> rest.len() < s.len() && rest == s.skip(
            s.len() - rest.len(),
        ),
{
    let b = after_label(s);
    let off: int = if starts_with(s, color_label()) {
        5
    } else {
        0
    };
    assert(b =~= s.skip(off));
    if b.len() > 0 && b[0] == '#' {
        let d = b.skip(1);
        assert(d =~= s.skip(off + 1));
        if hex_groups(d, 4) {
            assert(d.skip(8) =~= s.skip(off + 9));
        }
        if hex_groups(d, 3) {
            assert(d.skip(6) =~= s.skip(off + 7));
        }
    }
}

/// Parsing again what a successful colour parse left over never reads the
/// characters that the first parse consumed: a second success consumes a
/// further, non-empty stretch that lies wholly after the first.
pub proof fn lemma_hex_color_reparse(s: Seq<char>)
    ensures
        spec_hex_color(s) matches Ok((rest, _)) ==> {
            &&& 0 < s.len() - rest.len()
            &&& rest == s.skip(s.len() - rest.len())
            &&& spec_hex_color(rest) matches Ok((rest2, _)) ==> {
                &&& rest2.len() < rest.len()
                &&& rest2 == s.skip(s.len() - rest2.len())
            }
        },
{
    lemma_hex_color_consumes(s);
    if let Ok((rest, _)) = spec_hex_color(s) {
        lemma_hex_color_consumes(rest);
        if let Ok((rest2, _)) = spec_hex_color(rest) {
            assert(rest.skip(rest.len() - rest2.len()) =~= s.skip(s.len() - rest2.len()));
        }
    }
}

} // verus!
