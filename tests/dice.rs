use color_dice::{
    alternative, char_literal, commit, decimal_digits, dice_roll, optional, parse_modifier,
    sign_char, signed_digits, to_signed, BasicRoll, DiceRoll, ErrorKind, PResult, ParseError,
};

#[test]
fn test_positive_modifier() {
    let mut basic_parser = BasicRoll {};
    let roll = "2D6+4";
    let result = basic_parser.parse(roll);
    assert_eq!(result.unwrap().1.modifier, 4);
}

#[test]
fn test_negative_modifier() {
    let mut basic_parser = BasicRoll {};
    let roll = "5D10-4";
    let result = basic_parser.parse(roll);
    assert_eq!(result.unwrap().1.modifier, -4);
}

#[test]
fn test_no_modifier() {
    let mut basic_parser = BasicRoll {};
    let roll = "5D10";
    assert_eq!(basic_parser.parse(roll).unwrap().1.modifier, 0);
}

#[test]
fn test_modifier_with_sign() {
    let mut basic_parser = BasicRoll {};
    let roll = "5D10+";
    assert!(basic_parser.parse(roll).is_ok());
}

fn roll(count: u32, sides: u32, modifier: i32) -> DiceRoll {
    DiceRoll { sides, count, modifier }
}

#[test]
fn whole_rolls() {
    assert_eq!(dice_roll("2D6+4"), Ok(("", roll(2, 6, 4))));
    assert_eq!(dice_roll("5D10-4"), Ok(("", roll(5, 10, -4))));
    assert_eq!(dice_roll("5D10"), Ok(("", roll(5, 10, 0))));
    assert_eq!(dice_roll("0D0"), Ok(("", roll(0, 0, 0))));
    assert_eq!(dice_roll("007D012+0003"), Ok(("", roll(7, 12, 3))));
}

#[test]
fn dangling_sign_is_left_over() {
    assert_eq!(dice_roll("5D10+"), Ok(("+", roll(5, 10, 0))));
    assert_eq!(dice_roll("5D10-"), Ok(("-", roll(5, 10, 0))));
    assert_eq!(dice_roll("5D10+x"), Ok(("+x", roll(5, 10, 0))));
}

#[test]
fn dice_trailing_text_is_left_over() {
    assert_eq!(dice_roll("2D6+4 1D8"), Ok((" 1D8", roll(2, 6, 4))));
    assert_eq!(dice_roll("2D6*2"), Ok(("*2", roll(2, 6, 0))));
}

#[test]
fn dice_reparse_of_rest_reads_only_what_follows() {
    let (rest, _) = dice_roll("2D6+4").unwrap();
    assert!(dice_roll(rest).is_err());
    let (rest, _) = dice_roll("5D10+").unwrap();
    assert_eq!(rest, "+");
    assert!(dice_roll(rest).is_err());
}

#[test]
fn missing_count_is_a_mismatch() {
    assert_eq!(dice_roll(""), Err(ParseError::Mismatch(ErrorKind::Digit)));
    assert_eq!(dice_roll("D6"), Err(ParseError::Mismatch(ErrorKind::Digit)));
    assert_eq!(dice_roll("+2D6"), Err(ParseError::Mismatch(ErrorKind::Digit)));
}

#[test]
fn committed_parts_are_failures() {
    assert_eq!(dice_roll("5d6"), Err(ParseError::Failure(ErrorKind::Char)));
    assert_eq!(dice_roll("5"), Err(ParseError::Failure(ErrorKind::Char)));
    assert_eq!(dice_roll("5D"), Err(ParseError::Failure(ErrorKind::Digit)));
    assert_eq!(dice_roll("5Dx"), Err(ParseError::Failure(ErrorKind::Digit)));
}

#[test]
fn overflow_is_a_failure() {
    assert_eq!(dice_roll("4294967295D4294967295"), Ok(("", roll(u32::MAX, u32::MAX, 0))));
    assert_eq!(dice_roll("4294967296D6"), Err(ParseError::Failure(ErrorKind::Overflow)));
    assert_eq!(dice_roll("1D99999999999"), Err(ParseError::Failure(ErrorKind::Overflow)));
    assert_eq!(dice_roll("1D6+2147483647"), Ok(("", roll(1, 6, i32::MAX))));
    assert_eq!(dice_roll("1D6-2147483648"), Ok(("", roll(1, 6, i32::MIN))));
    assert_eq!(dice_roll("1D6+2147483648"), Err(ParseError::Failure(ErrorKind::Overflow)));
    assert_eq!(dice_roll("1D6-2147483649"), Err(ParseError::Failure(ErrorKind::Overflow)));
    assert_eq!(dice_roll("1D6-99999999999"), Err(ParseError::Failure(ErrorKind::Overflow)));
}

#[test]
fn modifier_forms() {
    assert_eq!(parse_modifier("+12z"), Ok(("z", 12)));
    assert_eq!(parse_modifier("-7"), Ok(("", -7)));
    assert_eq!(parse_modifier("x"), Ok(("x", 0)));
    assert_eq!(parse_modifier(""), Ok(("", 0)));
    assert_eq!(parse_modifier("-"), Ok(("-", 0)));
}

#[test]
fn signed_values() {
    assert_eq!(to_signed('+', 5), Some(5));
    assert_eq!(to_signed('-', 5), Some(-5));
    assert_eq!(to_signed('-', 0x8000_0000), Some(i32::MIN));
    assert_eq!(to_signed('+', 0x8000_0000), None);
    assert_eq!(to_signed('-', 0x8000_0001), None);
}

#[test]
fn primitive_parsers() {
    assert_eq!(decimal_digits("123abc"), Ok(("abc", 123)));
    assert_eq!(decimal_digits("abc"), Err(ParseError::Mismatch(ErrorKind::Digit)));
    assert_eq!(sign_char("+5"), Ok(("5", '+')));
    assert_eq!(sign_char("-"), Ok(("", '-')));
    assert_eq!(sign_char("5"), Err(ParseError::Mismatch(ErrorKind::OneOf)));
    assert_eq!(char_literal('D', "D6"), Ok(("6", 'D')));
    assert_eq!(char_literal('D', "d6"), Err(ParseError::Mismatch(ErrorKind::Char)));
    assert_eq!(signed_digits("-42;"), Ok((";", ('-', 42))));
    assert_eq!(signed_digits("-;"), Err(ParseError::Mismatch(ErrorKind::Digit)));
}

fn digits_then_d(input: &str) -> PResult<'_, u32> {
    match decimal_digits(input) {
        Ok((rest, v)) => match char_literal('D', rest) {
            Ok((rest, _)) => Ok((rest, v)),
            Err(e) => Err(e),
        },
        Err(e) => Err(e),
    }
}

fn digits_only(input: &str) -> PResult<'_, u32> {
    decimal_digits(input)
}

#[test]
fn combinators_follow_their_order() {
    assert_eq!(alternative(digits_then_d, digits_only, "12D"), Ok(("", 12)));
    assert_eq!(alternative(digits_then_d, digits_only, "12x"), Ok(("x", 12)));
    assert_eq!(alternative(digits_only, digits_then_d, "12D"), Ok(("D", 12)));
    assert_eq!(
        alternative(digits_only, digits_then_d, "x"),
        Err(ParseError::Mismatch(ErrorKind::Digit))
    );
    assert_eq!(
        alternative(digits_only, digits_then_d, "99999999999"),
        Err(ParseError::Failure(ErrorKind::Overflow))
    );
    assert_eq!(optional(digits_only, "7a"), Ok(("a", Some(7))));
    assert_eq!(optional(digits_then_d, "7a"), Ok(("7a", None)));
    assert_eq!(
        optional(digits_only, "99999999999"),
        Err(ParseError::Failure(ErrorKind::Overflow))
    );
    assert_eq!(commit(digits_only("x")), Err(ParseError::Failure(ErrorKind::Digit)));
    assert_eq!(commit(digits_only("3")), Ok(("", 3)));
}
