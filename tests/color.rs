use color_dice::{
    from_hex, hex_color, hex_primary, hex_rgb, hex_rgba, is_hex_digit, literal, Color,
    ColorCode, ErrorKind, ParseError,
};

#[test]
fn parse_color() {
    assert_eq!(
        hex_color("color#2F14DF"),
        Ok((
            "",
            Color {
                red: 47,
                green: 20,
                blue: 223,
                alpha: None,
            }
        ))
    );
}

#[test]
fn parse_color_e1() {
    assert!(hex_color("color#2F14DG").is_err(),);
}

#[test]
fn parse_color_e2() {
    assert!(hex_color("olor#2F14DF").is_err(),);
}

#[test]
fn parse_color_without_func_name() {
    assert_eq!(
        hex_color("#2F14DF"),
        Ok((
            "",
            Color {
                red: 47,
                green: 20,
                blue: 223,
                alpha: None,
            }
        ))
    );
}

#[test]
fn parse_color_with_alpha() {
    assert_eq!(
        hex_color("color#2F14DF04"),
        Ok((
            "",
            Color {
                red: 47,
                green: 20,
                blue: 223,
                alpha: Some(04_u8),
            }
        ))
    );
}

fn rgb(red: u8, green: u8, blue: u8) -> Color {
    Color { red, green, blue, alpha: None }
}

#[test]
fn lower_and_mixed_case_digits() {
    assert_eq!(hex_color("#2f14df"), Ok(("", rgb(47, 20, 223))));
    assert_eq!(hex_color("#2f14Df"), Ok(("", rgb(47, 20, 223))));
    assert_eq!(
        hex_color("#aBcDeF0a"),
        Ok(("", Color { red: 0xab, green: 0xcd, blue: 0xef, alpha: Some(10) }))
    );
}

#[test]
fn every_byte_round_trips() {
    for v in 0..=255u32 {
        let b = v as u8;
        let upper = format!("#{:02X}{:02X}{:02X}", b, 255 - b, b / 2);
        let lower = format!("#{:02x}{:02x}{:02x}{:02x}", b, 255 - b, b / 2, b);
        assert_eq!(hex_color(&upper), Ok(("", rgb(b, 255 - b, b / 2))));
        assert_eq!(
            hex_color(&lower),
            Ok(("", Color { red: b, green: 255 - b, blue: b / 2, alpha: Some(b) }))
        );
    }
}

#[test]
fn eight_digits_are_read_with_alpha() {
    assert_eq!(
        hex_color("#2F14DF04"),
        Ok(("", Color { red: 47, green: 20, blue: 223, alpha: Some(4) }))
    );
    assert_eq!(
        hex_color("#000000FFx"),
        Ok(("x", Color { red: 0, green: 0, blue: 0, alpha: Some(255) }))
    );
}

#[test]
fn seven_digits_leave_one_over() {
    assert_eq!(hex_color("#2F14DF0"), Ok(("0", rgb(47, 20, 223))));
    assert_eq!(hex_color("#2F14DF0G"), Ok(("0G", rgb(47, 20, 223))));
}

#[test]
fn trailing_text_is_left_over() {
    assert_eq!(hex_color("#2F14DF;"), Ok((";", rgb(47, 20, 223))));
    assert_eq!(hex_color("#2F14DFé!"), Ok(("é!", rgb(47, 20, 223))));
}

#[test]
fn missing_hash_is_a_failure() {
    assert_eq!(hex_color(""), Err(ParseError::Failure(ErrorKind::Tag)));
    assert_eq!(hex_color("color"), Err(ParseError::Failure(ErrorKind::Tag)));
    assert_eq!(hex_color("2F14DF"), Err(ParseError::Failure(ErrorKind::Tag)));
    assert_eq!(hex_color("olor#2F14DF"), Err(ParseError::Failure(ErrorKind::Tag)));
    assert_eq!(hex_color("colour#2F14DF"), Err(ParseError::Failure(ErrorKind::Tag)));
    assert_eq!(hex_color("Color#2F14DF"), Err(ParseError::Failure(ErrorKind::Tag)));
}

#[test]
fn bad_digits_are_a_mismatch() {
    assert_eq!(hex_color("color#2F14DG"), Err(ParseError::Mismatch(ErrorKind::HexDigit)));
    assert_eq!(hex_color("#2F14"), Err(ParseError::Mismatch(ErrorKind::HexDigit)));
    assert_eq!(hex_color("#"), Err(ParseError::Mismatch(ErrorKind::HexDigit)));
}

#[test]
fn reparse_of_rest_reads_only_what_follows() {
    let (rest, first) = hex_color("#2F14DF#0A0B0C").unwrap();
    assert_eq!(first, rgb(47, 20, 223));
    assert_eq!(rest, "#0A0B0C");
    assert_eq!(hex_color(rest), Ok(("", rgb(10, 11, 12))));
    let (rest, _) = hex_color("color#2F14DF04").unwrap();
    assert!(hex_color(rest).is_err());
}

#[test]
fn color_code_parser() {
    let mut parser = ColorCode {};
    assert_eq!(parser.parse("color#010203"), Ok(("", rgb(1, 2, 3))));
    assert!(parser.parse("#01020").is_err());
}

#[test]
fn rgb_and_rgba_forms() {
    assert_eq!(hex_rgb("2F14DF04"), Ok(("04", rgb(47, 20, 223))));
    assert_eq!(
        hex_rgba("2F14DF04"),
        Ok(("", Color { red: 47, green: 20, blue: 223, alpha: Some(4) }))
    );
    assert_eq!(hex_rgba("2F14DF"), Err(ParseError::Mismatch(ErrorKind::HexDigit)));
}

#[test]
fn hex_primary_reads_two_digits() {
    assert_eq!(hex_primary("2Fxx"), Ok(("xx", 47)));
    assert_eq!(hex_primary("ff"), Ok(("", 255)));
    assert_eq!(hex_primary("0"), Err(ParseError::Mismatch(ErrorKind::HexDigit)));
    assert_eq!(hex_primary("g0"), Err(ParseError::Mismatch(ErrorKind::HexDigit)));
}

#[test]
fn from_hex_values() {
    assert_eq!(from_hex("2F"), Ok(47));
    assert_eq!(from_hex("ff"), Ok(255));
    assert_eq!(from_hex("0a"), Ok(10));
    assert!(from_hex("").is_err());
    assert!(from_hex("100").is_err());
}

#[test]
fn hex_digit_class() {
    for c in "0123456789abcdefABCDEF".chars() {
        assert!(is_hex_digit(c));
    }
    for c in "gG /:@`xé".chars() {
        assert!(!is_hex_digit(c));
    }
}

#[test]
fn literal_splits_after_text() {
    assert_eq!(literal("color", "color#12"), Ok(("#12", "color")));
    assert_eq!(literal("color", "colo"), Err(ParseError::Mismatch(ErrorKind::Tag)));
    assert_eq!(literal("#", "x#"), Err(ParseError::Mismatch(ErrorKind::Tag)));
}
