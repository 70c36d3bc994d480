//! Parsers for two compact notations: hexadecimal colour codes with an
//! optional alpha channel and label, and dice-roll expressions such as `2D6+4`.
//!
//! Every entry point takes the input text and returns either the unconsumed
//! rest of the input together with the parsed value, or a [`ParseError`] that
//! says whether the caller may try another alternative.
pub mod color;
pub mod combinators;
pub mod dice;
pub mod error;
pub mod primitives;

pub use color::{hex_color, hex_rgb, hex_rgba, Color, ColorCode};
pub use combinators::{alternative, commit, optional};
pub use dice::{dice_roll, parse_modifier, signed_digits, to_signed, BasicRoll, DiceRoll};
pub use error::{ErrorKind, PResult, ParseError};
pub use primitives::{
    char_literal, decimal_digits, from_hex, hex_primary, is_hex_digit, literal, sign_char,
};
