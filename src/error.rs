use vstd::prelude::*;

verus! {

/// What a parser was looking for when it stopped.
#[derive(Debug, Clone, Copy, PartialEq, Eq, Structural)]
pub enum ErrorKind {
    /// A fixed text such as `#` or `color`.
    Tag,
    /// A group of two hexadecimal digits.
    HexDigit,
    /// A run of decimal digits.
    Digit,
    /// One given character, such as `D`.
    Char,
    /// One character out of a set, such as `+` or `-`.
    OneOf,
    /// A number that does not fit its target width.
    Overflow,
}

/// Why a parse did not succeed.
///
/// Input is always taken as complete: where more characters would be needed
/// to decide, the parser reports a mismatch.
#[derive(Debug, Clone, Copy, PartialEq, Eq, Structural)]
pub enum ParseError {
    /// The parser did not match here; an alternative may be tried.
    Mismatch(ErrorKind),
    /// The input committed to this branch and then could not be completed, or a
    /// matched number did not fit: no alternative should be tried.
    Failure(ErrorKind),
}

/// The outcome of running a parser: the unconsumed input and the value, or an error.
pub type PResult<'a, T> = Result<(&'a str, T), ParseError>;

/// An outcome with the remaining input seen as its characters.
pub open spec fn outcome_view<T>(r: PResult<'_, T>) -> Result<(Seq<char>, T), ParseError> {
    match r {
        Ok((rest, v)) => Ok((rest@, v)),
        Err(e) => Err(e),
    }
}

} // verus!
