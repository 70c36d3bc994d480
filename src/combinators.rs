use vstd::prelude::*;

use crate::error::{outcome_view, PResult, ParseError};

verus! {

/// Ordered alternation over outcomes: the first outcome unless it is a
/// recoverable mismatch, in which case the second.
pub open spec fn spec_alternative<T>(
    first: Result<(Seq<char>, T), ParseError>,
    second: Result<(Seq<char>, T), ParseError>,
) -> Result<(Seq<char>, T), ParseError> {
    match first {
        Err(ParseError::Mismatch(_)) => second,
        _ => first,
    }
}

/// Zero or one occurrence: a success gives `Some`, a recoverable mismatch gives
/// `None` with `input` unconsumed, and a failure stays a failure.
pub open spec fn spec_optional<T>(
    input: Seq<char>,
    outcome: Result<(Seq<char>, T), ParseError>,
) -> Result<(Seq<char>, Option<T>), ParseError> {
    match outcome {
        Ok((rest, v)) => Ok((rest, Some(v))),
        Err(ParseError::Mismatch(_)) => Ok((input, None)),
        Err(ParseError::Failure(k)) => Err(ParseError::Failure(k)),
    }
}

/// Commitment: a recoverable mismatch becomes a failure, so that no
/// alternative is tried once the input has committed to a branch.
pub open spec fn spec_commit<T>(outcome: Result<(Seq<char>, T), ParseError>) -> Result<
    (Seq<char>, T),
    ParseError,
> {
    match outcome {
        Err(ParseError::Mismatch(k)) => Err(ParseError::Failure(k)),
        _ => outcome,
    }
}

/// Runs `first` on `input`; only when it reports a recoverable mismatch runs
/// `second` on the same, unconsumed `input`.
///
/// The order is the contract: where both parsers can match, the one given
/// first wins, so a longer or more specific form must be given before a
/// shorter one that would otherwise shadow it.
pub fn alternative<'a, T, F1, F2>(first: F1, second: F2, input: &'a str) -> (r: PResult<'a, T>) where
    F1: FnOnce(&'a str) -> PResult<'a, T>,
    F2: FnOnce(&'a str) -> PResult<'a, T>,

    requires
        first.requires((input,)),
        second.requires((input,)),
    ensures
        exists|r1: PResult<'a, T>|
            #![trigger first.ensures((input,), r1)]
            first.ensures((input,), r1) && match r1 {
                Err(ParseError::Mismatch(_)) => second.ensures((input,), r),
                _ => r == r1,
            },
{
    let r1 = first(input);
    match r1 {
        Err(ParseError::Mismatch(_)) => second(input),
        _ => r1,
    }
}

/// Runs `p` on `input` as an optional part: see [`spec_optional`].
pub fn optional<'a, T, F>(p: F, input: &'a str) -> (r: PResult<'a, Option<T>>) where
    F: FnOnce(&'a str) -> PResult<'a, T>,

    requires
        p.requires((input,)),
    ensures
        exists|r1: PResult<'a, T>|
            #![trigger p.ensures((input,), r1)]
            p.ensures((input,), r1) && r == match r1 {
                Ok((rest, v)) => Ok((rest, Some(v))),
                Err(ParseError::Mismatch(_)) => Ok((input, None)),
                Err(ParseError::Failure(k)) => Err(ParseError::Failure(k)),
            },
{
    match p(input) {
        Ok((rest, v)) => Ok((rest, Some(v))),
        Err(ParseError::Mismatch(_)) => Ok((input, None)),
        Err(ParseError::Failure(k)) => Err(ParseError::Failure(k)),
    }
}

/// Marks the point after which the input has committed to a branch: see
/// [`spec_commit`].
pub fn commit<'a, T>(outcome: PResult<'a, T>) -> (r: PResult<'a, T>)
    ensures
        outcome_view(r) == spec_commit(outcome_view(outcome)),
{
    match outcome {
        Err(ParseError::Mismatch(k)) => Err(ParseError::Failure(k)),
        _ => outcome,
    }
}

} // verus!
