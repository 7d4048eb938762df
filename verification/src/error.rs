//! Diagnostics. Every failure is a structured value carrying what went
//! wrong and where, so the caller can attach it to the offending place in
//! its input; nothing here aborts or prints.

use vstd::prelude::*;

verus! {

/// What a malformed invocation was missing or holding wrongly.
#[derive(Clone, Copy, Debug, PartialEq, Eq, Structural)]
pub enum ParseErrorKind {
    /// The bound name at the head of the invocation is not an identifier.
    ExpectedName,
    /// The keyword between the name and the range is missing.
    ExpectedIn,
    /// The two-dot range operator is missing or incomplete.
    ExpectedRangeOp,
    /// A range bound is not an integer literal.
    ExpectedBound,
    /// The inclusive upper bound cannot be represented (it is the largest
    /// 64-bit value, so adding one overflows).
    BoundOverflow,
    /// The delimited body after the range is missing.
    ExpectedBody,
    /// Tokens follow the body.
    TrailingTokens,
}

/// A malformed invocation, with the index of the offending token.
#[derive(Clone, Copy, Debug, PartialEq, Eq, Structural)]
pub struct ParseError {
    pub kind: ParseErrorKind,
    /// Index of the offending token in the invocation's token sequence.
    pub at: usize,
}

/// A well-formed but semantically invalid request.
#[derive(Clone, Copy, Debug, PartialEq, Eq, Structural)]
pub enum SemanticError {
    /// An enum asked to act as a specifier has a variant count that is not
    /// an exact power of two; carries that count.
    NonPowerOfTwoVariants { count: u64 },
    /// A field's specifier type is absent from the bindings; carries the
    /// field's index.
    UnknownSpecifier { field: usize },
    /// The field widths sum to a total that is not a multiple of eight;
    /// carries that total.
    TotalSizeNotMultipleOfEight { total_bits: u64 },
}

/// The text of a parse diagnostic.
pub open spec fn spec_parse_message(kind: ParseErrorKind) -> Seq<char> {
    match kind {
        ParseErrorKind::ExpectedName => "expected an identifier to bind"@,
        ParseErrorKind::ExpectedIn => "expected `in` after the bound name"@,
        ParseErrorKind::ExpectedRangeOp => "expected `..` between the range bounds"@,
        ParseErrorKind::ExpectedBound => "expected an integer literal bound"@,
        ParseErrorKind::BoundOverflow => "inclusive upper bound is too large"@,
        ParseErrorKind::ExpectedBody => "expected a delimited body after the range"@,
        ParseErrorKind::TrailingTokens => "unexpected tokens after the body"@,
    }
}

/// The text of a semantic diagnostic.
pub open spec fn spec_semantic_message(err: SemanticError) -> Seq<char> {
    match err {
        SemanticError::NonPowerOfTwoVariants { .. } => {
            "expected a number of variants which is a power of 2"@
        },
        SemanticError::UnknownSpecifier { .. } => "field type is not a known specifier"@,
        SemanticError::TotalSizeNotMultipleOfEight { .. } => {
            "total bit width is not a multiple of 8 bits"@
        },
    }
}

impl ParseError {
    /// The human-readable half of the diagnostic.
    pub fn message(&self) -> (m: &'static str)
        ensures
            m@ == spec_parse_message(self.kind),
    {
        match self.kind {
            ParseErrorKind::ExpectedName => "expected an identifier to bind",
            ParseErrorKind::ExpectedIn => "expected `in` after the bound name",
            ParseErrorKind::ExpectedRangeOp => "expected `..` between the range bounds",
            ParseErrorKind::ExpectedBound => "expected an integer literal bound",
            ParseErrorKind::BoundOverflow => "inclusive upper bound is too large",
            ParseErrorKind::ExpectedBody => "expected a delimited body after the range",
            ParseErrorKind::TrailingTokens => "unexpected tokens after the body",
        }
    }
}

impl SemanticError {
    /// The human-readable half of the diagnostic.
    pub fn message(&self) -> (m: &'static str)
        ensures
            m@ == spec_semantic_message(*self),
    {
        match *self {
            SemanticError::NonPowerOfTwoVariants { .. } => {
                "expected a number of variants which is a power of 2"
            },
            SemanticError::UnknownSpecifier { .. } => "field type is not a known specifier",
            SemanticError::TotalSizeNotMultipleOfEight { .. } => {
                "total bit width is not a multiple of 8 bits"
            },
        }
    }
}

} // verus!
