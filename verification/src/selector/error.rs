use vstd::prelude::*;
use std::num::ParseIntError;

verus! {

#[verifier::external_type_specification]
#[verifier::external_body]
pub struct ExParseIntError(ParseIntError);

/// Why a selector string could not be split into tokens.
#[derive(Debug, PartialEq)]
pub enum LexingError {
    /// An integer literal that does not fit in an `i32`.
    InvalidInteger(ParseIntError),
    /// Any other character sequence that starts no token.
    Other,
}

/// Why a selector string could not be turned into a [`crate::selector::ast::Selector`].
#[derive(Debug)]
pub enum SelectorParseError {
    Lexing(LexingError),
    Parse(String),
}

/// The text that `ParseIntError` displays (`ToString::to_string`).
#[verifier::external_body]
fn parse_int_error_text(e: &ParseIntError) -> String {
    e.to_string()
}

/// What the message of a lexing error says: `Invalid integer: ` followed by the
/// standard library's reason, or `Default error`.
pub open spec fn lexing_message(e: LexingError, m: Seq<char>) -> bool {
    match e {
        LexingError::InvalidInteger(_) => m.len() >= 17 && m.take(17) == "Invalid integer: "@,
        LexingError::Other => m == "Default error"@,
    }
}

impl LexingError {
    /// The error message: `Invalid integer: <reason>` or `Default error`.
    pub fn to_string(&self) -> (s: String)
        ensures
            lexing_message(*self, s@),
    {
        match self {
            LexingError::InvalidInteger(e) => {
                let mut s = String::from_str("Invalid integer: ");
                let detail = parse_int_error_text(e);
                proof { reveal_strlit("Invalid integer: "); }
                let ghost prefix = s@;
                s.append(detail.as_str());
                assert(s@.take(17) =~= prefix);
                s
            },
            LexingError::Other => String::from_str("Default error"),
        }
    }
}

impl Default for LexingError {
    fn default() -> (r: Self)
        ensures
            r == LexingError::Other,
    {
        LexingError::Other
    }
}

impl From<ParseIntError> for LexingError {
    fn from(e: ParseIntError) -> (r: Self) {
        LexingError::InvalidInteger(e)
    }
}

impl vstd::std_specs::convert::FromSpecImpl<ParseIntError> for LexingError {
    open spec fn obeys_from_spec() -> bool {
        true
    }

    open spec fn from_spec(e: ParseIntError) -> Self {
        LexingError::InvalidInteger(e)
    }
}

impl From<LexingError> for SelectorParseError {
    fn from(e: LexingError) -> (r: Self) {
        SelectorParseError::Lexing(e)
    }
}

impl vstd::std_specs::convert::FromSpecImpl<LexingError> for SelectorParseError {
    open spec fn obeys_from_spec() -> bool {
        true
    }

    open spec fn from_spec(e: LexingError) -> Self {
        SelectorParseError::Lexing(e)
    }
}

/// What the message of a selector error says: `Lexing error: ` and the lexing
/// error's message, or `Parse error: ` and the parser's reason.
pub open spec fn parse_error_message(e: SelectorParseError, s: Seq<char>) -> bool {
    match e {
        SelectorParseError::Lexing(e) => s.len() >= 14 && s.take(14) == "Lexing error: "@
            && lexing_message(e, s.skip(14)),
        SelectorParseError::Parse(m) => s == "Parse error: "@ + m@,
    }
}

impl SelectorParseError {
    /// The error message: `Lexing error: <lexing error>` or `Parse error: <reason>`.
    pub fn to_string(&self) -> (s: String)
        ensures
            parse_error_message(*self, s@),
    {
        match self {
            SelectorParseError::Lexing(e) => {
                let mut s = String::from_str("Lexing error: ");
                proof { reveal_strlit("Lexing error: "); }
                let inner = e.to_string();
                let ghost prefix = s@;
                s.append(inner.as_str());
                assert(s@.take(14) =~= prefix);
                assert(s@.skip(14) =~= inner@);
                s
            },
            SelectorParseError::Parse(m) => {
                let mut s = String::from_str("Parse error: ");
                s.append(m.as_str());
                s
            },
        }
    }
}

} // verus!
