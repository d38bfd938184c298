use vstd::prelude::*;

use crate::selector::ast::{view_selector, Selector};
use crate::selector::error::{LexingError, SelectorParseError};
use crate::selector::grammar::{parse_error_text, parse_spec};
use crate::selector::lexer::{
    lex, lex_from, lex_matches, lex_step, spec_lex, string_end, LexResult, LexStep, TokenV,
    view_tokens,
};
use crate::selector::parser::{parser, tokens_wf};
use crate::text::str_to_string;

verus! {

/// A selector string, as clients write it.
#[derive(Debug)]
pub struct Locator {
    pub selector: String,
}

proof fn lemma_string_end(s: Seq<char>, i: int, q: char)
    ensures
        string_end(s, i, q) matches Some(e) ==> e > i,
    decreases s.len() - i,
{
    if 0 <= i < s.len() && s[i] != q {
        if s[i] == '\\' {
            if i + 1 < s.len() && s[i + 1] != '\n' {
                lemma_string_end(s, i + 2, q);
            }
        } else {
            lemma_string_end(s, i + 1, q);
        }
    }
}

/// Every string token that the lexer yields keeps its two quotes.
proof fn lemma_lex_wf(s: Seq<char>, i: int)
    ensures
        lex_from(s, i) matches LexResult::Tokens(t) ==> tokens_wf(t),
    decreases s.len() - i,
{
    if 0 <= i < s.len() {
        match lex_step(s, i) {
            LexStep::Tok(t, e) => {
                if i < e <= s.len() {
                    lemma_lex_wf(s, e);
                    let c = s[i];
                    if c == '"' || c == '\'' {
                        lemma_string_end(s, i + 1, c);
                    }
                    match lex_from(s, e) {
                        LexResult::Tokens(rest) => {
                            let all = seq![t] + rest;
                            assert forall|k: int| 0 <= k < all.len() implies (#[trigger] all[k] matches TokenV::Str(raw) ==> raw.len() >= 2) by {
                                if k > 0 {
                                    assert(all[k] == rest[k - 1]);
                                }
                            }
                        },
                        _ => {},
                    }
                }
            },
            _ => {},
        }
    }
}

/// What [`Locator::parse`] owes for a selector string: the lexer's verdict, then the
/// parser's.
pub open spec fn parse_outcome(src: Seq<char>, r: Result<Selector, SelectorParseError>) -> bool {
    match spec_lex(src) {
        LexResult::Tokens(t) => match r {
            Ok(s) => parse_spec(t) == Some(view_selector(s)),
            Err(SelectorParseError::Parse(m)) => parse_spec(t) is None && m@ == parse_error_text(t),
            Err(SelectorParseError::Lexing(_)) => false,
        },
        LexResult::InvalidInteger => r matches Err(SelectorParseError::Lexing(LexingError::InvalidInteger(_))),
        LexResult::Other => r matches Err(SelectorParseError::Lexing(LexingError::Other)),
    }
}

impl Locator {
    pub fn new(selector: &str) -> (r: Self)
        ensures
            r.selector@ == selector@,
    {
        Locator { selector: str_to_string(selector) }
    }

    /// Tokenizes the selector string and parses the tokens.
    pub fn parse(&self) -> (r: Result<Selector, SelectorParseError>)
        ensures
            parse_outcome(self.selector@, r),
    {
        let tokens = match lex(self.selector.as_str()) {
            Ok(t) => t,
            Err(e) => { return Err(SelectorParseError::Lexing(e)); },
        };
        proof { lemma_lex_wf(self.selector@, 0); }
        match parser(&tokens) {
            Ok(s) => Ok(s),
            Err(m) => Err(SelectorParseError::Parse(m)),
        }
    }
}

} // verus!
