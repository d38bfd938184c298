use vstd::prelude::*;
use std::num::ParseIntError;

use crate::selector::error::LexingError;
use crate::text::{chars_of, string_of_range};

verus! {

/// A token of the selector language.
#[derive(Debug, Clone, PartialEq)]
pub enum Token {
    Comma,
    Plus,
    Tilde,
    Dot,
    Colon,
    Star,
    LBracket,
    RBracket,
    LParen,
    RParen,
    Eq,
    TildeEq,
    CaretEq,
    DolarEq,
    StarEq,
    EqEq,
    Ne,
    Le,
    Ge,
    Lt,
    Gt,
    Int(i32),
    String(String),
    Whitespace,
    Ident(String),
}

/// The mathematical value of a [`Token`]: strings become character sequences.
pub enum TokenV {
    Comma,
    Plus,
    Tilde,
    Dot,
    Colon,
    Star,
    LBracket,
    RBracket,
    LParen,
    RParen,
    Eq,
    TildeEq,
    CaretEq,
    DolarEq,
    StarEq,
    EqEq,
    Ne,
    Le,
    Ge,
    Lt,
    Gt,
    Int(i32),
    Str(Seq<char>),
    Whitespace,
    Ident(Seq<char>),
}

pub open spec fn view_token(t: Token) -> TokenV {
    match t {
        Token::Comma => TokenV::Comma,
        Token::Plus => TokenV::Plus,
        Token::Tilde => TokenV::Tilde,
        Token::Dot => TokenV::Dot,
        Token::Colon => TokenV::Colon,
        Token::Star => TokenV::Star,
        Token::LBracket => TokenV::LBracket,
        Token::RBracket => TokenV::RBracket,
        Token::LParen => TokenV::LParen,
        Token::RParen => TokenV::RParen,
        Token::Eq => TokenV::Eq,
        Token::TildeEq => TokenV::TildeEq,
        Token::CaretEq => TokenV::CaretEq,
        Token::DolarEq => TokenV::DolarEq,
        Token::StarEq => TokenV::StarEq,
        Token::EqEq => TokenV::EqEq,
        Token::Ne => TokenV::Ne,
        Token::Le => TokenV::Le,
        Token::Ge => TokenV::Ge,
        Token::Lt => TokenV::Lt,
        Token::Gt => TokenV::Gt,
        Token::Int(i) => TokenV::Int(i),
        Token::String(s) => TokenV::Str(s@),
        Token::Whitespace => TokenV::Whitespace,
        Token::Ident(s) => TokenV::Ident(s@),
    }
}

impl View for Token {
    type V = TokenV;

    open spec fn view(&self) -> TokenV {
        view_token(*self)
    }
}

pub open spec fn view_tokens(v: Seq<Token>) -> Seq<TokenV> {
    v.map_values(|t: Token| view_token(t))
}

// ---------------------------------------------------------------------------
// Character classes

pub open spec fn is_ws_char(c: char) -> bool {
    c == ' ' || c == '\t' || c == '\r' || c == '\n'
}

pub open spec fn is_digit_char(c: char) -> bool {
    '0' <= c && c <= '9'
}

pub open spec fn is_ident_start(c: char) -> bool {
    ('a' <= c && c <= 'z') || ('A' <= c && c <= 'Z') || c == '_'
}

pub open spec fn is_ident_char(c: char) -> bool {
    is_ident_start(c) || is_digit_char(c) || c == '-'
}

/// End of the run of whitespace characters that starts at `i`.
pub open spec fn ws_end(s: Seq<char>, i: int) -> int
    decreases s.len() - i,
{
    if 0 <= i < s.len() && is_ws_char(s[i]) {
        ws_end(s, i + 1)
    } else {
        i
    }
}

/// End of the run of digits that starts at `i`.
pub open spec fn digits_end(s: Seq<char>, i: int) -> int
    decreases s.len() - i,
{
    if 0 <= i < s.len() && is_digit_char(s[i]) {
        digits_end(s, i + 1)
    } else {
        i
    }
}

/// End of the run of identifier characters that starts at `i`.
pub open spec fn ident_end(s: Seq<char>, i: int) -> int
    decreases s.len() - i,
{
    if 0 <= i < s.len() && is_ident_char(s[i]) {
        ident_end(s, i + 1)
    } else {
        i
    }
}

/// Index just past the closing `quote` of a string literal whose body starts at `i`;
/// a backslash escapes the next character unless that is a newline.
pub open spec fn string_end(s: Seq<char>, i: int, quote: char) -> Option<int>
    decreases s.len() - i,
{
    if i < 0 || i >= s.len() {
        None
    } else if s[i] == quote {
        Some(i + 1)
    } else if s[i] == '\\' {
        if i + 1 < s.len() && s[i + 1] != '\n' {
            string_end(s, i + 2, quote)
        } else {
            None
        }
    } else {
        string_end(s, i + 1, quote)
    }
}

/// Decimal value of a sequence of digits.
pub open spec fn digits_value(d: Seq<char>) -> int
    decreases d.len(),
{
    if d.len() == 0 {
        0
    } else {
        digits_value(d.drop_last()) * 10 + (d.last() as int - '0' as int)
    }
}

/// `-?[0-9]+`
pub open spec fn is_int_literal(t: Seq<char>) -> bool {
    let d = if t.len() > 0 && t[0] == '-' { t.drop_first() } else { t };
    d.len() > 0 && forall|k: int| 0 <= k < d.len() ==> is_digit_char(#[trigger] d[k])
}

/// Value of an integer literal `-?[0-9]+`.
pub open spec fn int_literal_value(t: Seq<char>) -> int {
    if t.len() > 0 && t[0] == '-' {
        -digits_value(t.drop_first())
    } else {
        digits_value(t)
    }
}

pub open spec fn fits_i32(v: int) -> bool {
    i32::MIN <= v <= i32::MAX
}

// ---------------------------------------------------------------------------
// One lexing step

/// What the lexer finds at a position: a token ending at `end`, an integer literal
/// out of the `i32` range, or a character sequence that starts no token.
pub enum LexStep {
    Tok(TokenV, int),
    BadInt,
    Bad,
}

pub open spec fn int_step(s: Seq<char>, i: int, e: int) -> LexStep {
    let v = int_literal_value(s.subrange(i, e));
    if fits_i32(v) {
        LexStep::Tok(TokenV::Int(v as i32), e)
    } else {
        LexStep::BadInt
    }
}

pub open spec fn next_is_eq(s: Seq<char>, i: int) -> bool {
    i + 1 < s.len() && s[i + 1] == '='
}

/// The longest token that starts at `i` (0 <= i < s.len()).
pub open spec fn lex_step(s: Seq<char>, i: int) -> LexStep {
    let c = s[i];
    if is_ws_char(c) {
        LexStep::Tok(TokenV::Whitespace, ws_end(s, i))
    } else if c == ',' {
        LexStep::Tok(TokenV::Comma, i + 1)
    } else if c == '+' {
        LexStep::Tok(TokenV::Plus, i + 1)
    } else if c == '.' {
        LexStep::Tok(TokenV::Dot, i + 1)
    } else if c == ':' {
        LexStep::Tok(TokenV::Colon, i + 1)
    } else if c == '[' {
        LexStep::Tok(TokenV::LBracket, i + 1)
    } else if c == ']' {
        LexStep::Tok(TokenV::RBracket, i + 1)
    } else if c == '(' {
        LexStep::Tok(TokenV::LParen, i + 1)
    } else if c == ')' {
        LexStep::Tok(TokenV::RParen, i + 1)
    } else if c == '~' {
        if next_is_eq(s, i) { LexStep::Tok(TokenV::TildeEq, i + 2) } else { LexStep::Tok(TokenV::Tilde, i + 1) }
    } else if c == '*' {
        if next_is_eq(s, i) { LexStep::Tok(TokenV::StarEq, i + 2) } else { LexStep::Tok(TokenV::Star, i + 1) }
    } else if c == '=' {
        if next_is_eq(s, i) { LexStep::Tok(TokenV::EqEq, i + 2) } else { LexStep::Tok(TokenV::Eq, i + 1) }
    } else if c == '<' {
        if next_is_eq(s, i) { LexStep::Tok(TokenV::Le, i + 2) } else { LexStep::Tok(TokenV::Lt, i + 1) }
    } else if c == '>' {
        if next_is_eq(s, i) { LexStep::Tok(TokenV::Ge, i + 2) } else { LexStep::Tok(TokenV::Gt, i + 1) }
    } else if c == '^' {
        if next_is_eq(s, i) { LexStep::Tok(TokenV::CaretEq, i + 2) } else { LexStep::Bad }
    } else if c == '$' {
        if next_is_eq(s, i) { LexStep::Tok(TokenV::DolarEq, i + 2) } else { LexStep::Bad }
    } else if c == '!' {
        if next_is_eq(s, i) { LexStep::Tok(TokenV::Ne, i + 2) } else { LexStep::Bad }
    } else if c == '-' {
        if i + 1 < s.len() && is_digit_char(s[i + 1]) {
            int_step(s, i, digits_end(s, i + 1))
        } else {
            LexStep::Bad
        }
    } else if is_digit_char(c) {
        int_step(s, i, digits_end(s, i))
    } else if c == '"' || c == '\'' {
        match string_end(s, i + 1, c) {
            Some(e) => LexStep::Tok(TokenV::Str(s.subrange(i, e)), e),
            None => LexStep::Bad,
        }
    } else if is_ident_start(c) {
        let e = ident_end(s, i + 1);
        LexStep::Tok(TokenV::Ident(s.subrange(i, e)), e)
    } else {
        LexStep::Bad
    }
}

/// The outcome of splitting a whole input into tokens.
pub enum LexResult {
    Tokens(Seq<TokenV>),
    InvalidInteger,
    Other,
}

/// Longest-match tokenization of `s` from position `i` on.
pub open spec fn lex_from(s: Seq<char>, i: int) -> LexResult
    decreases s.len() - i,
{
    if i < 0 || i >= s.len() {
        LexResult::Tokens(seq![])
    } else {
        match lex_step(s, i) {
            LexStep::Tok(t, e) => if i < e <= s.len() {
                match lex_from(s, e) {
                    LexResult::Tokens(rest) => LexResult::Tokens(seq![t] + rest),
                    other => other,
                }
            } else {
                LexResult::Other
            },
            LexStep::BadInt => LexResult::InvalidInteger,
            LexStep::Bad => LexResult::Other,
        }
    }
}

pub open spec fn spec_lex(s: Seq<char>) -> LexResult {
    lex_from(s, 0)
}

/// Whether an exec lexing result agrees with the specification.
pub open spec fn lex_matches(r: Result<Vec<Token>, LexingError>, spec: LexResult) -> bool {
    match (r, spec) {
        (Ok(v), LexResult::Tokens(t)) => view_tokens(v@) == t,
        (Err(LexingError::InvalidInteger(_)), LexResult::InvalidInteger) => true,
        (Err(LexingError::Other), LexResult::Other) => true,
        _ => false,
    }
}

proof fn lemma_ws_end_ge(s: Seq<char>, i: int)
    ensures
        ws_end(s, i) >= i,
    decreases s.len() - i,
{
    if 0 <= i < s.len() && is_ws_char(s[i]) {
        lemma_ws_end_ge(s, i + 1);
    }
}

// ---------------------------------------------------------------------------
// Executable lexer

/// `str::parse::<i32>` on an integer literal `-?[0-9]+`: the value when it fits in
/// an `i32`, and the standard library's overflow error otherwise.
#[verifier::external_body]
fn parse_i32(s: &str) -> (r: Result<i32, ParseIntError>)
    requires
        is_int_literal(s@),
    ensures
        r is Ok <==> fits_i32(int_literal_value(s@)),
        r matches Ok(v) ==> v as int == int_literal_value(s@),
{
    s.parse::<i32>()
}

fn scan_ws(v: &Vec<char>, i: usize) -> (e: usize)
    requires
        i <= v@.len(),
    ensures
        e as int == ws_end(v@, i as int),
        i <= e <= v@.len(),
{
    let mut k = i;
    while k < v.len() && (v[k] == ' ' || v[k] == '\t' || v[k] == '\r' || v[k] == '\n')
        invariant
            i <= k <= v@.len(),
            ws_end(v@, i as int) == ws_end(v@, k as int),
        decreases v@.len() - k,
    {
        k += 1;
    }
    k
}

fn scan_digits(v: &Vec<char>, i: usize) -> (e: usize)
    requires
        i <= v@.len(),
    ensures
        e as int == digits_end(v@, i as int),
        i <= e <= v@.len(),
        forall|j: int| i <= j < e ==> is_digit_char(#[trigger] v@[j]),
        (i < v@.len() && is_digit_char(v@[i as int])) ==> e > i,
{
    let mut k = i;
    while k < v.len() && ('0' <= v[k] && v[k] <= '9')
        invariant
            i <= k <= v@.len(),
            digits_end(v@, i as int) == digits_end(v@, k as int),
            forall|j: int| i <= j < k ==> is_digit_char(#[trigger] v@[j]),
        decreases v@.len() - k,
    {
        k += 1;
    }
    k
}

fn is_ident_start_exec(c: char) -> (r: bool)
    ensures
        r == is_ident_start(c),
{
    ('a' <= c && c <= 'z') || ('A' <= c && c <= 'Z') || c == '_'
}

fn scan_ident(v: &Vec<char>, i: usize) -> (e: usize)
    requires
        i <= v@.len(),
    ensures
        e as int == ident_end(v@, i as int),
        i <= e <= v@.len(),
{
    let mut k = i;
    while k < v.len() && (is_ident_start_exec(v[k]) || ('0' <= v[k] && v[k] <= '9') || v[k] == '-')
        invariant
            i <= k <= v@.len(),
            ident_end(v@, i as int) == ident_end(v@, k as int),
        decreases v@.len() - k,
    {
        k += 1;
    }
    k
}

fn scan_string(v: &Vec<char>, i: usize, quote: char) -> (r: Option<usize>)
    requires
        i <= v@.len(),
    ensures
        match r {
            Some(e) => string_end(v@, i as int, quote) == Some(e as int) && i < e <= v@.len(),
            None => string_end(v@, i as int, quote) is None,
        },
{
    let mut k = i;
    while k < v.len()
        invariant
            i <= k <= v@.len(),
            string_end(v@, i as int, quote) == string_end(v@, k as int, quote),
        decreases v@.len() - k,
    {
        if v[k] == quote {
            return Some(k + 1);
        } else if v[k] == '\\' {
            if k + 1 < v.len() && v[k + 1] != '\n' {
                k += 2;
            } else {
                return None;
            }
        } else {
            k += 1;
        }
    }
    None
}

fn int_token(v: &Vec<char>, i: usize, e: usize) -> (r: Result<(Token, usize), LexingError>)
    requires
        i < e <= v@.len(),
        is_int_literal(v@.subrange(i as int, e as int)),
    ensures
        match (r, int_step(v@, i as int, e as int)) {
            (Ok((t, k)), LexStep::Tok(tv, ke)) => view_token(t) == tv && k == ke,
            (Err(LexingError::InvalidInteger(_)), LexStep::BadInt) => true,
            _ => false,
        },
{
    let text = string_of_range(v, i, e);
    match parse_i32(text.as_str()) {
        Ok(n) => Ok((Token::Int(n), e)),
        Err(err) => Err(LexingError::InvalidInteger(err)),
    }
}

/// Exec counterpart of [`lex_step`].
fn lex_one(v: &Vec<char>, i: usize) -> (r: Result<(Token, usize), LexingError>)
    requires
        i < v@.len(),
    ensures
        match (r, lex_step(v@, i as int)) {
            (Ok((t, k)), LexStep::Tok(tv, ke)) => view_token(t) == tv && k == ke && i < k <= v@.len(),
            (Err(LexingError::InvalidInteger(_)), LexStep::BadInt) => true,
            (Err(LexingError::Other), LexStep::Bad) => true,
            _ => false,
        },
{
    let c = v[i];
    let next_eq = v.len() - i > 1 && v[i + 1] == '=';
    assert(next_eq == next_is_eq(v@, i as int));
    if c == ' ' || c == '\t' || c == '\r' || c == '\n' {
        let e = scan_ws(v, i);
        proof { lemma_ws_end_ge(v@, i + 1); }
        Ok((Token::Whitespace, e))
    } else if c == ',' {
        Ok((Token::Comma, i + 1))
    } else if c == '+' {
        Ok((Token::Plus, i + 1))
    } else if c == '.' {
        Ok((Token::Dot, i + 1))
    } else if c == ':' {
        Ok((Token::Colon, i + 1))
    } else if c == '[' {
        Ok((Token::LBracket, i + 1))
    } else if c == ']' {
        Ok((Token::RBracket, i + 1))
    } else if c == '(' {
        Ok((Token::LParen, i + 1))
    } else if c == ')' {
        Ok((Token::RParen, i + 1))
    } else if c == '~' {
        if next_eq { Ok((Token::TildeEq, i + 2)) } else { Ok((Token::Tilde, i + 1)) }
    } else if c == '*' {
        if next_eq { Ok((Token::StarEq, i + 2)) } else { Ok((Token::Star, i + 1)) }
    } else if c == '=' {
        if next_eq { Ok((Token::EqEq, i + 2)) } else { Ok((Token::Eq, i + 1)) }
    } else if c == '<' {
        if next_eq { Ok((Token::Le, i + 2)) } else { Ok((Token::Lt, i + 1)) }
    } else if c == '>' {
        if next_eq { Ok((Token::Ge, i + 2)) } else { Ok((Token::Gt, i + 1)) }
    } else if c == '^' {
        if next_eq { Ok((Token::CaretEq, i + 2)) } else { Err(LexingError::Other) }
    } else if c == '$' {
        if next_eq { Ok((Token::DolarEq, i + 2)) } else { Err(LexingError::Other) }
    } else if c == '!' {
        if next_eq { Ok((Token::Ne, i + 2)) } else { Err(LexingError::Other) }
    } else if c == '-' {
        if i + 1 < v.len() && '0' <= v[i + 1] && v[i + 1] <= '9' {
            let e = scan_digits(v, i + 1);
            proof {
                let t = v@.subrange(i as int, e as int);
                assert(t.drop_first() =~= v@.subrange(i + 1, e as int));
                assert(is_int_literal(t));
            }
            int_token(v, i, e)
        } else {
            Err(LexingError::Other)
        }
    } else if '0' <= c && c <= '9' {
        let e = scan_digits(v, i);
        proof {
            let t = v@.subrange(i as int, e as int);
            assert(forall|k: int| 0 <= k < t.len() ==> t[k] == v@[i + k]);
            assert(is_int_literal(t));
        }
        int_token(v, i, e)
    } else if c == '"' || c == '\'' {
        match scan_string(v, i + 1, c) {
            Some(e) => {
                let text = string_of_range(v, i, e);
                Ok((Token::String(text), e))
            }
            None => Err(LexingError::Other),
        }
    } else if is_ident_start_exec(c) {
        let e = scan_ident(v, i + 1);
        let text = string_of_range(v, i, e);
        Ok((Token::Ident(text), e))
    } else {
        Err(LexingError::Other)
    }
}

pub open spec fn prepend_tokens(t: Seq<TokenV>, r: LexResult) -> LexResult {
    match r {
        LexResult::Tokens(rest) => LexResult::Tokens(t + rest),
        other => other,
    }
}

/// Splits a selector string into tokens, taking the longest token at each position.
///
/// Fails with `InvalidInteger` on an integer literal outside the `i32` range, and with
/// `Other` on any character sequence that starts no token.
pub fn lex(input: &str) -> (r: Result<Vec<Token>, LexingError>)
    ensures
        lex_matches(r, spec_lex(input@)),
{
    let v = chars_of(input);
    let mut out: Vec<Token> = Vec::new();
    let mut i: usize = 0;
    assert(view_tokens(out@) =~= seq![]);
    assert(prepend_tokens(seq![], lex_from(v@, 0)) == lex_from(v@, 0));
    while i < v.len()
        invariant
            i <= v@.len(),
            v@ == input@,
            spec_lex(v@) == prepend_tokens(view_tokens(out@), lex_from(v@, i as int)),
        decreases v@.len() - i,
    {
        match lex_one(&v, i) {
            Ok((t, e)) => {
                let ghost old_out = out@;
                out.push(t);
                proof {
                    assert(view_tokens(out@) =~= view_tokens(old_out) + seq![view_token(t)]);
                    let r = lex_from(v@, e as int);
                    match r {
                        LexResult::Tokens(rest) => {
                            assert(view_tokens(old_out) + (seq![view_token(t)] + rest)
                                =~= (view_tokens(old_out) + seq![view_token(t)]) + rest);
                        }
                        _ => {}
                    }
                }
                i = e;
            }
            Err(err) => {
                return Err(err);
            }
        }
    }
    assert(view_tokens(out@) + seq![] =~= view_tokens(out@));
    Ok(out)
}

} // verus!
