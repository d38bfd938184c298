//! Reading back the text of a selector: the canonical text of a test lexes and
//! parses to the test it was written from.
use vstd::prelude::*;

use crate::selector::ast::{AttrFlags, Combinator, PseudoV, AttrV, BoolAttrName, IntAttrName, IntOp, MatcherV, StrAttrName, StringOp};
use crate::selector::display::{
    attr_text, combinator_text, pseudo_text, bool_attr_name_text, digit_char, escape_quotes, int_attr_name_text, int_op_text, int_text, matcher_text,
    nat_text, str_attr_name_text, string_op_text,
};
use crate::selector::grammar::{
    bool_attr_name, int_attr_name, int_op_of, p_attr, p_combinator, p_ident_arg, p_int_arg, p_pseudo, p_bool_attr, p_int_attr, p_str_attr, skip_ws, str_attr_name,
    string_op_of, string_value, tok, unescape, valid_flags,
};
use crate::pattern::regex_compiles;
use crate::selector::lexer::{
    digits_end, digits_value, ident_end, int_literal_value, is_digit_char, is_ident_char, is_ident_start,
    is_ws_char, lex_from, lex_step, spec_lex, string_end, ws_end, LexResult, LexStep, TokenV,
};

verus! {

proof fn lemma_ident_end(s: Seq<char>, i: int, e: int)
    requires
        0 <= i <= e <= s.len(),
        forall|k: int| i <= k < e ==> is_ident_char(#[trigger] s[k]),
        e == s.len() || !is_ident_char(s[e]),
    ensures
        ident_end(s, i) == e,
    decreases e - i,
{
    if i < e {
        lemma_ident_end(s, i + 1, e);
    }
}

proof fn lemma_digits_end(s: Seq<char>, i: int, e: int)
    requires
        0 <= i <= e <= s.len(),
        forall|k: int| i <= k < e ==> is_digit_char(#[trigger] s[k]),
        e == s.len() || !is_digit_char(s[e]),
    ensures
        digits_end(s, i) == e,
    decreases e - i,
{
    if i < e {
        lemma_digits_end(s, i + 1, e);
    }
}

proof fn lemma_digit_char(d: int)
    requires
        0 <= d < 10,
    ensures
        is_digit_char(digit_char(d)),
        digit_char(d) as int - '0' as int == d,
{
}

/// The decimal text of a natural number is one digit or more, and reads as it.
proof fn lemma_nat_text(n: nat)
    ensures
        nat_text(n).len() >= 1,
        forall|k: int| 0 <= k < nat_text(n).len() ==> is_digit_char(#[trigger] nat_text(n)[k]),
        digits_value(nat_text(n)) == n,
    decreases n,
{
    if n < 10 {
        lemma_digit_char(n as int);
        let t = nat_text(n);
        assert(t.drop_last() =~= Seq::<char>::empty());
        assert(digits_value(t) == digits_value(t.drop_last()) * 10 + (t.last() as int - '0' as int));
    } else {
        lemma_nat_text(n / 10);
        lemma_digit_char((n % 10) as int);
        let t = nat_text(n);
        assert(t.drop_last() =~= nat_text(n / 10));
        assert(t.last() == digit_char((n % 10) as int));
        assert(digits_value(t) == digits_value(t.drop_last()) * 10 + (t.last() as int - '0' as int));
        assert((n / 10) * 10 + n % 10 == n) by (nonlinear_arith);
    }
}

/// The decimal text of an integer is an integer literal of that value.
proof fn lemma_int_text(v: int)
    ensures
        int_text(v).len() >= 1,
        int_text(v)[0] == '-' || is_digit_char(int_text(v)[0]),
        int_text(v)[0] == '-' ==> int_text(v).len() >= 2 && is_digit_char(int_text(v)[1])
            && forall|k: int| 1 <= k < int_text(v).len() ==> is_digit_char(#[trigger] int_text(v)[k]),
        int_text(v)[0] != '-' ==> forall|k: int| 0 <= k < int_text(v).len() ==> is_digit_char(#[trigger] int_text(v)[k]),
        int_literal_value(int_text(v)) == v,
{
    if v < 0 {
        let n = (-v) as nat;
        lemma_nat_text(n);
        let t = int_text(v);
        assert(t.drop_first() =~= nat_text(n));
        assert forall|k: int| 1 <= k < t.len() implies is_digit_char(#[trigger] t[k]) by {
            assert(t[k] == nat_text(n)[k - 1]);
        }
    } else {
        lemma_nat_text(v as nat);
    }
}

/// An integer literal written at `i`, and not followed by a digit, is read as one
/// integer token of its value.
proof fn lemma_lex_int(s: Seq<char>, i: int, v: i32)
    requires
        0 <= i,
        i + int_text(v as int).len() <= s.len(),
        s.subrange(i, i + int_text(v as int).len()) == int_text(v as int),
        i + int_text(v as int).len() == s.len() || !is_digit_char(s[i + int_text(v as int).len()]),
    ensures
        lex_step(s, i) == LexStep::Tok(TokenV::Int(v), i + int_text(v as int).len()),
{
    let t = int_text(v as int);
    let e = i + t.len();
    lemma_int_text(v as int);
    assert forall|k: int| 0 <= k < t.len() implies s[i + k] == t[k] by {
        assert(s.subrange(i, e)[k] == s[i + k]);
    }
    if t[0] == '-' {
        assert(s[i] == '-');
        assert(s[i + 1] == t[1]);
        assert forall|k: int| i + 1 <= k < e implies is_digit_char(#[trigger] s[k]) by {
            assert(s[k] == t[k - i]);
        }
        lemma_digits_end(s, i + 1, e);
        assert(s.subrange(i, e) == t);
    } else {
        assert(s[i] == t[0]);
        assert forall|k: int| i <= k < e implies is_digit_char(#[trigger] s[k]) by {
            assert(s[k] == t[k - i]);
        }
        lemma_digits_end(s, i, e);
        assert(s.subrange(i, e) == t);
    }
}

/// The text of an integer attribute's name: an identifier that names it.
proof fn lemma_int_name(name: IntAttrName)
    ensures
        int_attr_name_text(name).len() >= 1,
        is_ident_start(int_attr_name_text(name)[0]),
        forall|k: int| 0 <= k < int_attr_name_text(name).len() ==> is_ident_char(#[trigger] int_attr_name_text(name)[k]),
        int_attr_name(int_attr_name_text(name)) == Some(name),
{
    reveal_strlit("x");
    reveal_strlit("y");
    reveal_strlit("width");
    reveal_strlit("height");
    reveal_strlit("children_count");
    reveal_strlit("depth");
    let t = int_attr_name_text(name);
    match name {
        IntAttrName::X => {},
        IntAttrName::Y => {
            assert(t[0] != "x"@[0]);
        },
        IntAttrName::Width => {
            assert(t.len() != "x"@.len() && t.len() != "y"@.len());
        },
        IntAttrName::Height => {
            assert(t.len() != "x"@.len() && t.len() != "y"@.len() && t.len() != "width"@.len());
        },
        IntAttrName::ChildrenCount => {
            assert(t.len() != "x"@.len() && t.len() != "y"@.len() && t.len() != "width"@.len());
            assert(t.len() != "height"@.len());
        },
        IntAttrName::Depth => {
            assert(t.len() != "x"@.len() && t.len() != "y"@.len() && t[0] != "width"@[0]);
            assert(t.len() != "height"@.len() && t.len() != "children_count"@.len());
        },
    }
}

/// One token read at `i` followed by what is read from its end.
proof fn lemma_lex_from_step(s: Seq<char>, i: int, t: TokenV, e: int, rest: Seq<TokenV>)
    requires
        0 <= i < e <= s.len(),
        lex_step(s, i) == LexStep::Tok(t, e),
        lex_from(s, e) == LexResult::Tokens(rest),
    ensures
        lex_from(s, i) == LexResult::Tokens(seq![t] + rest),
{
}

proof fn lemma_int_op_text(op: IntOp)
    ensures
        1 <= int_op_text(op).len() <= 2,
        !is_ident_char(int_op_text(op)[0]),
        !is_ws_char(int_op_text(op)[0]),
{
    reveal_strlit("==");
    reveal_strlit("!=");
    reveal_strlit("<=");
    reveal_strlit(">=");
    reveal_strlit("<");
    reveal_strlit(">");
}

/// The text of a comparison, not followed by `=`, is read as the token of that
/// comparison.
proof fn lemma_lex_int_op(s: Seq<char>, i: int, op: IntOp)
    requires
        0 <= i,
        i + int_op_text(op).len() < s.len(),
        s.subrange(i, i + int_op_text(op).len()) == int_op_text(op),
        s[i + int_op_text(op).len()] != '=',
    ensures
        lex_step(s, i) matches LexStep::Tok(t, e) && e == i + int_op_text(op).len() && int_op_of(Some(t)) == Some(op),
{
    reveal_strlit("==");
    reveal_strlit("!=");
    reveal_strlit("<=");
    reveal_strlit(">=");
    reveal_strlit("<");
    reveal_strlit(">");
    let t = int_op_text(op);
    assert forall|k: int| 0 <= k < t.len() implies s[i + k] == t[k] by {
        assert(s.subrange(i, i + t.len())[k] == s[i + k]);
    }
    assert(s[i] == t[0]);
    if t.len() == 2 {
        assert(s[i + 1] == t[1]);
    }
}

/// The tokens of `[`, the text of an integer attribute test and `]`.
#[verifier::rlimit(60)]
proof fn lemma_int_attr_tokens(name: IntAttrName, op: IntOp, v: i32) -> (t: Seq<TokenV>)
    ensures
        spec_lex(seq!['['] + attr_text(AttrV::Int { name, op, value: Some(v) }) + seq![']']) == LexResult::Tokens(t),
        t.len() == 5,
        t[0] == TokenV::LBracket,
        t[1] == TokenV::Ident(int_attr_name_text(name)),
        int_op_of(Some(t[2])) == Some(op),
        t[3] == TokenV::Int(v),
        t[4] == TokenV::RBracket,
{
    let a = AttrV::Int { name, op, value: Some(v) };
    let nt = int_attr_name_text(name);
    let ot = int_op_text(op);
    let it = int_text(v as int);
    let s = seq!['['] + attr_text(a) + seq![']'];
    assert(attr_text(a) == nt + ot + it);
    let p2: int = 1 + nt.len() as int;
    let p3: int = p2 + ot.len() as int;
    let p4: int = p3 + it.len() as int;
    assert(s =~= seq!['['] + nt + ot + it + seq![']']);
    assert(s.len() == p4 + 1);
    lemma_int_name(name);
    lemma_int_text(v as int);
    lemma_int_op_text(op);
    assert forall|k: int| 0 <= k < nt.len() implies s[1 + k] == nt[k] by {}
    assert forall|k: int| 0 <= k < ot.len() implies s[p2 + k] == ot[k] by {}
    assert forall|k: int| 0 <= k < it.len() implies s[p3 + k] == it[k] by {}
    assert(s[0] == '[');
    assert(s[p4] == ']');
    assert(lex_step(s, 0) == LexStep::Tok(TokenV::LBracket, 1));
    assert(s[p2] == ot[0]);
    assert forall|k: int| 1 <= k < p2 implies is_ident_char(#[trigger] s[k]) by {
        assert(s[k] == nt[k - 1]);
    }
    lemma_ident_end(s, 2, p2);
    assert(s.subrange(1, p2) =~= nt);
    assert(s[1] == nt[0]);
    assert(lex_step(s, 1) == LexStep::Tok(TokenV::Ident(nt), p2));
    assert(s.subrange(p2, p3) =~= ot);
    assert(s[p3] == it[0]);
    lemma_lex_int_op(s, p2, op);
    let op_tok = match lex_step(s, p2) {
        LexStep::Tok(t, _) => t,
        _ => TokenV::Comma,
    };
    assert(s.subrange(p3, p4) =~= it);
    lemma_lex_int(s, p3, v);
    assert(lex_step(s, p4) == LexStep::Tok(TokenV::RBracket, p4 + 1));
    assert(lex_from(s, p4 + 1) == LexResult::Tokens(seq![]));
    let r4 = seq![TokenV::RBracket];
    lemma_lex_from_step(s, p4, TokenV::RBracket, p4 + 1, seq![]);
    assert(seq![TokenV::RBracket] + Seq::<TokenV>::empty() =~= r4);
    let r3 = seq![TokenV::Int(v)] + r4;
    lemma_lex_from_step(s, p3, TokenV::Int(v), p4, r4);
    let r2 = seq![op_tok] + r3;
    lemma_lex_from_step(s, p2, op_tok, p3, r3);
    let r1 = seq![TokenV::Ident(nt)] + r2;
    lemma_lex_from_step(s, 1, TokenV::Ident(nt), p2, r2);
    let t = seq![TokenV::LBracket] + r1;
    lemma_lex_from_step(s, 0, TokenV::LBracket, 1, r1);
    assert(t[2] == op_tok);
    t
}

/// The text of an integer attribute test reads back as the same test: lexing `[`,
/// its text and `]` gives the bracket, the attribute's name, the comparison, the
/// integer and the closing bracket, and the grammar reads these as the same test.
pub proof fn law_int_attr_text_reads_back(name: IntAttrName, op: IntOp, v: i32)
    ensures
        ({
            let a = AttrV::Int { name, op, value: Some(v) };
            spec_lex(seq!['['] + attr_text(a) + seq![']']) matches LexResult::Tokens(t)
                && p_attr(t, 0) == Some((a, t.len() as int))
        }),
{
    let a = AttrV::Int { name, op, value: Some(v) };
    let t = lemma_int_attr_tokens(name, op, v);
    lemma_int_name(name);
    assert(skip_ws(t, 1) == 1);
    assert(skip_ws(t, 2) == 2);
    assert(skip_ws(t, 3) == 3);
    assert(skip_ws(t, 4) == 4);
    assert(tok(t, 1) == Some(TokenV::Ident(int_attr_name_text(name))));
    assert(tok(t, 3) == Some(TokenV::Int(v)));
    assert(p_int_attr(t, 1) == Some((a, 4int)));
    assert(tok(t, 4) == Some(TokenV::RBracket));
}

// ---------------------------------------------------------------------------
// Quoted strings

/// The text that stands for one character inside a quoted string: a quote is
/// preceded by a backslash.
pub open spec fn escaped_one(c: char) -> Seq<char> {
    if c == '\'' { seq!['\\', '\''] } else { seq![c] }
}

proof fn lemma_escape_cons(c: char, w: Seq<char>)
    ensures
        escape_quotes(seq![c] + w) == escaped_one(c) + escape_quotes(w),
    decreases w.len(),
{
    if w.len() == 0 {
        let v = seq![c] + w;
        assert(v =~= seq![c]);
        assert(v.drop_last() =~= Seq::<char>::empty());
        assert(escape_quotes(v.drop_last()) =~= Seq::<char>::empty());
        assert(v.last() == c);
        if c == '\'' {
            assert(escape_quotes(v) =~= seq!['\\', '\'']);
        } else {
            assert(escape_quotes(v) =~= seq![c]);
        }
        assert(escaped_one(c) + escape_quotes(w) =~= escaped_one(c));
    } else {
        lemma_escape_cons(c, w.drop_last());
        assert((seq![c] + w).drop_last() =~= seq![c] + w.drop_last());
        assert((seq![c] + w).last() == w.last());
        if w.last() == '\'' {
            assert(escaped_one(c) + escape_quotes(w) =~= escaped_one(c) + escape_quotes(w.drop_last()) + seq!['\\', '\'']);
        } else {
            assert(escaped_one(c) + escape_quotes(w) =~= (escaped_one(c) + escape_quotes(w.drop_last())).push(w.last()));
        }
    }
}

/// Whether a text holds no backslash.
pub open spec fn no_backslash(v: Seq<char>) -> bool {
    forall|k: int| 0 <= k < v.len() ==> #[trigger] v[k] != '\\'
}

/// Reading the escaped text of a string without backslashes gives the string back.
proof fn lemma_unescape_escaped(v: Seq<char>)
    requires
        no_backslash(v),
    ensures
        unescape(escape_quotes(v)) == v,
    decreases v.len(),
{
    if v.len() > 0 {
        let c = v[0];
        let w = v.drop_first();
        assert(v =~= seq![c] + w);
        lemma_escape_cons(c, w);
        lemma_unescape_escaped(w);
        let b = escape_quotes(v);
        if c == '\'' {
            assert(b[0] == '\\' && b[1] == '\'');
            assert(b.subrange(2, b.len() as int) =~= escape_quotes(w));
        } else {
            assert(b[0] == c);
            assert(b.subrange(1, b.len() as int) =~= escape_quotes(w));
        }
    } else {
        assert(escape_quotes(v) =~= Seq::<char>::empty());
    }
}

/// Scanning a quoted string over the escaped text of a string without backslashes
/// goes past it to the end of that text.
proof fn lemma_string_end_escaped(s: Seq<char>, i: int, v: Seq<char>)
    requires
        no_backslash(v),
        0 <= i,
        i + escape_quotes(v).len() <= s.len(),
        s.subrange(i, i + escape_quotes(v).len()) == escape_quotes(v),
    ensures
        string_end(s, i, '\'') == string_end(s, i + escape_quotes(v).len(), '\''),
    decreases v.len(),
{
    if v.len() > 0 {
        let c = v[0];
        let w = v.drop_first();
        assert(v =~= seq![c] + w);
        lemma_escape_cons(c, w);
        let b = escape_quotes(v);
        let k = escaped_one(c).len() as int;
        assert(s[i] == b[0]) by {
            assert(s.subrange(i, i + b.len())[0] == s[i]);
        }
        if c == '\'' {
            assert(s[i + 1] == b[1]) by {
                assert(s.subrange(i, i + b.len())[1] == s[i + 1]);
            }
        }
        assert(s.subrange(i + k, i + k + escape_quotes(w).len()) =~= escape_quotes(w)) by {
            assert forall|j: int| 0 <= j < escape_quotes(w).len() implies s[i + k + j] == escape_quotes(w)[j] by {
                assert(s.subrange(i, i + b.len())[k + j] == s[i + k + j]);
                assert(b[k + j] == escape_quotes(w)[j]);
            }
        }
        lemma_string_end_escaped(s, i + k, w);
    } else {
        assert(escape_quotes(v) =~= Seq::<char>::empty());
    }
}

// ---------------------------------------------------------------------------
// String and boolean attribute tests

/// The text of a string attribute's name: an identifier that names it, and no
/// integer attribute.
proof fn lemma_str_name(name: StrAttrName)
    ensures
        str_attr_name_text(name).len() >= 1,
        is_ident_start(str_attr_name_text(name)[0]),
        forall|k: int| 0 <= k < str_attr_name_text(name).len() ==> is_ident_char(#[trigger] str_attr_name_text(name)[k]),
        str_attr_name(str_attr_name_text(name)) == Some(name),
        int_attr_name(str_attr_name_text(name)) is None,
{
    reveal_strlit("x");
    reveal_strlit("y");
    reveal_strlit("width");
    reveal_strlit("height");
    reveal_strlit("children_count");
    reveal_strlit("depth");
    reveal_strlit("name");
    reveal_strlit("description");
    reveal_strlit("states");
    reveal_strlit("states_en_us");
    reveal_strlit("text");
    reveal_strlit("actions");
    let t = str_attr_name_text(name);
    assert(t.len() != "x"@.len() && t.len() != "width"@.len() && t.len() != "children_count"@.len());
    assert(t.len() != "depth"@.len());
    assert(t.len() == "height"@.len() ==> t[0] != "height"@[0]);
    match name {
        StrAttrName::Name => {},
        StrAttrName::Description => {
            assert(t.len() != "name"@.len());
        },
        StrAttrName::States => {
            assert(t.len() != "name"@.len() && t.len() != "description"@.len());
        },
        StrAttrName::StatesEnUs => {
            assert(t.len() != "name"@.len() && t.len() != "description"@.len() && t.len() != "states"@.len());
        },
        StrAttrName::Text => {
            assert(t[0] != "name"@[0] && t.len() != "description"@.len() && t.len() != "states"@.len());
            assert(t.len() != "states_en_us"@.len());
        },
        StrAttrName::Actions => {
            assert(t.len() != "name"@.len() && t.len() != "description"@.len() && t.len() != "states"@.len());
            assert(t.len() != "states_en_us"@.len() && t.len() != "text"@.len());
        },
    }
}

/// The text of a boolean attribute's name: an identifier that names it, and no
/// integer or string attribute.
proof fn lemma_bool_name(name: BoolAttrName)
    ensures
        bool_attr_name_text(name).len() >= 1,
        is_ident_start(bool_attr_name_text(name)[0]),
        forall|k: int| 0 <= k < bool_attr_name_text(name).len() ==> is_ident_char(#[trigger] bool_attr_name_text(name)[k]),
        bool_attr_name(bool_attr_name_text(name)) == Some(name),
        int_attr_name(bool_attr_name_text(name)) is None,
        str_attr_name(bool_attr_name_text(name)) is None,
{
    reveal_strlit("x");
    reveal_strlit("y");
    reveal_strlit("width");
    reveal_strlit("height");
    reveal_strlit("children_count");
    reveal_strlit("depth");
    reveal_strlit("name");
    reveal_strlit("description");
    reveal_strlit("states");
    reveal_strlit("states_en_us");
    reveal_strlit("text");
    reveal_strlit("actions");
    reveal_strlit("accessible_action");
    reveal_strlit("accessible_text");
    reveal_strlit("accessible_selection");
    let t = bool_attr_name_text(name);
    assert(t.len() >= 15);
    match name {
        BoolAttrName::AccessibleAction => {},
        BoolAttrName::AccessibleText => {
            assert(t.len() != "accessible_action"@.len());
        },
        BoolAttrName::AccessibleSelection => {
            assert(t.len() != "accessible_action"@.len() && t.len() != "accessible_text"@.len());
        },
    }
}

proof fn lemma_string_op_text(op: StringOp)
    ensures
        1 <= string_op_text(op).len() <= 2,
        !is_ident_char(string_op_text(op)[0]),
        !is_ws_char(string_op_text(op)[0]),
{
    reveal_strlit("=");
    reveal_strlit("~=");
    reveal_strlit("^=");
    reveal_strlit("$=");
    reveal_strlit("*=");
}

/// The text of a string comparison, not followed by `=`, is read as the token of
/// that comparison.
proof fn lemma_lex_string_op(s: Seq<char>, i: int, op: StringOp)
    requires
        0 <= i,
        i + string_op_text(op).len() < s.len(),
        s.subrange(i, i + string_op_text(op).len()) == string_op_text(op),
        s[i + string_op_text(op).len()] != '=',
    ensures
        lex_step(s, i) matches LexStep::Tok(t, e) && e == i + string_op_text(op).len() && string_op_of(Some(t)) == Some(op),
{
    reveal_strlit("=");
    reveal_strlit("~=");
    reveal_strlit("^=");
    reveal_strlit("$=");
    reveal_strlit("*=");
    let t = string_op_text(op);
    assert forall|k: int| 0 <= k < t.len() implies s[i + k] == t[k] by {
        assert(s.subrange(i, i + t.len())[k] == s[i + k]);
    }
    assert(s[i] == t[0]);
    if t.len() == 2 {
        assert(s[i + 1] == t[1]);
    }
}

/// The value a string attribute test compares with.
pub open spec fn matcher_value(m: MatcherV) -> Seq<char> {
    match m {
        MatcherV::Plain(v) => v,
        MatcherV::Regex(v) => v,
    }
}

/// What follows the closing quote in the text of a string attribute test: ` i` for
/// a case-insensitive plain value, ` r` for a regular expression, else nothing.
pub open spec fn flag_suffix(m: MatcherV, flags: AttrFlags) -> Seq<char> {
    match m {
        MatcherV::Regex(_) => seq![' ', 'r'],
        MatcherV::Plain(_) => if flags.case_insensitive { seq![' ', 'i'] } else { seq![] },
    }
}

/// The tokens of `[`, the text of a string attribute test and `]`.
#[verifier::rlimit(100)]
proof fn lemma_str_attr_tokens(name: StrAttrName, op: StringOp, m: MatcherV, flags: AttrFlags) -> (t: Seq<TokenV>)
    requires
        no_backslash(matcher_value(m)),
        !(m is Regex && flags.case_insensitive),
    ensures
        spec_lex(seq!['['] + attr_text(AttrV::Str { name, op, value: m, flags }) + seq![']']) == LexResult::Tokens(t),
        t.len() >= 5,
        t[0] == TokenV::LBracket,
        t[1] == TokenV::Ident(str_attr_name_text(name)),
        string_op_of(Some(t[2])) == Some(op),
        t[3] matches TokenV::Str(raw) && string_value(raw) == matcher_value(m),
        flag_suffix(m, flags).len() == 0 ==> t.len() == 5 && t[4] == TokenV::RBracket,
        flag_suffix(m, flags).len() > 0 ==> t.len() == 7 && t[4] == TokenV::Whitespace
            && t[5] == TokenV::Ident(seq![flag_suffix(m, flags)[1]]) && t[6] == TokenV::RBracket,
{
    let a = AttrV::Str { name, op, value: m, flags };
    let v = matcher_value(m);
    let nt = str_attr_name_text(name);
    let ot = string_op_text(op);
    let e = escape_quotes(v);
    let suf = flag_suffix(m, flags);
    reveal_strlit("' r");
    reveal_strlit(" i");
    let s = seq!['['] + attr_text(a) + seq![']'];
    assert(s =~= seq!['['] + nt + ot + seq!['\''] + e + seq!['\''] + suf + seq![']']);
    let p2: int = 1 + nt.len() as int;
    let p3: int = p2 + ot.len() as int;
    let q: int = p3 + 1;
    let p4: int = q + e.len() as int + 1;
    let p5: int = p4 + suf.len() as int;
    assert(s.len() == p5 + 1);
    lemma_str_name(name);
    lemma_string_op_text(op);
    assert forall|k: int| 0 <= k < nt.len() implies s[1 + k] == nt[k] by {}
    assert forall|k: int| 0 <= k < ot.len() implies s[p2 + k] == ot[k] by {}
    assert forall|k: int| 0 <= k < e.len() implies s[q + k] == e[k] by {}
    assert forall|k: int| 0 <= k < suf.len() implies s[p4 + k] == suf[k] by {}
    assert(s[0] == '[' && s[p3] == '\'' && s[q + e.len()] == '\'' && s[p5] == ']');
    // `[`
    assert(lex_step(s, 0) == LexStep::Tok(TokenV::LBracket, 1));
    // the name
    assert(s[p2] == ot[0]);
    assert forall|k: int| 1 <= k < p2 implies is_ident_char(#[trigger] s[k]) by {
        assert(s[k] == nt[k - 1]);
    }
    lemma_ident_end(s, 2, p2);
    assert(s.subrange(1, p2) =~= nt);
    assert(s[1] == nt[0]);
    assert(lex_step(s, 1) == LexStep::Tok(TokenV::Ident(nt), p2));
    // the comparison
    assert(s.subrange(p2, p3) =~= ot);
    lemma_lex_string_op(s, p2, op);
    let op_tok = match lex_step(s, p2) {
        LexStep::Tok(t, _) => t,
        _ => TokenV::Comma,
    };
    // the quoted value
    assert(s.subrange(q, q + e.len()) =~= e);
    lemma_string_end_escaped(s, q, v);
    assert(string_end(s, q + e.len(), '\'') == Some(p4));
    let raw = s.subrange(p3, p4);
    assert(lex_step(s, p3) == LexStep::Tok(TokenV::Str(raw), p4));
    assert(raw.subrange(1, raw.len() - 1) =~= e);
    lemma_unescape_escaped(v);
    assert(string_value(raw) == v);
    // `]` and what comes before it
    assert(lex_step(s, p5) == LexStep::Tok(TokenV::RBracket, p5 + 1));
    assert(lex_from(s, p5 + 1) == LexResult::Tokens(seq![]));
    let r5 = seq![TokenV::RBracket];
    lemma_lex_from_step(s, p5, TokenV::RBracket, p5 + 1, seq![]);
    assert(seq![TokenV::RBracket] + Seq::<TokenV>::empty() =~= r5);
    let r4 = if suf.len() == 0 {
        r5
    } else {
        let letter = suf[1];
        assert(s[p4] == ' ' && s[p4 + 1] == letter && s[p4 + 2] == ']');
        assert(ws_end(s, p4 + 1) == p4 + 1);
        assert(ws_end(s, p4) == p4 + 1);
        assert(lex_step(s, p4) == LexStep::Tok(TokenV::Whitespace, p4 + 1));
        assert(ident_end(s, p4 + 2) == p4 + 2);
        assert(s.subrange(p4 + 1, p4 + 2) =~= seq![letter]);
        assert(lex_step(s, p4 + 1) == LexStep::Tok(TokenV::Ident(seq![letter]), p4 + 2));
        lemma_lex_from_step(s, p4 + 1, TokenV::Ident(seq![letter]), p5, r5);
        lemma_lex_from_step(s, p4, TokenV::Whitespace, p4 + 1, seq![TokenV::Ident(seq![letter])] + r5);
        seq![TokenV::Whitespace] + (seq![TokenV::Ident(seq![letter])] + r5)
    };
    assert(lex_from(s, p4) == LexResult::Tokens(r4));
    let r3 = seq![TokenV::Str(raw)] + r4;
    lemma_lex_from_step(s, p3, TokenV::Str(raw), p4, r4);
    let r2 = seq![op_tok] + r3;
    lemma_lex_from_step(s, p2, op_tok, p3, r3);
    let r1 = seq![TokenV::Ident(nt)] + r2;
    lemma_lex_from_step(s, 1, TokenV::Ident(nt), p2, r2);
    let t = seq![TokenV::LBracket] + r1;
    lemma_lex_from_step(s, 0, TokenV::LBracket, 1, r1);
    assert(t[2] == op_tok);
    assert(t[3] == TokenV::Str(raw));
    t
}

/// The text of a string attribute test reads back as the same test, whenever its
/// value holds no backslash and it is not a case-insensitive regular expression
/// (whose text, `'..' r i`, does not parse): lexing `[`, its text and `]` gives
/// tokens that the grammar reads as the same name, comparison, value and flags.
pub proof fn law_str_attr_text_reads_back(name: StrAttrName, op: StringOp, m: MatcherV, flags: AttrFlags)
    requires
        no_backslash(matcher_value(m)),
        !(m is Regex && flags.case_insensitive),
        m matches MatcherV::Regex(p) ==> regex_compiles(p),
    ensures
        ({
            let a = AttrV::Str { name, op, value: m, flags };
            spec_lex(seq!['['] + attr_text(a) + seq![']']) matches LexResult::Tokens(t)
                && p_attr(t, 0) == Some((a, t.len() as int))
        }),
{
    let a = AttrV::Str { name, op, value: m, flags };
    let t = lemma_str_attr_tokens(name, op, m, flags);
    lemma_str_name(name);
    let suf = flag_suffix(m, flags);
    assert(skip_ws(t, 1) == 1);
    assert(skip_ws(t, 2) == 2);
    assert(skip_ws(t, 3) == 3);
    assert(tok(t, 1) == Some(TokenV::Ident(str_attr_name_text(name))));
    assert(p_int_attr(t, 1) is None);
    if suf.len() == 0 {
        assert(skip_ws(t, 4) == 4);
        assert(p_str_attr(t, 1) == Some((a, 4int)));
        assert(tok(t, 4) == Some(TokenV::RBracket));
    } else {
        let fl = seq![suf[1]];
        assert(skip_ws(t, 5) == 5);
        assert(skip_ws(t, 4) == 5);
        assert(fl[0] == suf[1]);
        assert(valid_flags(fl));
        if m is Regex {
            assert(fl.contains('r'));
            assert(!fl.contains('i'));
        } else {
            assert(fl.contains('i'));
            assert(!fl.contains('r'));
        }
        assert(p_str_attr(t, 1) == Some((a, 6int)));
        assert(skip_ws(t, 6) == 6);
        assert(tok(t, 6) == Some(TokenV::RBracket));
    }
}

/// The text of a boolean attribute test, its name, reads back as the same test.
pub proof fn law_bool_attr_text_reads_back(name: BoolAttrName)
    ensures
        ({
            let a = AttrV::Bool { name };
            spec_lex(seq!['['] + attr_text(a) + seq![']']) matches LexResult::Tokens(t)
                && p_attr(t, 0) == Some((a, t.len() as int))
        }),
{
    let a = AttrV::Bool { name };
    let nt = bool_attr_name_text(name);
    let s = seq!['['] + attr_text(a) + seq![']'];
    assert(s =~= seq!['['] + nt + seq![']']);
    let p2: int = 1 + nt.len() as int;
    lemma_bool_name(name);
    assert forall|k: int| 0 <= k < nt.len() implies s[1 + k] == nt[k] by {}
    assert(s[0] == '[' && s[p2] == ']');
    assert(lex_step(s, 0) == LexStep::Tok(TokenV::LBracket, 1));
    assert forall|k: int| 1 <= k < p2 implies is_ident_char(#[trigger] s[k]) by {
        assert(s[k] == nt[k - 1]);
    }
    lemma_ident_end(s, 2, p2);
    assert(s.subrange(1, p2) =~= nt);
    assert(s[1] == nt[0]);
    assert(lex_step(s, 1) == LexStep::Tok(TokenV::Ident(nt), p2));
    assert(lex_step(s, p2) == LexStep::Tok(TokenV::RBracket, p2 + 1));
    assert(lex_from(s, p2 + 1) == LexResult::Tokens(seq![]));
    let r2 = seq![TokenV::RBracket];
    lemma_lex_from_step(s, p2, TokenV::RBracket, p2 + 1, seq![]);
    assert(seq![TokenV::RBracket] + Seq::<TokenV>::empty() =~= r2);
    let r1 = seq![TokenV::Ident(nt)] + r2;
    lemma_lex_from_step(s, 1, TokenV::Ident(nt), p2, r2);
    let t = seq![TokenV::LBracket] + r1;
    lemma_lex_from_step(s, 0, TokenV::LBracket, 1, r1);
    assert(skip_ws(t, 1) == 1);
    assert(skip_ws(t, 2) == 2);
    assert(tok(t, 1) == Some(TokenV::Ident(nt)));
    assert(p_int_attr(t, 1) is None);
    assert(p_str_attr(t, 1) is None);
    assert(p_bool_attr(t, 1) == Some((a, 2int)));
    assert(tok(t, 2) == Some(TokenV::RBracket));
}

// ---------------------------------------------------------------------------
// Combinators

/// The text of a combinator reads back as the same combinator: ` > `, ` + ` and
/// ` ~ ` lex to the symbol between two spaces, ` ` to one space, and the grammar
/// reads each as the combinator it was written from, up to its end.
pub proof fn law_combinator_text_reads_back(c: Combinator)
    ensures
        spec_lex(combinator_text(c)) matches LexResult::Tokens(t) && p_combinator(t, 0) == Some((c, t.len() as int)),
{
    reveal_strlit(" > ");
    reveal_strlit(" ");
    reveal_strlit(" + ");
    reveal_strlit(" ~ ");
    let s = combinator_text(c);
    if c == Combinator::Descendant {
        assert(s.len() == 1 && s[0] == ' ');
        assert(ws_end(s, 1) == 1);
        assert(ws_end(s, 0) == 1);
        assert(lex_step(s, 0) == LexStep::Tok(TokenV::Whitespace, 1));
        assert(lex_from(s, 1) == LexResult::Tokens(seq![]));
        lemma_lex_from_step(s, 0, TokenV::Whitespace, 1, seq![]);
        let t = seq![TokenV::Whitespace] + Seq::<TokenV>::empty();
        assert(skip_ws(t, 1) == 1);
        assert(skip_ws(t, 0) == 1);
    } else {
        let sym = s[1];
        let tk = if c == Combinator::Child {
            TokenV::Gt
        } else if c == Combinator::NextSibling {
            TokenV::Plus
        } else {
            TokenV::Tilde
        };
        assert(s.len() == 3 && s[0] == ' ' && s[2] == ' ');
        assert(ws_end(s, 1) == 1);
        assert(ws_end(s, 0) == 1);
        assert(ws_end(s, 3) == 3);
        assert(ws_end(s, 2) == 3);
        assert(lex_step(s, 0) == LexStep::Tok(TokenV::Whitespace, 1));
        assert(lex_step(s, 1) == LexStep::Tok(tk, 2));
        assert(lex_step(s, 2) == LexStep::Tok(TokenV::Whitespace, 3));
        assert(lex_from(s, 3) == LexResult::Tokens(seq![]));
        lemma_lex_from_step(s, 2, TokenV::Whitespace, 3, seq![]);
        let r2 = seq![TokenV::Whitespace] + Seq::<TokenV>::empty();
        lemma_lex_from_step(s, 1, tk, 2, r2);
        let r1 = seq![tk] + r2;
        lemma_lex_from_step(s, 0, TokenV::Whitespace, 1, r1);
        let t = seq![TokenV::Whitespace] + r1;
        assert(t.len() == 3);
        assert(skip_ws(t, 3) == 3);
        assert(skip_ws(t, 2) == 3);
        assert(skip_ws(t, 1) == 1);
        assert(skip_ws(t, 0) == 1);
        assert(tok(t, 1) == Some(tk));
    }
}

// ---------------------------------------------------------------------------
// Pseudo-classes without a selector argument

/// Whether a text is an identifier: a letter or `_`, then letters, digits, `_` or `-`.
pub open spec fn is_identifier(s: Seq<char>) -> bool {
    &&& s.len() >= 1
    &&& is_ident_start(s[0])
    &&& forall|k: int| 0 <= k < s.len() ==> is_ident_char(#[trigger] s[k])
}

/// The name of a pseudo-class written with an argument, and its argument's text.
pub open spec fn call_parts(p: PseudoV) -> (Seq<char>, Seq<char>) {
    match p {
        PseudoV::RequireState(s) => ("require-state"@, s),
        PseudoV::ExcludeState(s) => ("exclude-state"@, s),
        PseudoV::NthChild(n) => ("nth-child"@, int_text(n as int)),
        PseudoV::NthLastChild(n) => ("nth-last-child"@, int_text(n as int)),
        _ => (seq![], seq![]),
    }
}

proof fn lemma_call_text(p: PseudoV)
    requires
        p is RequireState || p is ExcludeState || p is NthChild || p is NthLastChild,
    ensures
        pseudo_text(p) == seq![':'] + call_parts(p).0 + seq!['('] + call_parts(p).1 + seq![')'],
        is_identifier(call_parts(p).0),
{
    reveal_strlit(":require-state(");
    reveal_strlit(":exclude-state(");
    reveal_strlit(":nth-child(");
    reveal_strlit(":nth-last-child(");
    reveal_strlit("require-state");
    reveal_strlit("exclude-state");
    reveal_strlit("nth-child");
    reveal_strlit("nth-last-child");
    reveal_strlit(")");
    let (nm, arg) = call_parts(p);
    match p {
        PseudoV::RequireState(s) => {
            assert(pseudo_text(p) =~= seq![':'] + nm + seq!['('] + arg + seq![')']);
        },
        PseudoV::ExcludeState(s) => {
            assert(pseudo_text(p) =~= seq![':'] + nm + seq!['('] + arg + seq![')']);
        },
        PseudoV::NthChild(n) => {
            assert(pseudo_text(p) =~= seq![':'] + nm + seq!['('] + arg + seq![')']);
        },
        PseudoV::NthLastChild(n) => {
            assert(pseudo_text(p) =~= seq![':'] + nm + seq!['('] + arg + seq![')']);
        },
        _ => {},
    }
}

/// Reading a pseudo-class name picks the pseudo-class it names.
proof fn lemma_pseudo_names(p: PseudoV)
    requires
        p is RequireState || p is ExcludeState || p is NthChild || p is NthLastChild,
    ensures
        ({
            let nm = call_parts(p).0;
            &&& nm != "scope"@ && nm != "has"@ && nm != "not"@
            &&& (p is RequireState <==> nm == "require-state"@)
            &&& (p is ExcludeState <==> nm == "exclude-state"@)
            &&& (p is NthChild <==> nm == "nth-child"@)
            &&& (p is NthLastChild <==> nm == "nth-last-child"@)
        }),
{
    reveal_strlit("scope");
    reveal_strlit("has");
    reveal_strlit("not");
    reveal_strlit("require-state");
    reveal_strlit("exclude-state");
    reveal_strlit("nth-child");
    reveal_strlit("nth-last-child");
    let nm = call_parts(p).0;
    assert(nm.len() != "scope"@.len() && nm.len() != "has"@.len() && nm.len() != "not"@.len());
    assert("require-state"@[0] != "exclude-state"@[0]);
    assert("nth-child"@.len() != "nth-last-child"@.len() && "nth-child"@.len() != "require-state"@.len());
    assert("nth-last-child"@.len() != "require-state"@.len());
}

/// The tokens of `:name(arg)`, where the argument is read as one token that ends
/// just before the `)`.
proof fn lemma_call_tokens(s: Seq<char>, nm: Seq<char>, arg: Seq<char>, at: TokenV) -> (t: Seq<TokenV>)
    requires
        s == seq![':'] + nm + seq!['('] + arg + seq![')'],
        is_identifier(nm),
        arg.len() >= 1,
        lex_step(s, 2 + nm.len() as int) == LexStep::Tok(at, 2 + nm.len() as int + arg.len() as int),
    ensures
        spec_lex(s) == LexResult::Tokens(t),
        t == seq![TokenV::Colon, TokenV::Ident(nm), TokenV::LParen, at, TokenV::RParen],
{
    let p2: int = 1 + nm.len() as int;
    let p3: int = p2 + 1;
    let p4: int = p3 + arg.len() as int;
    assert(s.len() == p4 + 1);
    assert forall|k: int| 0 <= k < nm.len() implies s[1 + k] == nm[k] by {}
    assert(s[0] == ':' && s[p2] == '(' && s[p4] == ')');
    assert(lex_step(s, 0) == LexStep::Tok(TokenV::Colon, 1));
    assert forall|k: int| 1 <= k < p2 implies is_ident_char(#[trigger] s[k]) by {
        assert(s[k] == nm[k - 1]);
    }
    lemma_ident_end(s, 2, p2);
    assert(s.subrange(1, p2) =~= nm);
    assert(s[1] == nm[0]);
    assert(lex_step(s, 1) == LexStep::Tok(TokenV::Ident(nm), p2));
    assert(lex_step(s, p2) == LexStep::Tok(TokenV::LParen, p3));
    assert(lex_step(s, p4) == LexStep::Tok(TokenV::RParen, p4 + 1));
    assert(lex_from(s, p4 + 1) == LexResult::Tokens(seq![]));
    lemma_lex_from_step(s, p4, TokenV::RParen, p4 + 1, seq![]);
    let r4 = seq![TokenV::RParen] + Seq::<TokenV>::empty();
    lemma_lex_from_step(s, p3, at, p4, r4);
    let r3 = seq![at] + r4;
    lemma_lex_from_step(s, p2, TokenV::LParen, p3, r3);
    let r2 = seq![TokenV::LParen] + r3;
    lemma_lex_from_step(s, 1, TokenV::Ident(nm), p2, r2);
    let r1 = seq![TokenV::Ident(nm)] + r2;
    lemma_lex_from_step(s, 0, TokenV::Colon, 1, r1);
    let t = seq![TokenV::Colon] + r1;
    assert(t =~= seq![TokenV::Colon, TokenV::Ident(nm), TokenV::LParen, at, TokenV::RParen]);
    t
}

proof fn lemma_scope_reads_back()
    ensures
        spec_lex(pseudo_text(PseudoV::Scope)) matches LexResult::Tokens(t) && p_pseudo(t, 0) == Some((PseudoV::Scope, t.len() as int)),
{
    let s = pseudo_text(PseudoV::Scope);
    reveal_strlit(":scope");
    reveal_strlit("scope");
    let nm = "scope"@;
    assert(s =~= seq![':'] + nm);
    assert(s[0] == ':');
    assert(lex_step(s, 0) == LexStep::Tok(TokenV::Colon, 1));
    lemma_ident_end(s, 2, 6);
    assert(s.subrange(1, 6) =~= nm);
    assert(lex_step(s, 1) == LexStep::Tok(TokenV::Ident(nm), 6));
    assert(lex_from(s, 6) == LexResult::Tokens(seq![]));
    lemma_lex_from_step(s, 1, TokenV::Ident(nm), 6, seq![]);
    let r1 = seq![TokenV::Ident(nm)] + Seq::<TokenV>::empty();
    lemma_lex_from_step(s, 0, TokenV::Colon, 1, r1);
    let t = seq![TokenV::Colon] + r1;
    assert(tok(t, 1) == Some(TokenV::Ident(nm)));
}

proof fn lemma_int_call_reads_back(p: PseudoV)
    requires
        p is NthChild || p is NthLastChild,
    ensures
        spec_lex(pseudo_text(p)) matches LexResult::Tokens(t) && p_pseudo(t, 0) == Some((p, t.len() as int)),
{
    let s = pseudo_text(p);
    lemma_call_text(p);
    lemma_pseudo_names(p);
    let (nm, arg) = call_parts(p);
    let q: int = 2 + nm.len() as int;
    let e: int = q + arg.len() as int;
    let v = match p {
        PseudoV::NthChild(v) => v,
        PseudoV::NthLastChild(v) => v,
        _ => 0,
    };
    assert(arg == int_text(v as int));
    assert(s[e] == ')');
    assert(s.subrange(q, e) =~= arg);
    lemma_int_text(v as int);
    lemma_lex_int(s, q, v);
    let t = lemma_call_tokens(s, nm, arg, TokenV::Int(v));
    assert(skip_ws(t, 3) == 3);
    assert(skip_ws(t, 4) == 4);
    assert(p_int_arg(t, 2) == Some((v, 5int)));
    assert(tok(t, 1) == Some(TokenV::Ident(nm)));
}

proof fn lemma_state_call_reads_back(p: PseudoV)
    requires
        p is RequireState || p is ExcludeState,
        is_identifier(call_parts(p).1),
    ensures
        spec_lex(pseudo_text(p)) matches LexResult::Tokens(t) && p_pseudo(t, 0) == Some((p, t.len() as int)),
{
    let s = pseudo_text(p);
    lemma_call_text(p);
    lemma_pseudo_names(p);
    let (nm, arg) = call_parts(p);
    let q: int = 2 + nm.len() as int;
    let e: int = q + arg.len() as int;
    assert(s[e] == ')');
    assert forall|k: int| q <= k < e implies is_ident_char(#[trigger] s[k]) by {
        assert(s[k] == arg[k - q]);
    }
    lemma_ident_end(s, q + 1, e);
    assert(s[q] == arg[0]);
    assert(s.subrange(q, e) =~= arg);
    assert(lex_step(s, q) == LexStep::Tok(TokenV::Ident(arg), e));
    let t = lemma_call_tokens(s, nm, arg, TokenV::Ident(arg));
    assert(skip_ws(t, 3) == 3);
    assert(skip_ws(t, 4) == 4);
    assert(p_ident_arg(t, 2) == Some((arg, 5int)));
    assert(tok(t, 1) == Some(TokenV::Ident(nm)));
}

/// The text of a pseudo-class without a selector argument reads back as the same
/// pseudo-class: `:scope`, `:nth-child(k)`, `:nth-last-child(k)`, and the state
/// classes when the state is an identifier.
pub proof fn law_pseudo_text_reads_back(p: PseudoV)
    requires
        !(p is Has || p is Not),
        p matches PseudoV::RequireState(st) ==> is_identifier(st),
        p matches PseudoV::ExcludeState(st) ==> is_identifier(st),
    ensures
        spec_lex(pseudo_text(p)) matches LexResult::Tokens(t) && p_pseudo(t, 0) == Some((p, t.len() as int)),
{
    match p {
        PseudoV::Scope => lemma_scope_reads_back(),
        PseudoV::NthChild(_) => lemma_int_call_reads_back(p),
        PseudoV::NthLastChild(_) => lemma_int_call_reads_back(p),
        _ => lemma_state_call_reads_back(p),
    }
}

} // verus!
