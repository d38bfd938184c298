//! Reading a token sequence as a selector, following [`crate::selector::grammar`].
use vstd::prelude::*;

use crate::selector::ast::{
    any_relative, has_scope, is_relative_spec, view_complex, ComplexV, CompoundV, PseudoV, SelectorV,
    AttrFlags, AttrSelector, BoolAttrName, Combinator, ComplexSelector, CompoundSelector, IntAttrName,
    IntOp, PseudoClassSelector, Selector, StrAttrName, StrMatcher, StringOp, view_attr, view_compound,
    view_pseudo, view_selector, view_strings,
};
use crate::selector::grammar::{
    anchor_complex, anchor_selector, build_complex, items_attrs, items_pseudos, items_states,
    lemma_items_split, lemma_skip_ws, p_complex, p_compound, p_cx_tail, p_item, p_items, p_pseudo,
    p_sel_arg, p_sel_tail, p_selector, parse_error_text, parse_spec, ItemV,
    bool_attr_name, escaped_char, int_attr_name, int_op_of, p_attr, p_bool_attr, p_combinator,
    p_int_arg, p_ident_arg, p_int_attr, p_role, p_str_attr, skip_ws, str_attr_name, string_op_of,
    string_value, tok, unescape, valid_flags, RoleV,
};
use crate::selector::lexer::{view_tokens, Token, TokenV};
use crate::pattern::regex_is_valid;
use crate::text::{chars_of, str_eq, str_to_string, string_of};

verus! {

/// Every string token keeps its two quotes.
pub open spec fn tokens_wf(t: Seq<TokenV>) -> bool {
    forall|i: int| 0 <= i < t.len() ==> (#[trigger] t[i] matches TokenV::Str(raw) ==> raw.len() >= 2)
}

fn skip_ws_exec(t: &Vec<Token>, p: usize) -> (e: usize)
    requires
        p <= t@.len(),
    ensures
        e as int == skip_ws(view_tokens(t@), p as int),
        p <= e <= t@.len(),
{
    let ghost tv = view_tokens(t@);
    let mut k = p;
    while k < t.len() && matches!(t[k], Token::Whitespace)
        invariant
            p <= k <= t@.len(),
            tv == view_tokens(t@),
            skip_ws(tv, p as int) == skip_ws(tv, k as int),
        decreases t@.len() - k,
    {
        k += 1;
    }
    k
}

fn parse_combinator(t: &Vec<Token>, p: usize) -> (r: Option<(Combinator, usize)>)
    requires
        p <= t@.len(),
    ensures
        match r {
            Some((c, q)) => p_combinator(view_tokens(t@), p as int) == Some((c, q as int)) && p < q <= t@.len(),
            None => p_combinator(view_tokens(t@), p as int) is None,
        },
{
    let q = skip_ws_exec(t, p);
    if q < t.len() {
        match &t[q] {
            Token::Gt => { return Some((Combinator::Child, skip_ws_exec(t, q + 1))); }
            Token::Plus => { return Some((Combinator::NextSibling, skip_ws_exec(t, q + 1))); }
            Token::Tilde => { return Some((Combinator::SubsequentSibling, skip_ws_exec(t, q + 1))); }
            _ => {}
        }
    }
    if q > p {
        Some((Combinator::Descendant, q))
    } else {
        None
    }
}

/// `Some(role)` when a role is written, with `None` inside for `*`.
fn parse_role(t: &Vec<Token>, p: usize) -> (r: Option<(Option<String>, usize)>)
    requires
        p <= t@.len(),
    ensures
        match (r, p_role(view_tokens(t@), p as int)) {
            (Some((None, q)), Some((RoleV::Any, e))) => q == e,
            (Some((Some(s), q)), Some((RoleV::Named(n), e))) => s@ == n && q == e,
            (None, None) => true,
            _ => false,
        },
        r matches Some((_, q)) ==> q == p + 1,
{
    if p < t.len() {
        match &t[p] {
            Token::Star => Some((None, p + 1)),
            Token::Ident(s) => Some((Some(s.clone()), p + 1)),
            _ => None,
        }
    } else {
        None
    }
}

fn escaped_char_exec(c: char) -> (r: char)
    ensures
        r == escaped_char(c),
{
    if c == 'n' {
        '\n'
    } else if c == 't' {
        '\t'
    } else {
        c
    }
}

/// The value of a quoted string token.
fn unquote(raw: &String) -> (s: String)
    requires
        raw@.len() >= 2,
    ensures
        s@ == string_value(raw@),
{
    let c = chars_of(raw.as_str());
    let end = c.len() - 1;
    let ghost b = c@.subrange(1, end as int);
    let mut out: Vec<char> = Vec::new();
    let mut k: usize = 1;
    assert(b.subrange(0, b.len() as int) =~= b);
    while k < end
        invariant
            1 <= k,
            end == c@.len() - 1,
            b == c@.subrange(1, end as int),
            k <= end,
            unescape(b) == out@ + unescape(c@.subrange(k as int, end as int)),
        decreases end + 1 - k,
    {
        let ghost rest = c@.subrange(k as int, end as int);
        if c[k] == '\\' {
            if k + 1 < end {
                out.push(escaped_char_exec(c[k + 1]));
                assert(rest.subrange(2, rest.len() as int) =~= c@.subrange(k + 2, end as int));
                assert(unescape(rest) == seq![escaped_char(c@[k + 1])] + unescape(c@.subrange(k + 2, end as int)));
                k += 2;
            } else {
                assert(rest.len() == 1);
                assert(unescape(rest) == Seq::<char>::empty());
                k += 1;
            }
        } else {
            out.push(c[k]);
            assert(rest.subrange(1, rest.len() as int) =~= c@.subrange(k + 1, end as int));
            k += 1;
        }
    }
    assert(unescape(c@.subrange(k as int, end as int)) =~= Seq::<char>::empty()) by {
        assert(c@.subrange(k as int, end as int).len() == 0);
    }
    string_of(out.as_slice())
}

fn str_attr_name_exec(n: &String) -> (r: Option<StrAttrName>)
    ensures
        r == str_attr_name(n@),
{
    let s = n.as_str();
    if str_eq(s, "name") {
        Some(StrAttrName::Name)
    } else if str_eq(s, "description") {
        Some(StrAttrName::Description)
    } else if str_eq(s, "states") {
        Some(StrAttrName::States)
    } else if str_eq(s, "states_en_us") {
        Some(StrAttrName::StatesEnUs)
    } else if str_eq(s, "text") {
        Some(StrAttrName::Text)
    } else if str_eq(s, "actions") {
        Some(StrAttrName::Actions)
    } else {
        None
    }
}

fn int_attr_name_exec(n: &String) -> (r: Option<IntAttrName>)
    ensures
        r == int_attr_name(n@),
{
    let s = n.as_str();
    if str_eq(s, "x") {
        Some(IntAttrName::X)
    } else if str_eq(s, "y") {
        Some(IntAttrName::Y)
    } else if str_eq(s, "width") {
        Some(IntAttrName::Width)
    } else if str_eq(s, "height") {
        Some(IntAttrName::Height)
    } else if str_eq(s, "children_count") {
        Some(IntAttrName::ChildrenCount)
    } else if str_eq(s, "depth") {
        Some(IntAttrName::Depth)
    } else {
        None
    }
}

fn bool_attr_name_exec(n: &String) -> (r: Option<BoolAttrName>)
    ensures
        r == bool_attr_name(n@),
{
    let s = n.as_str();
    if str_eq(s, "accessible_action") {
        Some(BoolAttrName::AccessibleAction)
    } else if str_eq(s, "accessible_text") {
        Some(BoolAttrName::AccessibleText)
    } else if str_eq(s, "accessible_selection") {
        Some(BoolAttrName::AccessibleSelection)
    } else {
        None
    }
}

fn string_op_at(t: &Vec<Token>, q: usize) -> (r: Option<StringOp>)
    requires
        q <= t@.len(),
    ensures
        r == string_op_of(tok(view_tokens(t@), q as int)),
{
    if q >= t.len() {
        return None;
    }
    match &t[q] {
        Token::Eq => Some(StringOp::Eq),
        Token::TildeEq => Some(StringOp::ContainsWord),
        Token::CaretEq => Some(StringOp::Starts),
        Token::DolarEq => Some(StringOp::Ends),
        Token::StarEq => Some(StringOp::Contains),
        _ => None,
    }
}

fn int_op_at(t: &Vec<Token>, q: usize) -> (r: Option<IntOp>)
    requires
        q <= t@.len(),
    ensures
        r == int_op_of(tok(view_tokens(t@), q as int)),
{
    if q >= t.len() {
        return None;
    }
    match &t[q] {
        Token::EqEq => Some(IntOp::Eq),
        Token::Ne => Some(IntOp::Ne),
        Token::Le => Some(IntOp::Le),
        Token::Ge => Some(IntOp::Ge),
        Token::Lt => Some(IntOp::Lt),
        Token::Gt => Some(IntOp::Gt),
        _ => None,
    }
}

fn parse_int_attr(t: &Vec<Token>, p: usize) -> (r: Option<(AttrSelector, usize)>)
    requires
        p <= t@.len(),
    ensures
        match r {
            Some((a, q)) => p_int_attr(view_tokens(t@), p as int) == Some((view_attr(a), q as int)) && p < q <= t@.len(),
            None => p_int_attr(view_tokens(t@), p as int) is None,
        },
{
    if p >= t.len() {
        return None;
    }
    let name = match &t[p] {
        Token::Ident(n) => match int_attr_name_exec(n) {
            Some(name) => name,
            None => { return None; }
        },
        _ => { return None; }
    };
    let q = skip_ws_exec(t, p + 1);
    let op = match int_op_at(t, q) {
        Some(op) => op,
        None => { return None; }
    };
    let r = skip_ws_exec(t, q + 1);
    if r < t.len() {
        if let Token::Int(v) = &t[r] {
            return Some((AttrSelector::Int { name, op, value: Some(*v) }, r + 1));
        }
    }
    None
}

/// Reads attribute flags: `Some((case_insensitive, regex, end))`, or `None` when the
/// identifier holds another letter.
fn parse_flags(t: &Vec<Token>, f: usize) -> (r: Option<(bool, bool, usize)>)
    requires
        f <= t@.len(),
    ensures
        match tok(view_tokens(t@), f as int) {
            Some(TokenV::Ident(fl)) => match r {
                Some((ci, re, e)) => valid_flags(fl) && ci == fl.contains('i') && re == fl.contains('r') && e == f + 1,
                None => !valid_flags(fl),
            },
            _ => r == Some((false, false, f)),
        },
{
    if f < t.len() {
        if let Token::Ident(fl) = &t[f] {
            assert(view_tokens(t@)[f as int] == TokenV::Ident(fl@));
            let c = chars_of(fl.as_str());
            let mut ci = false;
            let mut re = false;
            let mut k: usize = 0;
            while k < c.len()
                invariant
                    c@ == fl@,
                    f < t@.len(),
                    view_tokens(t@)[f as int] == TokenV::Ident(fl@),
                    0 <= k <= c@.len(),
                    forall|j: int| 0 <= j < k ==> (#[trigger] c@[j] == 'i' || c@[j] == 'r'),
                    ci == c@.subrange(0, k as int).contains('i'),
                    re == c@.subrange(0, k as int).contains('r'),
                decreases c.len() - k,
            {
                let ch = c[k];
                if ch == 'i' {
                    ci = true;
                } else if ch == 'r' {
                    re = true;
                } else {
                    assert(!(fl@[k as int] == 'i' || fl@[k as int] == 'r'));
                    assert(!valid_flags(fl@));
                    return None;
                }
                proof {
                    let s0 = c@.subrange(0, k as int);
                    let s1 = c@.subrange(0, k + 1);
                    assert(s1 =~= s0.push(ch));
                    assert(s1.contains('i') == (s0.contains('i') || ch == 'i')) by {
                        if s1.contains('i') && !s0.contains('i') {
                            let j = choose|j: int| 0 <= j < s1.len() && s1[j] == 'i';
                            assert(j == k);
                        }
                        if ch == 'i' { assert(s1[k as int] == 'i'); }
                        if s0.contains('i') {
                            let j = choose|j: int| 0 <= j < s0.len() && s0[j] == 'i';
                            assert(s1[j] == 'i');
                        }
                    }
                    assert(s1.contains('r') == (s0.contains('r') || ch == 'r')) by {
                        if s1.contains('r') && !s0.contains('r') {
                            let j = choose|j: int| 0 <= j < s1.len() && s1[j] == 'r';
                            assert(j == k);
                        }
                        if ch == 'r' { assert(s1[k as int] == 'r'); }
                        if s0.contains('r') {
                            let j = choose|j: int| 0 <= j < s0.len() && s0[j] == 'r';
                            assert(s1[j] == 'r');
                        }
                    }
                }
                k += 1;
            }
            assert(c@.subrange(0, k as int) =~= c@);
            return Some((ci, re, f + 1));
        }
    }
    Some((false, false, f))
}

fn parse_str_attr(t: &Vec<Token>, p: usize) -> (r: Option<(AttrSelector, usize)>)
    requires
        p <= t@.len(),
        tokens_wf(view_tokens(t@)),
    ensures
        match r {
            Some((a, q)) => p_str_attr(view_tokens(t@), p as int) == Some((view_attr(a), q as int)) && p < q <= t@.len(),
            None => p_str_attr(view_tokens(t@), p as int) is None,
        },
{
    let ghost tv = view_tokens(t@);
    if p >= t.len() {
        return None;
    }
    let name = match &t[p] {
        Token::Ident(n) => match str_attr_name_exec(n) {
            Some(name) => name,
            None => { return None; }
        },
        _ => { return None; }
    };
    let q = skip_ws_exec(t, p + 1);
    let op = match string_op_at(t, q) {
        Some(op) => op,
        None => { return None; }
    };
    let r = skip_ws_exec(t, q + 1);
    if r >= t.len() {
        return None;
    }
    let value = match &t[r] {
        Token::String(raw) => {
            assert(tv[r as int] == TokenV::Str(raw@));
            unquote(raw)
        },
        _ => { return None; }
    };
    let f = skip_ws_exec(t, r + 1);
    let (ci, re, end) = match parse_flags(t, f) {
        Some(x) => x,
        None => { return None; }
    };
    if re {
        if regex_is_valid(value.as_str()) {
            Some((AttrSelector::Str { name, op, value: StrMatcher::Regex(value), flags: AttrFlags { case_insensitive: ci } }, end))
        } else {
            None
        }
    } else {
        Some((AttrSelector::Str { name, op, value: StrMatcher::Plain(value), flags: AttrFlags { case_insensitive: ci } }, end))
    }
}

fn parse_bool_attr(t: &Vec<Token>, p: usize) -> (r: Option<(AttrSelector, usize)>)
    requires
        p <= t@.len(),
    ensures
        match r {
            Some((a, q)) => p_bool_attr(view_tokens(t@), p as int) == Some((view_attr(a), q as int)) && p < q <= t@.len(),
            None => p_bool_attr(view_tokens(t@), p as int) is None,
        },
{
    if p >= t.len() {
        return None;
    }
    match &t[p] {
        Token::Ident(n) => match bool_attr_name_exec(n) {
            Some(name) => Some((AttrSelector::Bool { name }, p + 1)),
            None => None,
        },
        _ => None,
    }
}

fn parse_attr(t: &Vec<Token>, p: usize) -> (r: Option<(AttrSelector, usize)>)
    requires
        p <= t@.len(),
        tokens_wf(view_tokens(t@)),
    ensures
        match r {
            Some((a, q)) => p_attr(view_tokens(t@), p as int) == Some((view_attr(a), q as int)) && p < q <= t@.len(),
            None => p_attr(view_tokens(t@), p as int) is None,
        },
{
    if p >= t.len() || !matches!(t[p], Token::LBracket) {
        return None;
    }
    let q = skip_ws_exec(t, p + 1);
    let inner = match parse_int_attr(t, q) {
        Some(x) => Some(x),
        None => match parse_str_attr(t, q) {
            Some(x) => Some(x),
            None => parse_bool_attr(t, q),
        },
    };
    match inner {
        Some((a, r)) => {
            let e = skip_ws_exec(t, r);
            if e < t.len() && matches!(t[e], Token::RBracket) {
                Some((a, e + 1))
            } else {
                None
            }
        },
        None => None,
    }
}

fn parse_ident_arg(t: &Vec<Token>, p: usize) -> (r: Option<(String, usize)>)
    requires
        p <= t@.len(),
    ensures
        match r {
            Some((s, q)) => p_ident_arg(view_tokens(t@), p as int) == Some((s@, q as int)) && p < q <= t@.len(),
            None => p_ident_arg(view_tokens(t@), p as int) is None,
        },
{
    if p >= t.len() || !matches!(t[p], Token::LParen) {
        return None;
    }
    let q = skip_ws_exec(t, p + 1);
    if q >= t.len() {
        return None;
    }
    let s = match &t[q] {
        Token::Ident(s) => s.clone(),
        _ => { return None; }
    };
    let e = skip_ws_exec(t, q + 1);
    if e < t.len() && matches!(t[e], Token::RParen) {
        Some((s, e + 1))
    } else {
        None
    }
}

fn parse_int_arg(t: &Vec<Token>, p: usize) -> (r: Option<(i32, usize)>)
    requires
        p <= t@.len(),
    ensures
        match r {
            Some((v, q)) => p_int_arg(view_tokens(t@), p as int) == Some((v, q as int)) && p < q <= t@.len(),
            None => p_int_arg(view_tokens(t@), p as int) is None,
        },
{
    if p >= t.len() || !matches!(t[p], Token::LParen) {
        return None;
    }
    let q = skip_ws_exec(t, p + 1);
    if q >= t.len() {
        return None;
    }
    let v = match &t[q] {
        Token::Int(v) => *v,
        _ => { return None; }
    };
    let e = skip_ws_exec(t, q + 1);
    if e < t.len() && matches!(t[e], Token::RParen) {
        Some((v, e + 1))
    } else {
        None
    }
}

// ---------------------------------------------------------------------------
// Selectors, complex and compound selectors

pub open spec fn view_complexes(v: Seq<ComplexSelector>) -> Seq<ComplexV> {
    v.map_values(|c: ComplexSelector| view_complex(c))
}

pub open spec fn view_pseudos(v: Seq<PseudoClassSelector>) -> Seq<PseudoV> {
    v.map_values(|c: PseudoClassSelector| view_pseudo(c))
}

pub open spec fn view_attrs(v: Seq<AttrSelector>) -> Seq<crate::selector::ast::AttrV> {
    v.map_values(|a: AttrSelector| view_attr(a))
}

proof fn lemma_view_selector(s: Selector)
    ensures
        view_selector(s).alternatives == view_complexes(s.alternatives@),
{
    assert(view_selector(s).alternatives =~= view_complexes(s.alternatives@));
}

proof fn lemma_view_compound(c: CompoundSelector)
    ensures
        view_compound(c).pseudo_classes == view_pseudos(c.pseudo_classes@),
        view_compound(c).attrs == view_attrs(c.attrs@),
        view_compound(c).states == view_strings(c.states@),
{
    assert(view_compound(c).pseudo_classes =~= view_pseudos(c.pseudo_classes@));
    assert(view_compound(c).attrs =~= view_attrs(c.attrs@));
}

/// An item of a compound selector.
enum Item {
    Attr(AttrSelector),
    Pseudo(PseudoClassSelector),
    State(String),
}

spec fn view_item(i: Item) -> ItemV {
    match i {
        Item::Attr(a) => ItemV::Attr(view_attr(a)),
        Item::Pseudo(p) => ItemV::Pseudo(view_pseudo(p)),
        Item::State(s) => ItemV::State(s@),
    }
}

/// Reads `selector` (the alternatives of `complex (ws* ',' ws* complex)*`) at `p`.
fn parse_selector(t: &Vec<Token>, p: usize) -> (r: Option<(Selector, usize)>)
    requires
        p <= t@.len(),
        tokens_wf(view_tokens(t@)),
    ensures
        match r {
            Some((s, q)) => p_selector(view_tokens(t@), p as int) == Some((view_selector(s), q as int)) && p <= q <= t@.len(),
            None => p_selector(view_tokens(t@), p as int) is None,
        },
    decreases t@.len() - p, 7int,
{
    let (first, q) = match parse_complex(t, p) {
        Some(x) => x,
        None => { return None; }
    };
    let (mut rest, e) = parse_sel_tail(t, q);
    let mut alternatives: Vec<ComplexSelector> = Vec::new();
    alternatives.push(first);
    let ghost rest_v = view_complexes(rest@);
    let ghost first_v = view_complex(first);
    alternatives.append(&mut rest);
    let s = Selector { alternatives };
    proof {
        lemma_view_selector(s);
        assert(view_complexes(s.alternatives@) =~= seq![first_v] + rest_v);
    }
    Some((s, e))
}

/// Reads `(ws* ',' ws* complex)*` at `p`.
fn parse_sel_tail(t: &Vec<Token>, p: usize) -> (r: (Vec<ComplexSelector>, usize))
    requires
        p <= t@.len(),
        tokens_wf(view_tokens(t@)),
    ensures
        p_sel_tail(view_tokens(t@), p as int) == (view_complexes(r.0@), r.1 as int),
        p <= r.1 <= t@.len(),
    decreases t@.len() - p, 6int,
{
    let ghost tv = view_tokens(t@);
    let mut out: Vec<ComplexSelector> = Vec::new();
    let mut cur = p;
    assert(view_complexes(out@) + p_sel_tail(tv, cur as int).0 =~= p_sel_tail(tv, cur as int).0);
    loop
        invariant
            p <= cur <= t@.len(),
            tv == view_tokens(t@),
            tokens_wf(tv),
            p_sel_tail(tv, p as int) == (view_complexes(out@) + p_sel_tail(tv, cur as int).0, p_sel_tail(tv, cur as int).1),
        decreases t@.len() - cur,
    {
        let q = skip_ws_exec(t, cur);
        if !(q < t.len() && matches!(t[q], Token::Comma)) {
            assert(p_sel_tail(tv, cur as int) == (Seq::<ComplexV>::empty(), cur as int));
            assert(view_complexes(out@) + Seq::<ComplexV>::empty() =~= view_complexes(out@));
            return (out, cur);
        }
        let r = skip_ws_exec(t, q + 1);
        match parse_complex(t, r) {
            Some((c, e)) => {
                let ghost old_out = out@;
                let ghost tail_e = p_sel_tail(tv, e as int);
                out.push(c);
                assert(view_complexes(out@) =~= view_complexes(old_out).push(view_complex(c)));
                assert(view_complexes(old_out) + (seq![view_complex(c)] + tail_e.0)
                    =~= view_complexes(out@) + tail_e.0);
                cur = e;
            },
            None => {
                assert(view_complexes(out@) + Seq::<ComplexV>::empty() =~= view_complexes(out@));
                return (out, cur);
            },
        }
    }
}

/// Reads `combinator? compound (combinator compound)*` at `p`.
fn parse_complex(t: &Vec<Token>, p: usize) -> (r: Option<(ComplexSelector, usize)>)
    requires
        p <= t@.len(),
        tokens_wf(view_tokens(t@)),
    ensures
        match r {
            Some((c, q)) => p_complex(view_tokens(t@), p as int) == Some((view_complex(c), q as int)) && p < q <= t@.len(),
            None => p_complex(view_tokens(t@), p as int) is None,
        },
    decreases t@.len() - p, 5int,
{
    let (head, q) = match parse_combinator(t, p) {
        Some((c, q)) => (Some(c), q),
        None => (None, p),
    };
    let (first, r) = match parse_compound(t, q) {
        Some(x) => x,
        None => { return None; }
    };
    let (combs, comps, e) = parse_cx_tail(t, r);
    let ghost tail = p_cx_tail(view_tokens(t@), r as int).0;
    let ghost first_v = view_compound(first);
    let k = combs.len();
    let mut all: Vec<CompoundSelector> = Vec::new();
    all.push(first);
    let mut comps = comps;
    let ghost old_comps = comps@;
    all.append(&mut comps);
    let ghost compound_at = |i: int| if i == 0 { first_v } else { tail[i - 1].1 };
    assert forall|i: int| 0 <= i <= k implies view_compound(#[trigger] all@[i]) == compound_at(i) by {
        if i > 0 {
            assert(all@[i] == old_comps[i - 1]);
            assert(tail[i - 1].1 == view_compound(old_comps[i - 1]));
        }
    }
    let last = all.pop().unwrap();
    let mut body: Vec<(CompoundSelector, Combinator)> = Vec::new();
    let mut j: usize = 0;
    while j < k
        invariant
            k == combs@.len(),
            k == tail.len(),
            0 <= j <= k,
            all@.len() == k - j,
            forall|i: int| 0 <= i < k - j ==> view_compound(#[trigger] all@[i]) == compound_at(i),
            forall|i: int| 0 <= i < k ==> combs@[i] == (#[trigger] tail[i]).0,
            body@.len() == j,
            forall|i: int| 0 <= i < j ==> (view_compound(#[trigger] body@[i].0), body@[i].1) == (compound_at(k - 1 - i), tail[k - 1 - i].0),
        decreases k - j,
    {
        let c = all.pop().unwrap();
        body.push((c, combs[k - 1 - j]));
        j += 1;
    }
    let ghost spec_c = build_complex(head, first_v, tail);
    let cx = ComplexSelector { head, body, last };
    assert(view_complex(cx).body =~= spec_c.body);
    Some((cx, e))
}

/// Reads `(combinator compound)*` at `p`, as the combinators and the compounds.
fn parse_cx_tail(t: &Vec<Token>, p: usize) -> (r: (Vec<Combinator>, Vec<CompoundSelector>, usize))
    requires
        p <= t@.len(),
        tokens_wf(view_tokens(t@)),
    ensures
        r.0@.len() == r.1@.len(),
        p_cx_tail(view_tokens(t@), p as int).1 == r.2 as int,
        p_cx_tail(view_tokens(t@), p as int).0 == Seq::new(r.0@.len(), |i: int| (r.0@[i], view_compound(r.1@[i]))),
        p <= r.2 <= t@.len(),
    decreases t@.len() - p, 4int,
{
    let ghost tv = view_tokens(t@);
    let mut combs: Vec<Combinator> = Vec::new();
    let mut comps: Vec<CompoundSelector> = Vec::new();
    let mut cur = p;
    let ghost acc: Seq<(Combinator, CompoundV)> = seq![];
    assert(acc + p_cx_tail(tv, cur as int).0 =~= p_cx_tail(tv, cur as int).0);
    loop
        invariant
            p <= cur <= t@.len(),
            tv == view_tokens(t@),
            tokens_wf(tv),
            combs@.len() == comps@.len(),
            acc == Seq::new(combs@.len(), |i: int| (combs@[i], view_compound(comps@[i]))),
            p_cx_tail(tv, p as int) == (acc + p_cx_tail(tv, cur as int).0, p_cx_tail(tv, cur as int).1),
        decreases t@.len() - cur,
    {
        let (c, q) = match parse_combinator(t, cur) {
            Some(x) => x,
            None => {
                assert(acc + Seq::<(Combinator, CompoundV)>::empty() =~= acc);
                return (combs, comps, cur);
            },
        };
        match parse_compound(t, q) {
            Some((x, r)) => {
                let ghost xv = view_compound(x);
                let ghost tail_r = p_cx_tail(tv, r as int);
                combs.push(c);
                comps.push(x);
                proof {
                    assert(acc + (seq![(c, xv)] + tail_r.0) =~= acc.push((c, xv)) + tail_r.0);
                    acc = acc.push((c, xv));
                    assert(acc =~= Seq::new(combs@.len(), |i: int| (combs@[i], view_compound(comps@[i]))));
                }
                cur = r;
            },
            None => {
                assert(acc + Seq::<(Combinator, CompoundV)>::empty() =~= acc);
                return (combs, comps, cur);
            },
        }
    }
}

/// Reads `role? item*` at `p`.
fn parse_compound(t: &Vec<Token>, p: usize) -> (r: Option<(CompoundSelector, usize)>)
    requires
        p <= t@.len(),
        tokens_wf(view_tokens(t@)),
    ensures
        match r {
            Some((c, q)) => p_compound(view_tokens(t@), p as int) == Some((view_compound(c), q as int)) && p < q <= t@.len(),
            None => p_compound(view_tokens(t@), p as int) is None,
        },
    decreases t@.len() - p, 3int,
{
    let ghost tv = view_tokens(t@);
    let (role_present, role, q) = match parse_role(t, p) {
        Some((role, q)) => (true, role, q),
        None => (false, None, p),
    };
    let (states, attrs, pseudo_classes, e) = parse_items(t, q);
    let ghost items = p_items(tv, q as int).0;
    proof { lemma_items_split(items); }
    if !role_present && states.len() == 0 && attrs.len() == 0 && pseudo_classes.len() == 0 {
        return None;
    }
    let c = CompoundSelector { role, states, attrs, pseudo_classes };
    proof { lemma_view_compound(c); }
    Some((c, e))
}

/// Reads `item*` at `p`, sorted into states, attributes and pseudo-classes.
fn parse_items(t: &Vec<Token>, p: usize) -> (r: (Vec<String>, Vec<AttrSelector>, Vec<PseudoClassSelector>, usize))
    requires
        p <= t@.len(),
        tokens_wf(view_tokens(t@)),
    ensures
        view_strings(r.0@) == items_states(p_items(view_tokens(t@), p as int).0),
        view_attrs(r.1@) == items_attrs(p_items(view_tokens(t@), p as int).0),
        view_pseudos(r.2@) == items_pseudos(p_items(view_tokens(t@), p as int).0),
        r.3 as int == p_items(view_tokens(t@), p as int).1,
        p <= r.3 <= t@.len(),
        r.3 == p ==> p_items(view_tokens(t@), p as int).0.len() == 0,
    decreases t@.len() - p, 2int,
{
    let ghost tv = view_tokens(t@);
    let mut states: Vec<String> = Vec::new();
    let mut attrs: Vec<AttrSelector> = Vec::new();
    let mut pseudos: Vec<PseudoClassSelector> = Vec::new();
    let mut cur = p;
    let ghost acc: Seq<ItemV> = seq![];
    assert(acc + p_items(tv, cur as int).0 =~= p_items(tv, cur as int).0);
    loop
        invariant
            p <= cur <= t@.len(),
            tv == view_tokens(t@),
            tokens_wf(tv),
            view_strings(states@) == items_states(acc),
            view_attrs(attrs@) == items_attrs(acc),
            view_pseudos(pseudos@) == items_pseudos(acc),
            cur == p ==> acc.len() == 0,
            p_items(tv, p as int) == (acc + p_items(tv, cur as int).0, p_items(tv, cur as int).1),
        decreases t@.len() - cur,
    {
        match parse_item(t, cur) {
            Some((it, q)) => {
                let ghost iv = view_item(it);
                let ghost tail_q = p_items(tv, q as int);
                proof {
                    assert(acc + (seq![iv] + tail_q.0) =~= acc.push(iv) + tail_q.0);
                    assert(acc.push(iv).drop_last() =~= acc);
                }
                match it {
                    Item::Attr(a) => {
                        attrs.push(a);
                        assert(view_attrs(attrs@) =~= items_attrs(acc.push(iv)));
                        assert(view_strings(states@) =~= items_states(acc.push(iv)));
                        assert(view_pseudos(pseudos@) =~= items_pseudos(acc.push(iv)));
                    },
                    Item::Pseudo(x) => {
                        pseudos.push(x);
                        assert(view_attrs(attrs@) =~= items_attrs(acc.push(iv)));
                        assert(view_strings(states@) =~= items_states(acc.push(iv)));
                        assert(view_pseudos(pseudos@) =~= items_pseudos(acc.push(iv)));
                    },
                    Item::State(s) => {
                        states.push(s);
                        assert(view_attrs(attrs@) =~= items_attrs(acc.push(iv)));
                        assert(view_strings(states@) =~= items_states(acc.push(iv)));
                        assert(view_pseudos(pseudos@) =~= items_pseudos(acc.push(iv)));
                    },
                }
                proof { acc = acc.push(iv); }
                cur = q;
            },
            None => {
                assert(acc + Seq::<ItemV>::empty() =~= acc);
                return (states, attrs, pseudos, cur);
            },
        }
    }
}

/// Reads one `attr | pseudo | '.' ident` at `p`.
fn parse_item(t: &Vec<Token>, p: usize) -> (r: Option<(Item, usize)>)
    requires
        p <= t@.len(),
        tokens_wf(view_tokens(t@)),
    ensures
        match r {
            Some((it, q)) => p_item(view_tokens(t@), p as int) == Some((view_item(it), q as int)) && p < q <= t@.len(),
            None => p_item(view_tokens(t@), p as int) is None,
        },
    decreases t@.len() - p, 1int,
{
    if p >= t.len() {
        return None;
    }
    match &t[p] {
        Token::LBracket => match parse_attr(t, p) {
            Some((a, q)) => Some((Item::Attr(a), q)),
            None => None,
        },
        Token::Colon => match parse_pseudo(t, p) {
            Some((x, q)) => Some((Item::Pseudo(x), q)),
            None => None,
        },
        Token::Dot => {
            if p + 1 < t.len() {
                if let Token::Ident(s) = &t[p + 1] {
                    return Some((Item::State(s.clone()), p + 2));
                }
            }
            None
        },
        _ => None,
    }
}

/// Reads `'(' ws* selector ws* ')'` at `p`.
#[verifier::rlimit(40)]
fn parse_sel_arg(t: &Vec<Token>, p: usize) -> (r: Option<(Selector, usize)>)
    requires
        p <= t@.len(),
        tokens_wf(view_tokens(t@)),
    ensures
        match r {
            Some((s, q)) => p_sel_arg(view_tokens(t@), p as int) == Some((view_selector(s), q as int)) && p < q <= t@.len(),
            None => p_sel_arg(view_tokens(t@), p as int) is None,
        },
    decreases t@.len() - p, 0int,
{
    if p >= t.len() || !matches!(t[p], Token::LParen) {
        return None;
    }
    let q = skip_ws_exec(t, p + 1);
    let (s, r) = match parse_selector(t, q) {
        Some(x) => x,
        None => { return None; }
    };
    let e = skip_ws_exec(t, r);
    if e < t.len() && matches!(t[e], Token::RParen) {
        Some((s, e + 1))
    } else {
        None
    }
}

/// Applies [`anchor_complex`] to every alternative.
fn anchor(s: Selector) -> (r: Selector)
    ensures
        view_selector(r) == anchor_selector(view_selector(s)),
{
    let mut alts = s.alternatives;
    let ghost orig = view_complexes(alts@);
    let mut i: usize = 0;
    while i < alts.len()
        invariant
            0 <= i <= alts@.len(),
            orig.len() == alts@.len(),
            forall|j: int| 0 <= j < i ==> view_complex(#[trigger] alts@[j]) == anchor_complex(orig[j]),
            forall|j: int| i <= j < alts@.len() ==> view_complex(#[trigger] alts@[j]) == orig[j],
        decreases alts.len() - i,
    {
        if !alts[i].is_relative() && !alts[i].last.has_scope() {
            alts[i].head = Some(Combinator::Descendant);
        }
        i += 1;
    }
    let r = Selector { alternatives: alts };
    proof {
        lemma_view_selector(r);
        lemma_view_selector(s);
        assert(view_selector(r).alternatives =~= anchor_selector(view_selector(s)).alternatives);
    }
    r
}

/// Reads `':' name argument?` at `p`.
fn parse_pseudo(t: &Vec<Token>, p: usize) -> (r: Option<(PseudoClassSelector, usize)>)
    requires
        p <= t@.len(),
        tokens_wf(view_tokens(t@)),
    ensures
        match r {
            Some((x, q)) => p_pseudo(view_tokens(t@), p as int) == Some((view_pseudo(x), q as int)) && p < q <= t@.len(),
            None => p_pseudo(view_tokens(t@), p as int) is None,
        },
    decreases t@.len() - p, 0int,
{
    if t.len() - p < 2 || !matches!(t[p], Token::Colon) {
        return None;
    }
    let n = match &t[p + 1] {
        Token::Ident(n) => n.as_str(),
        _ => { return None; }
    };
    if str_eq(n, "scope") {
        Some((PseudoClassSelector::Scope, p + 2))
    } else if str_eq(n, "has") {
        match parse_sel_arg(t, p + 2) {
            Some((s, e)) => Some((PseudoClassSelector::Has(Box::new(anchor(s))), e)),
            None => None,
        }
    } else if str_eq(n, "not") {
        match parse_sel_arg(t, p + 2) {
            Some((s, e)) => if s.any_relative() {
                None
            } else {
                Some((PseudoClassSelector::Not(Box::new(s)), e))
            },
            None => None,
        }
    } else if str_eq(n, "require-state") {
        match parse_ident_arg(t, p + 2) {
            Some((s, e)) => Some((PseudoClassSelector::RequireState(s), e)),
            None => None,
        }
    } else if str_eq(n, "exclude-state") {
        match parse_ident_arg(t, p + 2) {
            Some((s, e)) => Some((PseudoClassSelector::ExcludeState(s), e)),
            None => None,
        }
    } else if str_eq(n, "nth-child") {
        match parse_int_arg(t, p + 2) {
            Some((v, e)) => Some((PseudoClassSelector::NthChild(v), e)),
            None => None,
        }
    } else if str_eq(n, "nth-last-child") {
        match parse_int_arg(t, p + 2) {
            Some((v, e)) => Some((PseudoClassSelector::NthLastChild(v), e)),
            None => None,
        }
    } else {
        None
    }
}

/// Reads a whole token sequence as a selector.
///
/// Succeeds exactly when [`parse_spec`] does, with the same value: the tokens must
/// form a selector, leave nothing behind, and hold no relative alternative. The
/// error says which of these failed ([`parse_error_text`]).
pub fn parser(tokens: &Vec<Token>) -> (r: Result<Selector, String>)
    requires
        tokens_wf(view_tokens(tokens@)),
    ensures
        match r {
            Ok(s) => parse_spec(view_tokens(tokens@)) == Some(view_selector(s)),
            Err(m) => parse_spec(view_tokens(tokens@)) is None && m@ == parse_error_text(view_tokens(tokens@)),
        },
{
    match parse_selector(tokens, 0) {
        Some((s, e)) => {
            if e != tokens.len() {
                Err(str_to_string("unexpected input after the selector"))
            } else if s.any_relative() {
                Err(str_to_string("relative selectors are not allowed at the top level"))
            } else {
                Ok(s)
            }
        },
        None => Err(str_to_string("expected a selector")),
    }
}

} // verus!
