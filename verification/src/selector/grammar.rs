//! The selector grammar over tokens, as mathematical functions.
//!
//! Each `p_*` function reads the construct it names at position `p` of `t` and gives
//! its value and the position after it, or `None`.  Alternatives are tried in order
//! and the first success is kept; repetitions are greedy and end at the first
//! iteration that fails, which consumes nothing.
use vstd::prelude::*;

use crate::selector::ast::{
    any_relative, has_scope, is_relative_spec, AttrFlags, AttrV, BoolAttrName, Combinator, ComplexV, CompoundV,
    IntAttrName, IntOp, MatcherV, PseudoV, SelectorV, StrAttrName, StringOp,
};
use crate::selector::lexer::TokenV;
use crate::pattern::regex_compiles;

verus! {

pub open spec fn tok(t: Seq<TokenV>, p: int) -> Option<TokenV> {
    if 0 <= p < t.len() {
        Some(t[p])
    } else {
        None
    }
}

/// Position after the whitespace tokens that start at `p`.
pub open spec fn skip_ws(t: Seq<TokenV>, p: int) -> int
    decreases t.len() - p,
{
    if 0 <= p < t.len() && t[p] is Whitespace {
        skip_ws(t, p + 1)
    } else {
        p
    }
}

pub proof fn lemma_skip_ws(t: Seq<TokenV>, p: int)
    requires
        0 <= p <= t.len(),
    ensures
        p <= skip_ws(t, p) <= t.len(),
        forall|k: int| p <= k < skip_ws(t, p) ==> t[k] is Whitespace,
        skip_ws(t, p) < t.len() ==> !(t[skip_ws(t, p)] is Whitespace),
    decreases t.len() - p,
{
    if p < t.len() && t[p] is Whitespace {
        lemma_skip_ws(t, p + 1);
    }
}

/// `ws* ('>' | '+' | '~') ws*`, or else `ws+` (the descendant combinator).
pub open spec fn p_combinator(t: Seq<TokenV>, p: int) -> Option<(Combinator, int)> {
    let q = skip_ws(t, p);
    match tok(t, q) {
        Some(TokenV::Gt) => Some((Combinator::Child, skip_ws(t, q + 1))),
        Some(TokenV::Plus) => Some((Combinator::NextSibling, skip_ws(t, q + 1))),
        Some(TokenV::Tilde) => Some((Combinator::SubsequentSibling, skip_ws(t, q + 1))),
        _ => if q > p {
            Some((Combinator::Descendant, q))
        } else {
            None
        },
    }
}

/// The role of a compound: `*` (any role) or an identifier.
pub enum RoleV {
    Any,
    Named(Seq<char>),
}

pub open spec fn p_role(t: Seq<TokenV>, p: int) -> Option<(RoleV, int)> {
    match tok(t, p) {
        Some(TokenV::Star) => Some((RoleV::Any, p + 1)),
        Some(TokenV::Ident(s)) => Some((RoleV::Named(s), p + 1)),
        _ => None,
    }
}

pub open spec fn escaped_char(c: char) -> char {
    if c == 'n' {
        '\n'
    } else if c == 't' {
        '\t'
    } else {
        c
    }
}

/// The characters denoted by the body of a string literal: a backslash takes the next
/// character literally (`\n` and `\t` stand for newline and tab); a final lone
/// backslash is dropped.
pub open spec fn unescape(body: Seq<char>) -> Seq<char>
    decreases body.len(),
{
    if body.len() == 0 {
        seq![]
    } else if body[0] == '\\' {
        if body.len() == 1 {
            seq![]
        } else {
            seq![escaped_char(body[1])] + unescape(body.subrange(2, body.len() as int))
        }
    } else {
        seq![body[0]] + unescape(body.subrange(1, body.len() as int))
    }
}

/// The value of a quoted string token (quotes included in `raw`).
pub open spec fn string_value(raw: Seq<char>) -> Seq<char> {
    unescape(raw.subrange(1, raw.len() - 1))
}

pub open spec fn str_attr_name(n: Seq<char>) -> Option<StrAttrName> {
    if n == "name"@ {
        Some(StrAttrName::Name)
    } else if n == "description"@ {
        Some(StrAttrName::Description)
    } else if n == "states"@ {
        Some(StrAttrName::States)
    } else if n == "states_en_us"@ {
        Some(StrAttrName::StatesEnUs)
    } else if n == "text"@ {
        Some(StrAttrName::Text)
    } else if n == "actions"@ {
        Some(StrAttrName::Actions)
    } else {
        None
    }
}

pub open spec fn int_attr_name(n: Seq<char>) -> Option<IntAttrName> {
    if n == "x"@ {
        Some(IntAttrName::X)
    } else if n == "y"@ {
        Some(IntAttrName::Y)
    } else if n == "width"@ {
        Some(IntAttrName::Width)
    } else if n == "height"@ {
        Some(IntAttrName::Height)
    } else if n == "children_count"@ {
        Some(IntAttrName::ChildrenCount)
    } else if n == "depth"@ {
        Some(IntAttrName::Depth)
    } else {
        None
    }
}

pub open spec fn bool_attr_name(n: Seq<char>) -> Option<BoolAttrName> {
    if n == "accessible_action"@ {
        Some(BoolAttrName::AccessibleAction)
    } else if n == "accessible_text"@ {
        Some(BoolAttrName::AccessibleText)
    } else if n == "accessible_selection"@ {
        Some(BoolAttrName::AccessibleSelection)
    } else {
        None
    }
}

pub open spec fn string_op_of(t: Option<TokenV>) -> Option<StringOp> {
    match t {
        Some(TokenV::Eq) => Some(StringOp::Eq),
        Some(TokenV::TildeEq) => Some(StringOp::ContainsWord),
        Some(TokenV::CaretEq) => Some(StringOp::Starts),
        Some(TokenV::DolarEq) => Some(StringOp::Ends),
        Some(TokenV::StarEq) => Some(StringOp::Contains),
        _ => None,
    }
}

pub open spec fn int_op_of(t: Option<TokenV>) -> Option<IntOp> {
    match t {
        Some(TokenV::EqEq) => Some(IntOp::Eq),
        Some(TokenV::Ne) => Some(IntOp::Ne),
        Some(TokenV::Le) => Some(IntOp::Le),
        Some(TokenV::Ge) => Some(IntOp::Ge),
        Some(TokenV::Lt) => Some(IntOp::Lt),
        Some(TokenV::Gt) => Some(IntOp::Gt),
        _ => None,
    }
}

/// Attribute flags: an identifier made of the letters `i` (case-insensitive) and `r`
/// (regular expression).
pub open spec fn valid_flags(f: Seq<char>) -> bool {
    forall|k: int| 0 <= k < f.len() ==> (#[trigger] f[k] == 'i' || f[k] == 'r')
}

/// `name ws* op ws* int`
pub open spec fn p_int_attr(t: Seq<TokenV>, p: int) -> Option<(AttrV, int)> {
    match tok(t, p) {
        Some(TokenV::Ident(n)) => match int_attr_name(n) {
            Some(name) => {
                let q = skip_ws(t, p + 1);
                match int_op_of(tok(t, q)) {
                    Some(op) => {
                        let r = skip_ws(t, q + 1);
                        match tok(t, r) {
                            Some(TokenV::Int(v)) => Some((AttrV::Int { name, op, value: Some(v) }, r + 1)),
                            _ => None,
                        }
                    },
                    None => None,
                }
            },
            None => None,
        },
        _ => None,
    }
}

/// `name ws* op ws* string ws* flags?`
pub open spec fn p_str_attr(t: Seq<TokenV>, p: int) -> Option<(AttrV, int)> {
    match tok(t, p) {
        Some(TokenV::Ident(n)) => match str_attr_name(n) {
            Some(name) => {
                let q = skip_ws(t, p + 1);
                match string_op_of(tok(t, q)) {
                    Some(op) => {
                        let r = skip_ws(t, q + 1);
                        match tok(t, r) {
                            Some(TokenV::Str(raw)) => {
                                let value = string_value(raw);
                                let f = skip_ws(t, r + 1);
                                let (flags_ok, ci, re, end) = match tok(t, f) {
                                    Some(TokenV::Ident(fl)) => (
                                        valid_flags(fl),
                                        fl.contains('i'),
                                        fl.contains('r'),
                                        f + 1,
                                    ),
                                    _ => (true, false, false, f),
                                };
                                if !flags_ok {
                                    None
                                } else if re {
                                    if regex_compiles(value) {
                                        Some((AttrV::Str { name, op, value: MatcherV::Regex(value), flags: AttrFlags { case_insensitive: ci } }, end))
                                    } else {
                                        None
                                    }
                                } else {
                                    Some((AttrV::Str { name, op, value: MatcherV::Plain(value), flags: AttrFlags { case_insensitive: ci } }, end))
                                }
                            },
                            _ => None,
                        }
                    },
                    None => None,
                }
            },
            None => None,
        },
        _ => None,
    }
}

pub open spec fn p_bool_attr(t: Seq<TokenV>, p: int) -> Option<(AttrV, int)> {
    match tok(t, p) {
        Some(TokenV::Ident(n)) => match bool_attr_name(n) {
            Some(name) => Some((AttrV::Bool { name }, p + 1)),
            None => None,
        },
        _ => None,
    }
}

/// `'[' ws* (int_attr | str_attr | bool_attr) ws* ']'`
pub open spec fn p_attr(t: Seq<TokenV>, p: int) -> Option<(AttrV, int)> {
    match tok(t, p) {
        Some(TokenV::LBracket) => {
            let q = skip_ws(t, p + 1);
            let inner = match p_int_attr(t, q) {
                Some(x) => Some(x),
                None => match p_str_attr(t, q) {
                    Some(x) => Some(x),
                    None => p_bool_attr(t, q),
                },
            };
            match inner {
                Some((a, r)) => {
                    let e = skip_ws(t, r);
                    match tok(t, e) {
                        Some(TokenV::RBracket) => Some((a, e + 1)),
                        _ => None,
                    }
                },
                None => None,
            }
        },
        _ => None,
    }
}

/// `'(' ws* ident ws* ')'`
pub open spec fn p_ident_arg(t: Seq<TokenV>, p: int) -> Option<(Seq<char>, int)> {
    match tok(t, p) {
        Some(TokenV::LParen) => {
            let q = skip_ws(t, p + 1);
            match tok(t, q) {
                Some(TokenV::Ident(s)) => {
                    let e = skip_ws(t, q + 1);
                    match tok(t, e) {
                        Some(TokenV::RParen) => Some((s, e + 1)),
                        _ => None,
                    }
                },
                _ => None,
            }
        },
        _ => None,
    }
}

/// `'(' ws* int ws* ')'`
pub open spec fn p_int_arg(t: Seq<TokenV>, p: int) -> Option<(i32, int)> {
    match tok(t, p) {
        Some(TokenV::LParen) => {
            let q = skip_ws(t, p + 1);
            match tok(t, q) {
                Some(TokenV::Int(v)) => {
                    let e = skip_ws(t, q + 1);
                    match tok(t, e) {
                        Some(TokenV::RParen) => Some((v, e + 1)),
                        _ => None,
                    }
                },
                _ => None,
            }
        },
        _ => None,
    }
}

/// Inside `:has()`, an alternative that is not already relative is read as a
/// descendant of the reference element.
pub open spec fn anchor_complex(c: ComplexV) -> ComplexV {
    if !is_relative_spec(c) && !has_scope(c.last) {
        ComplexV { head: Some(Combinator::Descendant), ..c }
    } else {
        c
    }
}

pub open spec fn anchor_selector(s: SelectorV) -> SelectorV {
    SelectorV { alternatives: s.alternatives.map_values(|c: ComplexV| anchor_complex(c)) }
}

/// Assembles a complex selector from its leading combinator, its first compound and
/// the (combinator, compound) pairs that follow, stored right to left.
pub open spec fn build_complex(
    head: Option<Combinator>,
    first: CompoundV,
    tail: Seq<(Combinator, CompoundV)>,
) -> ComplexV {
    let k = tail.len();
    let compound_at = |i: int| if i == 0 { first } else { tail[i - 1].1 };
    ComplexV {
        head,
        body: Seq::new(k, |j: int| (compound_at(k - 1 - j), tail[k - 1 - j].0)),
        last: compound_at(k as int),
    }
}

/// An item of a compound selector.
pub enum ItemV {
    Attr(AttrV),
    Pseudo(PseudoV),
    State(Seq<char>),
}

pub open spec fn items_attrs(items: Seq<ItemV>) -> Seq<AttrV>
    decreases items.len(),
{
    if items.len() == 0 {
        seq![]
    } else {
        let rest = items_attrs(items.drop_last());
        match items.last() {
            ItemV::Attr(a) => rest.push(a),
            _ => rest,
        }
    }
}

pub open spec fn items_pseudos(items: Seq<ItemV>) -> Seq<PseudoV>
    decreases items.len(),
{
    if items.len() == 0 {
        seq![]
    } else {
        let rest = items_pseudos(items.drop_last());
        match items.last() {
            ItemV::Pseudo(a) => rest.push(a),
            _ => rest,
        }
    }
}

pub open spec fn items_states(items: Seq<ItemV>) -> Seq<Seq<char>>
    decreases items.len(),
{
    if items.len() == 0 {
        seq![]
    } else {
        let rest = items_states(items.drop_last());
        match items.last() {
            ItemV::State(a) => rest.push(a),
            _ => rest,
        }
    }
}

pub proof fn lemma_items_split(items: Seq<ItemV>)
    ensures
        items_attrs(items).len() + items_pseudos(items).len() + items_states(items).len() == items.len(),
    decreases items.len(),
{
    if items.len() > 0 {
        lemma_items_split(items.drop_last());
    }
}

/// `complex (ws* ',' ws* complex)*`
pub open spec fn p_selector(t: Seq<TokenV>, p: int) -> Option<(SelectorV, int)>
    decreases t.len() - p, 7int,
{
    if 0 <= p <= t.len() {
        match p_complex(t, p) {
            Some((c, q)) => if p <= q <= t.len() {
                let (rest, e) = p_sel_tail(t, q);
                Some((SelectorV { alternatives: seq![c] + rest }, e))
            } else {
                None
            },
            None => None,
        }
    } else {
        None
    }
}

/// `(ws* ',' ws* complex)*`
pub open spec fn p_sel_tail(t: Seq<TokenV>, p: int) -> (Seq<ComplexV>, int)
    decreases t.len() - p, 6int,
{
    if 0 <= p <= t.len() {
        let q = skip_ws(t, p);
        match tok(t, q) {
            Some(TokenV::Comma) => {
                let r = skip_ws(t, q + 1);
                if p < r <= t.len() {
                    match p_complex(t, r) {
                        Some((c, e)) => if r <= e <= t.len() {
                            let (rest, f) = p_sel_tail(t, e);
                            (seq![c] + rest, f)
                        } else {
                            (seq![], p)
                        },
                        None => (seq![], p),
                    }
                } else {
                    (seq![], p)
                }
            },
            _ => (seq![], p),
        }
    } else {
        (seq![], p)
    }
}

/// `combinator? compound (combinator compound)*`
pub open spec fn p_complex(t: Seq<TokenV>, p: int) -> Option<(ComplexV, int)>
    decreases t.len() - p, 5int,
{
    if 0 <= p <= t.len() {
        let (head, q) = match p_combinator(t, p) {
            Some((c, q)) => (Some(c), q),
            None => (None, p),
        };
        if p <= q <= t.len() {
            match p_compound(t, q) {
                Some((first, r)) => if q <= r <= t.len() {
                    let (tail, e) = p_cx_tail(t, r);
                    Some((build_complex(head, first, tail), e))
                } else {
                    None
                },
                None => None,
            }
        } else {
            None
        }
    } else {
        None
    }
}

/// `(combinator compound)*`
pub open spec fn p_cx_tail(t: Seq<TokenV>, p: int) -> (Seq<(Combinator, CompoundV)>, int)
    decreases t.len() - p, 4int,
{
    if 0 <= p <= t.len() {
        match p_combinator(t, p) {
            Some((c, q)) => if p < q <= t.len() {
                match p_compound(t, q) {
                    Some((x, r)) => if q <= r <= t.len() {
                        let (rest, e) = p_cx_tail(t, r);
                        (seq![(c, x)] + rest, e)
                    } else {
                        (seq![], p)
                    },
                    None => (seq![], p),
                }
            } else {
                (seq![], p)
            },
            None => (seq![], p),
        }
    } else {
        (seq![], p)
    }
}

/// `role? item*`, with at least one of the two.
pub open spec fn p_compound(t: Seq<TokenV>, p: int) -> Option<(CompoundV, int)>
    decreases t.len() - p, 3int,
{
    if 0 <= p <= t.len() {
        let (role, q) = match p_role(t, p) {
            Some((r, q)) => (Some(r), q),
            None => (None, p),
        };
        if p <= q <= t.len() {
            let (items, e) = p_items(t, q);
            if role is None && items.len() == 0 {
                None
            } else {
                Some((
                    CompoundV {
                        role: match role {
                            Some(RoleV::Named(n)) => Some(n),
                            _ => None,
                        },
                        states: items_states(items),
                        attrs: items_attrs(items),
                        pseudo_classes: items_pseudos(items),
                    },
                    e,
                ))
            }
        } else {
            None
        }
    } else {
        None
    }
}

/// `item*`
pub open spec fn p_items(t: Seq<TokenV>, p: int) -> (Seq<ItemV>, int)
    decreases t.len() - p, 2int,
{
    if 0 <= p <= t.len() {
        match p_item(t, p) {
            Some((it, q)) => if p < q <= t.len() {
                let (rest, e) = p_items(t, q);
                (seq![it] + rest, e)
            } else {
                (seq![], p)
            },
            None => (seq![], p),
        }
    } else {
        (seq![], p)
    }
}

/// `attr | pseudo | '.' ident`
pub open spec fn p_item(t: Seq<TokenV>, p: int) -> Option<(ItemV, int)>
    decreases t.len() - p, 1int,
{
    if 0 <= p <= t.len() {
        match tok(t, p) {
            Some(TokenV::LBracket) => match p_attr(t, p) {
                Some((a, q)) => Some((ItemV::Attr(a), q)),
                None => None,
            },
            Some(TokenV::Colon) => match p_pseudo(t, p) {
                Some((x, q)) => Some((ItemV::Pseudo(x), q)),
                None => None,
            },
            Some(TokenV::Dot) => match tok(t, p + 1) {
                Some(TokenV::Ident(s)) => Some((ItemV::State(s), p + 2)),
                _ => None,
            },
            _ => None,
        }
    } else {
        None
    }
}

/// `'(' ws* selector ws* ')'`
pub open spec fn p_sel_arg(t: Seq<TokenV>, p: int) -> Option<(SelectorV, int)>
    decreases t.len() - p, 0int,
{
    if 0 <= p < t.len() && t[p] is LParen {
        let q = skip_ws(t, p + 1);
        if p < q <= t.len() {
            match p_selector(t, q) {
                Some((s, r)) => if q <= r <= t.len() {
                    let e = skip_ws(t, r);
                    match tok(t, e) {
                        Some(TokenV::RParen) => Some((s, e + 1)),
                        _ => None,
                    }
                } else {
                    None
                },
                None => None,
            }
        } else {
            None
        }
    } else {
        None
    }
}

/// `':' name argument?`
pub open spec fn p_pseudo(t: Seq<TokenV>, p: int) -> Option<(PseudoV, int)>
    decreases t.len() - p, 0int,
{
    if 0 <= p < t.len() && t[p] is Colon {
        match tok(t, p + 1) {
            Some(TokenV::Ident(n)) => {
                if n == "scope"@ {
                    Some((PseudoV::Scope, p + 2))
                } else if n == "has"@ {
                    match p_sel_arg(t, p + 2) {
                        Some((s, e)) => Some((PseudoV::Has(anchor_selector(s)), e)),
                        None => None,
                    }
                } else if n == "not"@ {
                    match p_sel_arg(t, p + 2) {
                        Some((s, e)) => if any_relative(s) {
                            None
                        } else {
                            Some((PseudoV::Not(s), e))
                        },
                        None => None,
                    }
                } else if n == "require-state"@ {
                    match p_ident_arg(t, p + 2) {
                        Some((s, e)) => Some((PseudoV::RequireState(s), e)),
                        None => None,
                    }
                } else if n == "exclude-state"@ {
                    match p_ident_arg(t, p + 2) {
                        Some((s, e)) => Some((PseudoV::ExcludeState(s), e)),
                        None => None,
                    }
                } else if n == "nth-child"@ {
                    match p_int_arg(t, p + 2) {
                        Some((v, e)) => Some((PseudoV::NthChild(v), e)),
                        None => None,
                    }
                } else if n == "nth-last-child"@ {
                    match p_int_arg(t, p + 2) {
                        Some((v, e)) => Some((PseudoV::NthLastChild(v), e)),
                        None => None,
                    }
                } else {
                    None
                }
            },
            _ => None,
        }
    } else {
        None
    }
}

/// A whole token sequence read as a selector: it must be consumed entirely, and no
/// alternative may be relative.
pub open spec fn parse_spec(t: Seq<TokenV>) -> Option<SelectorV> {
    match p_selector(t, 0) {
        Some((s, e)) => if e == t.len() && !any_relative(s) {
            Some(s)
        } else {
            None
        },
        None => None,
    }
}

/// The reason a token sequence is not a selector: no selector at its start, input
/// left after the selector, or a relative selector at the top level.
pub open spec fn parse_error_text(t: Seq<TokenV>) -> Seq<char> {
    match p_selector(t, 0) {
        Some((s, e)) => if e != t.len() {
            "unexpected input after the selector"@
        } else {
            "relative selectors are not allowed at the top level"@
        },
        None => "expected a selector"@,
    }
}

/// What a successful parse yields is never relative: relative selectors are only
/// accepted inside `:has()`.
pub proof fn law_parse_not_relative(t: Seq<TokenV>)
    ensures
        parse_spec(t) matches Some(s) ==> !any_relative(s),
{
}

/// Every alternative inside a parsed `:has()` is relative: one without a leading
/// combinator or `:scope` is read as a descendant of the reference element, and
/// the others are kept as written.
pub proof fn law_has_argument_relative(t: Seq<TokenV>, p: int)
    ensures
        p_pseudo(t, p) matches Some((PseudoV::Has(s), _)) ==> forall|i: int| 0 <= i < s.alternatives.len()
            ==> is_relative_spec(#[trigger] s.alternatives[i]),
{
    match p_pseudo(t, p) {
        Some((PseudoV::Has(s), _)) => {
            assert forall|i: int| 0 <= i < s.alternatives.len() implies is_relative_spec(#[trigger] s.alternatives[i]) by {
                let c = s.alternatives[i];
                if has_scope(c.last) {
                    assert(is_relative_spec(c));
                }
            }
        },
        _ => {},
    }
}

/// A parsed `:not()` never holds a relative selector.
pub proof fn law_not_argument_absolute(t: Seq<TokenV>, p: int)
    ensures
        p_pseudo(t, p) matches Some((PseudoV::Not(s), _)) ==> !any_relative(s),
{
}

/// Inside `:has()`, an alternative without a leading combinator or `:scope` means a
/// descendant of the reference element; the others keep their meaning.
pub proof fn law_anchor_descendant(c: ComplexV)
    ensures
        !is_relative_spec(c) ==> anchor_complex(c) == (ComplexV { head: Some(Combinator::Descendant), ..c }),
        is_relative_spec(c) ==> anchor_complex(c) == c,
{
}

} // verus!
