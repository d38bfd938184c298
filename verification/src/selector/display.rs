//! The canonical text of a selector.
use vstd::prelude::*;

use crate::selector::ast::{
    view_attr, view_complex, view_compound, view_pseudo, view_selector, view_strings, AttrSelector,
    AttrV, BoolAttrName, Combinator, ComplexSelector, ComplexV, CompoundSelector, CompoundV,
    IntAttrName, IntOp, MatcherV, PseudoClassSelector, PseudoV, Selector, SelectorV, StrAttrName,
    StrMatcher, StringOp,
};
use crate::text::{chars_of, string_of};

verus! {

// ---------------------------------------------------------------------------
// Texts of the leaves

pub open spec fn combinator_text(c: Combinator) -> Seq<char> {
    match c {
        Combinator::Child => " > "@,
        Combinator::Descendant => " "@,
        Combinator::NextSibling => " + "@,
        Combinator::SubsequentSibling => " ~ "@,
    }
}

pub open spec fn str_attr_name_text(n: StrAttrName) -> Seq<char> {
    match n {
        StrAttrName::Name => "name"@,
        StrAttrName::Description => "description"@,
        StrAttrName::States => "states"@,
        StrAttrName::StatesEnUs => "states_en_us"@,
        StrAttrName::Text => "text"@,
        StrAttrName::Actions => "actions"@,
    }
}

pub open spec fn string_op_text(o: StringOp) -> Seq<char> {
    match o {
        StringOp::Eq => "="@,
        StringOp::ContainsWord => "~="@,
        StringOp::Starts => "^="@,
        StringOp::Ends => "$="@,
        StringOp::Contains => "*="@,
    }
}

pub open spec fn int_attr_name_text(n: IntAttrName) -> Seq<char> {
    match n {
        IntAttrName::X => "x"@,
        IntAttrName::Y => "y"@,
        IntAttrName::Width => "width"@,
        IntAttrName::Height => "height"@,
        IntAttrName::ChildrenCount => "children_count"@,
        IntAttrName::Depth => "depth"@,
    }
}

pub open spec fn int_op_text(o: IntOp) -> Seq<char> {
    match o {
        IntOp::Eq => "=="@,
        IntOp::Ne => "!="@,
        IntOp::Le => "<="@,
        IntOp::Ge => ">="@,
        IntOp::Lt => "<"@,
        IntOp::Gt => ">"@,
    }
}

pub open spec fn bool_attr_name_text(n: BoolAttrName) -> Seq<char> {
    match n {
        BoolAttrName::AccessibleAction => "accessible_action"@,
        BoolAttrName::AccessibleText => "accessible_text"@,
        BoolAttrName::AccessibleSelection => "accessible_selection"@,
    }
}

pub open spec fn digit_char(d: int) -> char {
    ('0' as int + d) as char
}

/// Decimal digits of a natural number.
pub open spec fn nat_text(n: nat) -> Seq<char>
    decreases n,
{
    if n < 10 {
        seq![digit_char(n as int)]
    } else {
        nat_text(n / 10).push(digit_char((n % 10) as int))
    }
}

/// Decimal text of an integer, with a leading `-` when negative.
pub open spec fn int_text(v: int) -> Seq<char> {
    if v < 0 {
        seq!['-'] + nat_text((-v) as nat)
    } else {
        nat_text(v as nat)
    }
}

/// A string with every `'` preceded by a backslash.
pub open spec fn escape_quotes(s: Seq<char>) -> Seq<char>
    decreases s.len(),
{
    if s.len() == 0 {
        seq![]
    } else {
        let rest = escape_quotes(s.drop_last());
        if s.last() == '\'' {
            rest + seq!['\\', '\'']
        } else {
            rest.push(s.last())
        }
    }
}

pub open spec fn matcher_text(m: MatcherV) -> Seq<char> {
    match m {
        MatcherV::Plain(s) => seq!['\''] + escape_quotes(s) + seq!['\''],
        MatcherV::Regex(s) => seq!['\''] + escape_quotes(s) + "' r"@,
    }
}

pub open spec fn attr_text(a: AttrV) -> Seq<char> {
    match a {
        AttrV::Str { name, op, value, flags } => str_attr_name_text(name) + string_op_text(op)
            + matcher_text(value) + if flags.case_insensitive {
            " i"@
        } else {
            Seq::empty()
        },
        AttrV::Int { name, op, value } => int_attr_name_text(name) + int_op_text(op) + match value {
            Some(v) => int_text(v as int),
            None => "None"@,
        },
        AttrV::Bool { name } => bool_attr_name_text(name),
    }
}

// ---------------------------------------------------------------------------
// Texts of the tree

pub open spec fn selector_text(s: SelectorV) -> Seq<char>
    decreases s, 2int,
{
    alternatives_text(s.alternatives)
}

/// The alternatives, separated by `, `.
pub open spec fn alternatives_text(alts: Seq<ComplexV>) -> Seq<char>
    decreases alts, 1int,
{
    if alts.len() == 0 {
        seq![]
    } else if alts.len() == 1 {
        complex_text(alts[0])
    } else {
        alternatives_text(alts.drop_last()) + ", "@ + complex_text(alts.last())
    }
}

/// The head combinator, then the body from its far end, then the last compound.
pub open spec fn complex_text(c: ComplexV) -> Seq<char>
    decreases c, 2int,
{
    let head = match c.head {
        Some(h) => combinator_text(h),
        None => Seq::empty(),
    };
    head + body_text(c.body) + compound_text(c.last)
}

/// The body pairs from the last to the first, each as compound then combinator.
pub open spec fn body_text(b: Seq<(CompoundV, Combinator)>) -> Seq<char>
    decreases b, 1int,
{
    if b.len() == 0 {
        seq![]
    } else {
        compound_text(b[b.len() - 1].0) + combinator_text(b[b.len() - 1].1) + body_text(b.drop_last())
    }
}

pub open spec fn states_text(states: Seq<Seq<char>>) -> Seq<char>
    decreases states.len(),
{
    if states.len() == 0 {
        seq![]
    } else {
        states_text(states.drop_last()) + seq!['.'] + states.last()
    }
}

pub open spec fn attrs_text(attrs: Seq<AttrV>) -> Seq<char>
    decreases attrs.len(),
{
    if attrs.len() == 0 {
        seq![]
    } else {
        attrs_text(attrs.drop_last()) + seq!['['] + attr_text(attrs.last()) + seq![']']
    }
}

/// Role, `.state`s, `[attribute]`s and pseudo-classes; `*` when all are absent.
pub open spec fn compound_text(c: CompoundV) -> Seq<char>
    decreases c, 1int,
{
    let role = match c.role {
        Some(r) => r,
        None => Seq::empty(),
    };
    let text = role + states_text(c.states) + attrs_text(c.attrs) + pseudos_text(c.pseudo_classes);
    if text.len() == 0 {
        seq!['*']
    } else {
        text
    }
}

pub open spec fn pseudos_text(ps: Seq<PseudoV>) -> Seq<char>
    decreases ps, 0int,
{
    if ps.len() == 0 {
        seq![]
    } else {
        pseudos_text(ps.drop_last()) + pseudo_text(ps.last())
    }
}

pub open spec fn pseudo_text(p: PseudoV) -> Seq<char>
    decreases p, 3int,
{
    match p {
        PseudoV::Scope => ":scope"@,
        PseudoV::Has(s) => ":has("@ + selector_text(s) + ")"@,
        PseudoV::Not(s) => ":not("@ + selector_text(s) + ")"@,
        PseudoV::RequireState(s) => ":require-state("@ + s + ")"@,
        PseudoV::ExcludeState(s) => ":exclude-state("@ + s + ")"@,
        PseudoV::NthChild(n) => ":nth-child("@ + int_text(n as int) + ")"@,
        PseudoV::NthLastChild(n) => ":nth-last-child("@ + int_text(n as int) + ")"@,
    }
}

// ---------------------------------------------------------------------------
// Writing the texts

fn push_str(out: &mut Vec<char>, s: &str)
    ensures
        final(out)@ == old(out)@ + s@,
{
    let mut c = chars_of(s);
    out.append(&mut c);
}

fn push_combinator(out: &mut Vec<char>, c: Combinator)
    ensures
        final(out)@ == old(out)@ + combinator_text(c),
{
    match c {
        Combinator::Child => push_str(out, " > "),
        Combinator::Descendant => push_str(out, " "),
        Combinator::NextSibling => push_str(out, " + "),
        Combinator::SubsequentSibling => push_str(out, " ~ "),
    }
}

fn push_nat(out: &mut Vec<char>, n: u64)
    ensures
        final(out)@ == old(out)@ + nat_text(n as nat),
    decreases n,
{
    if n >= 10 {
        push_nat(out, n / 10);
    }
    let d = (n % 10) as u8;
    let c = (48u8 + d) as char;
    assert(c == digit_char((n % 10) as int));
    let ghost before = out@;
    out.push(c);
    proof {
        if n >= 10 {
            assert(out@ =~= old(out)@ + nat_text(n as nat));
        } else {
            assert(out@ =~= old(out)@ + nat_text(n as nat));
        }
    }
}

/// The decimal text of `v`.
pub(crate) fn decimal(v: i64) -> (r: String)
    ensures
        r@ == int_text(v as int),
{
    let mut out: Vec<char> = Vec::new();
    if v < 0 {
        out.push('-');
        let m = (-(v as i128)) as u64;
        push_nat(&mut out, m);
        assert(out@ =~= int_text(v as int));
    } else {
        push_nat(&mut out, v as u64);
        assert(out@ =~= int_text(v as int));
    }
    string_of(out.as_slice())
}

/// The decimal text of `v`.
pub(crate) fn decimal_u64(v: u64) -> (r: String)
    ensures
        r@ == nat_text(v as nat),
{
    let mut out: Vec<char> = Vec::new();
    push_nat(&mut out, v);
    assert(out@ =~= nat_text(v as nat));
    string_of(out.as_slice())
}

fn push_int(out: &mut Vec<char>, v: i32)
    ensures
        final(out)@ == old(out)@ + int_text(v as int),
{
    if v < 0 {
        out.push('-');
        let m = (-(v as i64)) as u64;
        push_nat(out, m);
        assert(out@ =~= old(out)@ + int_text(v as int));
    } else {
        push_nat(out, v as u64);
    }
}

fn push_escaped(out: &mut Vec<char>, s: &String)
    ensures
        final(out)@ == old(out)@ + escape_quotes(s@),
{
    let c = chars_of(s.as_str());
    let mut i: usize = 0;
    assert(c@.take(0) =~= Seq::<char>::empty());
    assert(old(out)@ + escape_quotes(c@.take(0)) =~= old(out)@);
    while i < c.len()
        invariant
            c@ == s@,
            0 <= i <= c@.len(),
            out@ == old(out)@ + escape_quotes(c@.take(i as int)),
        decreases c.len() - i,
    {
        let ch = c[i];
        assert(c@.take(i + 1).drop_last() =~= c@.take(i as int));
        if ch == '\'' {
            out.push('\\');
            out.push('\'');
        } else {
            out.push(ch);
        }
        i += 1;
        assert(out@ =~= old(out)@ + escape_quotes(c@.take(i as int)));
    }
    assert(c@.take(i as int) =~= c@);
}

fn push_matcher(out: &mut Vec<char>, m: &StrMatcher)
    ensures
        final(out)@ == old(out)@ + matcher_text(crate::selector::ast::view_matcher(*m)),
{
    match m {
        StrMatcher::Plain(s) => {
            out.push('\'');
            push_escaped(out, s);
            out.push('\'');
        },
        StrMatcher::Regex(s) => {
            out.push('\'');
            push_escaped(out, s);
            push_str(out, "' r");
        },
    }
    assert(out@ =~= old(out)@ + matcher_text(crate::selector::ast::view_matcher(*m)));
}

#[verifier::spinoff_prover]
#[verifier::rlimit(50)]
fn push_attr(out: &mut Vec<char>, a: &AttrSelector)
    ensures
        final(out)@ == old(out)@ + attr_text(view_attr(*a)),
{
    match a {
        AttrSelector::Str { name, op, value, flags } => {
            match name {
                StrAttrName::Name => push_str(out, "name"),
                StrAttrName::Description => push_str(out, "description"),
                StrAttrName::States => push_str(out, "states"),
                StrAttrName::StatesEnUs => push_str(out, "states_en_us"),
                StrAttrName::Text => push_str(out, "text"),
                StrAttrName::Actions => push_str(out, "actions"),
            }
            let ghost o1 = out@;
            match op {
                StringOp::Eq => push_str(out, "="),
                StringOp::ContainsWord => push_str(out, "~="),
                StringOp::Starts => push_str(out, "^="),
                StringOp::Ends => push_str(out, "$="),
                StringOp::Contains => push_str(out, "*="),
            }
            let ghost o2 = out@;
            push_matcher(out, value);
            let ghost o3 = out@;
            if flags.case_insensitive {
                push_str(out, " i");
            }
            assert(out@ =~= old(out)@ + attr_text(view_attr(*a)));
        },
        AttrSelector::Int { name, op, value } => {
            match name {
                IntAttrName::X => push_str(out, "x"),
                IntAttrName::Y => push_str(out, "y"),
                IntAttrName::Width => push_str(out, "width"),
                IntAttrName::Height => push_str(out, "height"),
                IntAttrName::ChildrenCount => push_str(out, "children_count"),
                IntAttrName::Depth => push_str(out, "depth"),
            }
            match op {
                IntOp::Eq => push_str(out, "=="),
                IntOp::Ne => push_str(out, "!="),
                IntOp::Le => push_str(out, "<="),
                IntOp::Ge => push_str(out, ">="),
                IntOp::Lt => push_str(out, "<"),
                IntOp::Gt => push_str(out, ">"),
            }
            match value {
                Some(v) => push_int(out, *v),
                None => push_str(out, "None"),
            }
            assert(out@ =~= old(out)@ + attr_text(view_attr(*a)));
        },
        AttrSelector::Bool { name } => {
            match name {
                BoolAttrName::AccessibleAction => push_str(out, "accessible_action"),
                BoolAttrName::AccessibleText => push_str(out, "accessible_text"),
                BoolAttrName::AccessibleSelection => push_str(out, "accessible_selection"),
            }
        },
    }
}

#[verifier::spinoff_prover]
#[verifier::rlimit(50)]
fn push_selector(out: &mut Vec<char>, s: &Selector)
    ensures
        final(out)@ == old(out)@ + selector_text(view_selector(*s)),
    decreases *s, 3int,
{
    let ghost alts = view_selector(*s).alternatives;
    let mut i: usize = 0;
    assert(alts.take(0) =~= Seq::<ComplexV>::empty());
    assert(old(out)@ + alternatives_text(alts.take(0)) =~= old(out)@);
    while i < s.alternatives.len()
        invariant
            alts == view_selector(*s).alternatives,
            alts.len() == s.alternatives@.len(),
            0 <= i <= alts.len(),
            out@ == old(out)@ + alternatives_text(alts.take(i as int)),
        decreases s.alternatives.len() - i,
    {
        proof {
            broadcast use vstd::std_specs::vec::group_vec_axioms;
            assert(decreases_to!(*s => s.alternatives));
            assert(decreases_to!(s.alternatives => s.alternatives@));
            assert(decreases_to!(s.alternatives@ => s.alternatives@[i as int]));
        }
        let ghost before = out@;
        if i > 0 {
            push_str(out, ", ");
        }
        let ghost mid = out@;
        push_complex(out, &s.alternatives[i]);
        proof {
            let t = alts.take(i + 1);
            assert(t.drop_last() =~= alts.take(i as int));
            assert(t.last() == view_complex(s.alternatives@[i as int]));
            if i == 0 {
                assert(alternatives_text(t) == complex_text(t[0]));
                assert(out@ =~= old(out)@ + alternatives_text(t));
            } else {
                assert(out@ =~= old(out)@ + alternatives_text(t));
            }
        }
        i += 1;
    }
    assert(alts.take(i as int) =~= alts);
}

#[verifier::spinoff_prover]
#[verifier::rlimit(50)]
fn push_complex(out: &mut Vec<char>, c: &ComplexSelector)
    ensures
        final(out)@ == old(out)@ + complex_text(view_complex(*c)),
    decreases *c, 2int,
{
    match c.head {
        Some(h) => push_combinator(out, h),
        None => {},
    }
    let ghost after_head = out@;
    let ghost body = view_complex(*c).body;
    let mut j: usize = c.body.len();
    assert(body_text(body) == Seq::<char>::empty() + body_text(body.take(j as int))) by {
        assert(body.take(j as int) =~= body);
    }
    while j > 0
        invariant
            body == view_complex(*c).body,
            body.len() == c.body@.len(),
            0 <= j <= body.len(),
            after_head + body_text(body) == out@ + body_text(body.take(j as int)),
        decreases j,
    {
        proof {
            broadcast use vstd::std_specs::vec::group_vec_axioms;
            assert(decreases_to!(*c => c.body));
            assert(decreases_to!(c.body => c.body@));
            assert(decreases_to!(c.body@ => c.body@[j - 1]));
            assert(decreases_to!(c.body@[j - 1] => c.body@[j - 1].0));
        }
        let ghost before = out@;
        push_compound(out, &c.body[j - 1].0);
        push_combinator(out, c.body[j - 1].1);
        proof {
            let t = body.take(j as int);
            assert(t.drop_last() =~= body.take(j - 1));
            assert(t[t.len() - 1] == body[j - 1]);
            assert(body_text(t) == compound_text(body[j - 1].0) + combinator_text(body[j - 1].1) + body_text(body.take(j - 1)));
            assert(out@ + body_text(body.take(j - 1)) =~= before + body_text(t));
        }
        j -= 1;
    }
    assert(body.take(0) =~= Seq::<(CompoundV, Combinator)>::empty());
    push_compound(out, &c.last);
    assert(out@ =~= old(out)@ + complex_text(view_complex(*c)));
}

#[verifier::spinoff_prover]
#[verifier::rlimit(50)]
fn push_compound(out: &mut Vec<char>, c: &CompoundSelector)
    ensures
        final(out)@ == old(out)@ + compound_text(view_compound(*c)),
    decreases *c, 1int,
{
    let ghost cv = view_compound(*c);
    let start = out.len();
    match &c.role {
        Some(r) => {
            let mut rc = chars_of(r.as_str());
            out.append(&mut rc);
        },
        None => {},
    }
    let ghost o1 = out@;
    // states
    let mut i: usize = 0;
    assert(cv.states.take(0) =~= Seq::<Seq<char>>::empty());
    while i < c.states.len()
        invariant
            cv == view_compound(*c),
            cv.states.len() == c.states@.len(),
            0 <= i <= c.states@.len(),
            out@ == o1 + states_text(cv.states.take(i as int)),
        decreases c.states.len() - i,
    {
        out.push('.');
        let mut sc = chars_of(c.states[i].as_str());
        out.append(&mut sc);
        proof {
            let t = cv.states.take(i + 1);
            assert(t.drop_last() =~= cv.states.take(i as int));
            assert(out@ =~= o1 + states_text(t));
        }
        i += 1;
    }
    assert(cv.states.take(i as int) =~= cv.states);
    let ghost o2 = out@;
    // attributes
    let mut i: usize = 0;
    assert(cv.attrs.take(0) =~= Seq::<AttrV>::empty());
    while i < c.attrs.len()
        invariant
            cv == view_compound(*c),
            cv.attrs.len() == c.attrs@.len(),
            0 <= i <= c.attrs@.len(),
            out@ == o2 + attrs_text(cv.attrs.take(i as int)),
        decreases c.attrs.len() - i,
    {
        out.push('[');
        push_attr(out, &c.attrs[i]);
        out.push(']');
        proof {
            let t = cv.attrs.take(i + 1);
            assert(t.drop_last() =~= cv.attrs.take(i as int));
            assert(out@ =~= o2 + attrs_text(t));
        }
        i += 1;
    }
    assert(cv.attrs.take(i as int) =~= cv.attrs);
    let ghost o3 = out@;
    // pseudo-classes
    let mut i: usize = 0;
    assert(cv.pseudo_classes.take(0) =~= Seq::<PseudoV>::empty());
    while i < c.pseudo_classes.len()
        invariant
            cv == view_compound(*c),
            cv.pseudo_classes.len() == c.pseudo_classes@.len(),
            0 <= i <= c.pseudo_classes@.len(),
            out@ == o3 + pseudos_text(cv.pseudo_classes.take(i as int)),
        decreases c.pseudo_classes.len() - i,
    {
        proof {
            broadcast use vstd::std_specs::vec::group_vec_axioms;
            assert(decreases_to!(*c => c.pseudo_classes));
            assert(decreases_to!(c.pseudo_classes => c.pseudo_classes@));
            assert(decreases_to!(c.pseudo_classes@ => c.pseudo_classes@[i as int]));
        }
        push_pseudo(out, &c.pseudo_classes[i]);
        proof {
            let t = cv.pseudo_classes.take(i + 1);
            assert(t.drop_last() =~= cv.pseudo_classes.take(i as int));
            assert(out@ =~= o3 + pseudos_text(t));
        }
        i += 1;
    }
    assert(cv.pseudo_classes.take(i as int) =~= cv.pseudo_classes);
    let ghost text = out@.subrange(start as int, out@.len() as int);
    assert(out@ =~= old(out)@ + text);
    assert(text =~= (match cv.role { Some(r) => r, None => Seq::<char>::empty() }) + states_text(cv.states) + attrs_text(cv.attrs) + pseudos_text(cv.pseudo_classes));
    if out.len() == start {
        out.push('*');
        assert(out@ =~= old(out)@ + compound_text(cv));
    }
}

#[verifier::spinoff_prover]
#[verifier::rlimit(50)]
fn push_pseudo(out: &mut Vec<char>, p: &PseudoClassSelector)
    ensures
        final(out)@ == old(out)@ + pseudo_text(view_pseudo(*p)),
    decreases *p, 4int,
{
    match p {
        PseudoClassSelector::Scope => push_str(out, ":scope"),
        PseudoClassSelector::Has(s) => {
            push_str(out, ":has(");
            push_selector(out, s);
            push_str(out, ")");
        },
        PseudoClassSelector::Not(s) => {
            push_str(out, ":not(");
            push_selector(out, s);
            push_str(out, ")");
        },
        PseudoClassSelector::RequireState(s) => {
            push_str(out, ":require-state(");
            push_str(out, s.as_str());
            push_str(out, ")");
        },
        PseudoClassSelector::ExcludeState(s) => {
            push_str(out, ":exclude-state(");
            push_str(out, s.as_str());
            push_str(out, ")");
        },
        PseudoClassSelector::NthChild(n) => {
            push_str(out, ":nth-child(");
            push_int(out, *n);
            push_str(out, ")");
        },
        PseudoClassSelector::NthLastChild(n) => {
            push_str(out, ":nth-last-child(");
            push_int(out, *n);
            push_str(out, ")");
        },
    }
    assert(out@ =~= old(out)@ + pseudo_text(view_pseudo(*p)));
}

// ---------------------------------------------------------------------------
// `to_string` of each node

impl Selector {
    /// The alternatives joined by `, `.
    pub fn to_string(&self) -> (r: String)
        ensures
            r@ == selector_text(view_selector(*self)),
    {
        let mut out: Vec<char> = Vec::new();
        push_selector(&mut out, self);
        string_of(out.as_slice())
    }
}

impl ComplexSelector {
    pub fn to_string(&self) -> (r: String)
        ensures
            r@ == complex_text(view_complex(*self)),
    {
        let mut out: Vec<char> = Vec::new();
        push_complex(&mut out, self);
        string_of(out.as_slice())
    }
}

impl CompoundSelector {
    pub fn to_string(&self) -> (r: String)
        ensures
            r@ == compound_text(view_compound(*self)),
    {
        let mut out: Vec<char> = Vec::new();
        push_compound(&mut out, self);
        string_of(out.as_slice())
    }
}

impl PseudoClassSelector {
    pub fn to_string(&self) -> (r: String)
        ensures
            r@ == pseudo_text(view_pseudo(*self)),
    {
        let mut out: Vec<char> = Vec::new();
        push_pseudo(&mut out, self);
        string_of(out.as_slice())
    }
}

impl AttrSelector {
    /// The attribute selector without its brackets.
    pub fn to_string(&self) -> (r: String)
        ensures
            r@ == attr_text(view_attr(*self)),
    {
        let mut out: Vec<char> = Vec::new();
        push_attr(&mut out, self);
        string_of(out.as_slice())
    }
}

impl StrMatcher {
    pub fn to_string(&self) -> (r: String)
        ensures
            r@ == matcher_text(crate::selector::ast::view_matcher(*self)),
    {
        let mut out: Vec<char> = Vec::new();
        push_matcher(&mut out, self);
        string_of(out.as_slice())
    }
}

impl Combinator {
    pub fn to_string(&self) -> (r: String)
        ensures
            r@ == combinator_text(*self),
    {
        let mut out: Vec<char> = Vec::new();
        push_combinator(&mut out, *self);
        string_of(out.as_slice())
    }
}

impl crate::selector::ast::AttrFlags {
    /// `i` for a case-insensitive comparison, empty otherwise.
    pub fn to_string(&self) -> (r: String)
        ensures
            r@ == if self.case_insensitive { "i"@ } else { Seq::<char>::empty() },
    {
        let mut out: Vec<char> = Vec::new();
        if self.case_insensitive {
            push_str(&mut out, "i");
        }
        string_of(out.as_slice())
    }
}

} // verus!
