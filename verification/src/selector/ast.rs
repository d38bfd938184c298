use vstd::prelude::*;

verus! {

/// A comma-separated list of alternatives; a node matches when any alternative does.
#[derive(Debug, PartialEq, Eq, Hash)]
pub struct Selector {
    pub alternatives: Vec<ComplexSelector>,
}

/// A chain of compound selectors, stored right to left: `last` is the compound the
/// matched node itself must satisfy, `body[0]` the one next to it, and so on.
/// `head` is a leading combinator (a relative selector, as inside `:has()`).
#[derive(Debug, PartialEq, Eq, Hash)]
pub struct ComplexSelector {
    pub head: Option<Combinator>,
    pub body: Vec<(CompoundSelector, Combinator)>,
    pub last: CompoundSelector,
}

#[derive(Debug, Clone, Copy, PartialEq, Eq, Hash, Structural)]
pub enum Combinator {
    Child,
    Descendant,
    NextSibling,
    SubsequentSibling,
}

#[derive(Debug, PartialEq, Eq, Hash)]
pub struct CompoundSelector {
    pub role: Option<String>,
    pub states: Vec<String>,
    pub attrs: Vec<AttrSelector>,
    pub pseudo_classes: Vec<PseudoClassSelector>,
}

#[derive(Debug, PartialEq, Eq, Hash)]
pub enum AttrSelector {
    Str { name: StrAttrName, op: StringOp, value: StrMatcher, flags: AttrFlags },
    Int { name: IntAttrName, op: IntOp, value: Option<i32> },
    Bool { name: BoolAttrName },
}

#[derive(Debug, Clone, Copy, PartialEq, Eq, Hash, Structural)]
pub enum StrAttrName {
    Name,
    Description,
    States,
    StatesEnUs,
    Text,
    Actions,
}

#[derive(Debug, Clone, Copy, PartialEq, Eq, Hash, Structural)]
pub enum StringOp {
    Eq,
    ContainsWord,
    Starts,
    Ends,
    Contains,
}

/// The value of a string attribute selector: a plain string, or the pattern of a
/// regular expression (compared by its pattern text).
#[derive(Debug, PartialEq, Eq, Hash)]
pub enum StrMatcher {
    Plain(String),
    Regex(String),
}

#[derive(Debug, Clone, Copy, PartialEq, Eq, Hash, Structural)]
pub struct AttrFlags {
    pub case_insensitive: bool,
}

#[derive(Debug, Clone, Copy, PartialEq, Eq, Hash, Structural)]
pub enum IntAttrName {
    X,
    Y,
    Width,
    Height,
    ChildrenCount,
    Depth,
}

#[derive(Debug, Clone, Copy, PartialEq, Eq, Hash, Structural)]
pub enum IntOp {
    Eq,
    Ne,
    Le,
    Ge,
    Lt,
    Gt,
}

#[derive(Debug, Clone, Copy, PartialEq, Eq, Hash, Structural)]
pub enum BoolAttrName {
    AccessibleAction,
    AccessibleText,
    AccessibleSelection,
}

#[derive(Debug, PartialEq, Eq, Hash)]
pub enum PseudoClassSelector {
    Scope,
    Has(Box<Selector>),
    Not(Box<Selector>),
    RequireState(String),
    ExcludeState(String),
    NthChild(i32),
    NthLastChild(i32),
}

// ---------------------------------------------------------------------------
// Mathematical values of the syntax tree

pub struct SelectorV {
    pub alternatives: Seq<ComplexV>,
}

pub struct ComplexV {
    pub head: Option<Combinator>,
    pub body: Seq<(CompoundV, Combinator)>,
    pub last: CompoundV,
}

pub struct CompoundV {
    pub role: Option<Seq<char>>,
    pub states: Seq<Seq<char>>,
    pub attrs: Seq<AttrV>,
    pub pseudo_classes: Seq<PseudoV>,
}

pub enum MatcherV {
    Plain(Seq<char>),
    Regex(Seq<char>),
}

pub enum AttrV {
    Str { name: StrAttrName, op: StringOp, value: MatcherV, flags: AttrFlags },
    Int { name: IntAttrName, op: IntOp, value: Option<i32> },
    Bool { name: BoolAttrName },
}

pub enum PseudoV {
    Scope,
    Has(SelectorV),
    Not(SelectorV),
    RequireState(Seq<char>),
    ExcludeState(Seq<char>),
    NthChild(i32),
    NthLastChild(i32),
}

pub open spec fn view_strings(v: Seq<String>) -> Seq<Seq<char>> {
    v.map_values(|s: String| s@)
}

pub open spec fn view_matcher(m: StrMatcher) -> MatcherV {
    match m {
        StrMatcher::Plain(s) => MatcherV::Plain(s@),
        StrMatcher::Regex(s) => MatcherV::Regex(s@),
    }
}

pub open spec fn view_attr(a: AttrSelector) -> AttrV {
    match a {
        AttrSelector::Str { name, op, value, flags } => AttrV::Str {
            name,
            op,
            value: view_matcher(value),
            flags,
        },
        AttrSelector::Int { name, op, value } => AttrV::Int { name, op, value },
        AttrSelector::Bool { name } => AttrV::Bool { name },
    }
}

pub open spec fn view_selector(s: Selector) -> SelectorV
    decreases s,
{
    SelectorV {
        alternatives: Seq::new(
            s.alternatives@.len(),
            |i: int|
                {
                    if 0 <= i < s.alternatives@.len() {
                        proof {
                            broadcast use vstd::std_specs::vec::group_vec_axioms;

                            assert(decreases_to!(s => s.alternatives));
                            assert(decreases_to!(s.alternatives => s.alternatives@));
                            assert(decreases_to!(s.alternatives@ => s.alternatives@[i]));
                        }
                        view_complex(s.alternatives@[i])
                    } else {
                        arbitrary()
                    }
                },
        ),
    }
}

pub open spec fn view_complex(c: ComplexSelector) -> ComplexV
    decreases c,
{
    ComplexV {
        head: c.head,
        body: Seq::new(
            c.body@.len(),
            |i: int|
                {
                    if 0 <= i < c.body@.len() {
                        proof {
                            broadcast use vstd::std_specs::vec::group_vec_axioms;

                            assert(decreases_to!(c => c.body));
                            assert(decreases_to!(c.body => c.body@));
                            assert(decreases_to!(c.body@ => c.body@[i]));
                            assert(decreases_to!(c.body@[i] => c.body@[i].0));
                        }
                        (view_compound(c.body@[i].0), c.body@[i].1)
                    } else {
                        arbitrary()
                    }
                },
        ),
        last: view_compound(c.last),
    }
}

pub open spec fn view_compound(c: CompoundSelector) -> CompoundV
    decreases c,
{
    CompoundV {
        role: match c.role {
            Some(r) => Some(r@),
            None => None,
        },
        states: view_strings(c.states@),
        attrs: c.attrs@.map_values(|a: AttrSelector| view_attr(a)),
        pseudo_classes: Seq::new(
            c.pseudo_classes@.len(),
            |i: int|
                {
                    if 0 <= i < c.pseudo_classes@.len() {
                        proof {
                            broadcast use vstd::std_specs::vec::group_vec_axioms;

                            assert(decreases_to!(c => c.pseudo_classes));
                            assert(decreases_to!(c.pseudo_classes => c.pseudo_classes@));
                            assert(decreases_to!(c.pseudo_classes@ => c.pseudo_classes@[i]));
                        }
                        view_pseudo(c.pseudo_classes@[i])
                    } else {
                        arbitrary()
                    }
                },
        ),
    }
}

pub open spec fn view_pseudo(p: PseudoClassSelector) -> PseudoV
    decreases p,
{
    match p {
        PseudoClassSelector::Scope => PseudoV::Scope,
        PseudoClassSelector::Has(s) => PseudoV::Has(view_selector(*s)),
        PseudoClassSelector::Not(s) => PseudoV::Not(view_selector(*s)),
        PseudoClassSelector::RequireState(s) => PseudoV::RequireState(s@),
        PseudoClassSelector::ExcludeState(s) => PseudoV::ExcludeState(s@),
        PseudoClassSelector::NthChild(n) => PseudoV::NthChild(n),
        PseudoClassSelector::NthLastChild(n) => PseudoV::NthLastChild(n),
    }
}

impl View for Selector {
    type V = SelectorV;

    open spec fn view(&self) -> SelectorV {
        view_selector(*self)
    }
}

impl View for ComplexSelector {
    type V = ComplexV;

    open spec fn view(&self) -> ComplexV {
        view_complex(*self)
    }
}

impl View for CompoundSelector {
    type V = CompoundV;

    open spec fn view(&self) -> CompoundV {
        view_compound(*self)
    }
}

impl View for PseudoClassSelector {
    type V = PseudoV;

    open spec fn view(&self) -> PseudoV {
        view_pseudo(*self)
    }
}

impl View for AttrSelector {
    type V = AttrV;

    open spec fn view(&self) -> AttrV {
        view_attr(*self)
    }
}

// ---------------------------------------------------------------------------
// Relative selectors

pub open spec fn has_scope(c: CompoundV) -> bool {
    exists|i: int| 0 <= i < c.pseudo_classes.len() && #[trigger] c.pseudo_classes[i] == PseudoV::Scope
}

/// A complex selector is relative when it starts with a combinator or one of its
/// compounds holds `:scope`: it is then anchored at a reference element.
pub open spec fn is_relative_spec(c: ComplexV) -> bool {
    ||| c.head is Some
    ||| (exists|i: int| 0 <= i < c.body.len() && has_scope(#[trigger] c.body[i].0))
    ||| has_scope(c.last)
}

pub open spec fn any_relative(s: SelectorV) -> bool {
    exists|i: int| 0 <= i < s.alternatives.len() && is_relative_spec(#[trigger] s.alternatives[i])
}

impl CompoundSelector {
    pub fn has_scope(&self) -> (r: bool)
        ensures
            r == has_scope(self@),
    {
        let mut i: usize = 0;
        while i < self.pseudo_classes.len()
            invariant
                0 <= i <= self.pseudo_classes@.len(),
                forall|j: int| 0 <= j < i ==> self@.pseudo_classes[j] != PseudoV::Scope,
            decreases self.pseudo_classes.len() - i,
        {
            if let PseudoClassSelector::Scope = &self.pseudo_classes[i] {
                assert(self@.pseudo_classes[i as int] == PseudoV::Scope);
                return true;
            }
            i += 1;
        }
        false
    }
}

impl ComplexSelector {
    pub fn is_relative(&self) -> (r: bool)
        ensures
            r == is_relative_spec(self@),
    {
        if self.head.is_some() {
            return true;
        }
        let mut i: usize = 0;
        while i < self.body.len()
            invariant
                0 <= i <= self.body@.len(),
                forall|j: int| 0 <= j < i ==> !has_scope(#[trigger] self@.body[j].0),
            decreases self.body.len() - i,
        {
            if self.body[i].0.has_scope() {
                assert(has_scope(self@.body[i as int].0));
                return true;
            }
            i += 1;
        }
        self.last.has_scope()
    }
}

impl Selector {
    /// Whether some alternative is a relative selector.
    pub fn any_relative(&self) -> (r: bool)
        ensures
            r == any_relative(self@),
    {
        let mut i: usize = 0;
        while i < self.alternatives.len()
            invariant
                0 <= i <= self.alternatives@.len(),
                forall|j: int| 0 <= j < i ==> !is_relative_spec(#[trigger] self@.alternatives[j]),
            decreases self.alternatives.len() - i,
        {
            if self.alternatives[i].is_relative() {
                assert(is_relative_spec(self@.alternatives[i as int]));
                return true;
            }
            i += 1;
        }
        false
    }
}

} // verus!
