//! What the automation service answers about the tree of the selected window.
use vstd::prelude::*;

use crate::context_tree::matcher::matching;
use crate::context_tree::node::{view_node, ContextNode};
use crate::context_tree::tree::{has_node, node, ContextTree};
use crate::selector::ast::{view_selector, Selector};
use crate::selector::display::selector_text;
use crate::selector::error::SelectorParseError;
use crate::selector::locator::{parse_outcome, Locator};
use crate::text::str_to_string;
use crate::context_tree::node::ROOT_HANDLE;

verus! {

/// The refusals of the service, by status: each carries its message.
#[derive(Debug, PartialEq, Eq)]
pub enum ServiceError {
    FailedPrecondition(String),
    InvalidArgument(String),
    NotFound(String),
    Internal(String),
    DeadlineExceeded(String),
}

pub open spec fn no_window_message() -> Seq<char> {
    "No window selected. Call SelectWindow first."@
}

/// The refusal given while no window is selected.
pub fn no_window_selected<T>() -> (r: Result<T, ServiceError>)
    ensures
        r matches Err(ServiceError::FailedPrecondition(m)) && m@ == no_window_message(),
{
    Err(ServiceError::FailedPrecondition(str_to_string("No window selected. Call SelectWindow first.")))
}

/// The selector string `src` parses to `s`.
pub open spec fn parses_to(src: Seq<char>, s: Selector) -> bool {
    parse_outcome(src, Ok(s))
}

/// Parses the selector of a locator; a selector that does not parse is an invalid
/// argument, with the parse error's message.
pub fn parse_locator(locator: &Locator) -> (r: Result<Selector, ServiceError>)
    ensures
        r is Ok ==> parses_to(locator.selector@, r->Ok_0),
        r is Err ==> (r->Err_0 matches ServiceError::InvalidArgument(m) && exists|e: SelectorParseError|
            parse_outcome(locator.selector@, Err(e)) && #[trigger] crate::selector::error::parse_error_message(e, m@)),
{
    let parsed = locator.parse();
    match parsed {
        Ok(s) => Ok(s),
        Err(e) => {
            let m = e.to_string();
            assert(parse_outcome(locator.selector@, Err(e)));
            assert(exists|e2: SelectorParseError| parse_outcome(locator.selector@, Err(e2)) && #[trigger] crate::selector::error::parse_error_message(e2, m@));
            let res: Result<Selector, ServiceError> = Err(ServiceError::InvalidArgument(m));
            assert(res->Err_0 matches ServiceError::InvalidArgument(m2) && m2@ == m@);
            res
        },
    }
}

pub open spec fn not_found_message(s: Selector) -> Seq<char> {
    "No element matches selector "@ + selector_text(view_selector(s))
}

/// The first node (in the order of handles) of the selected window's tree that
/// matches `selector`.
pub fn find_node<'a>(tree: &'a Option<ContextTree>, selector: &Selector) -> (r: Result<&'a ContextNode, ServiceError>)
    ensures
        match tree {
            None => r matches Err(ServiceError::FailedPrecondition(m)) && m@ == no_window_message(),
            Some(t) => {
                let found = matching(t@, view_selector(*selector));
                match r {
                    Ok(n) => found.len() > 0 && view_node(*n) == node(t@, found[0] as int),
                    Err(ServiceError::NotFound(m)) => found.len() == 0 && m@ == not_found_message(*selector),
                    Err(_) => false,
                }
            },
        },
{
    let t = match tree {
        Some(t) => t,
        None => { return no_window_selected(); },
    };
    match t.get_node(selector) {
        Some(n) => Ok(n),
        None => {
            let mut m = str_to_string("No element matches selector ");
            let text = selector.to_string();
            m.append(text.as_str());
            Err(ServiceError::NotFound(m))
        },
    }
}

/// The nodes of the selected window's tree that match `selector`, in the order of
/// their handles.
pub fn find_nodes<'a>(tree: &'a Option<ContextTree>, selector: &Selector) -> (r: Result<Vec<&'a ContextNode>, ServiceError>)
    ensures
        match tree {
            None => r matches Err(ServiceError::FailedPrecondition(m)) && m@ == no_window_message(),
            Some(t) => {
                let found = matching(t@, view_selector(*selector));
                match r {
                    Ok(v) => v@.len() == found.len() && forall|i: int| 0 <= i < v@.len() ==> #[trigger] view_node(*v@[i]) == node(t@, found[i] as int),
                    Err(_) => false,
                }
            },
        },
{
    match tree {
        Some(t) => Ok(t.get_nodes(selector)),
        None => no_window_selected(),
    }
}

/// The root node of the selected window's tree.
pub fn get_root(tree: &Option<ContextTree>) -> (r: Result<&ContextNode, ServiceError>)
    ensures
        match tree {
            None => r matches Err(ServiceError::FailedPrecondition(m)) && m@ == no_window_message(),
            Some(t) => match r {
                Ok(n) => has_node(t@, ROOT_HANDLE as int) && view_node(*n) == node(t@, ROOT_HANDLE as int),
                Err(ServiceError::Internal(m)) => !has_node(t@, ROOT_HANDLE as int) && m@ == "Root node missing"@,
                Err(_) => false,
            },
        },
{
    match tree {
        Some(t) => match t.root() {
            Ok(n) => Ok(n),
            Err(e) => Err(ServiceError::Internal(e)),
        },
        None => no_window_selected(),
    }
}

/// Takes the selected window's tree away and gives its root node, whose element the
/// tree is to be read anew from.
pub fn take_root(tree: &mut Option<ContextTree>) -> (r: Result<ContextNode, ServiceError>)
    ensures
        *final(tree) is None,
        match *old(tree) {
            None => r matches Err(ServiceError::FailedPrecondition(m)) && m@ == no_window_message(),
            Some(t) => match r {
                Ok(n) => has_node(t@, ROOT_HANDLE as int) && view_node(n) == node(t@, ROOT_HANDLE as int),
                Err(ServiceError::Internal(m)) => !has_node(t@, ROOT_HANDLE as int) && m@ == "Root node missing"@,
                Err(_) => false,
            },
        },
{
    match tree.take() {
        Some(t) => match t.into_root() {
            Ok(n) => Ok(n),
            Err(e) => Err(ServiceError::Internal(e)),
        },
        None => no_window_selected(),
    }
}

/// Whether some node of the tree matches selector `s`.
pub open spec fn found(tree: Option<ContextTree>, s: Selector) -> bool {
    tree matches Some(t) && matching(t@, view_selector(s)).len() > 0
}

/// The first of `selectors` that some node of the selected window's tree matches.
pub fn race_winner(tree: &Option<ContextTree>, selectors: &Vec<Selector>) -> (r: Option<usize>)
    ensures
        match r {
            Some(i) => i < selectors@.len() && found(*tree, selectors@[i as int])
                && forall|j: int| 0 <= j < i ==> !found(*tree, #[trigger] selectors@[j]),
            None => forall|j: int| 0 <= j < selectors@.len() ==> !found(*tree, #[trigger] selectors@[j]),
        },
{
    let mut i: usize = 0;
    while i < selectors.len()
        invariant
            0 <= i <= selectors@.len(),
            forall|j: int| 0 <= j < i ==> !found(*tree, #[trigger] selectors@[j]),
        decreases selectors.len() - i,
    {
        if find_node(tree, &selectors[i]).is_ok() {
            return Some(i);
        }
        i += 1;
    }
    None
}

// ---------------------------------------------------------------------------
// Waiting for a selector

/// How long a wait lasts when the request names no timeout: 60 seconds.
pub const DEFAULT_TIMEOUT_MS: u64 = 60000;

/// The timeout of a request, in milliseconds: the one it names, or the default.
pub fn timeout_or_default(timeout_ms: Option<u64>) -> (r: u64)
    ensures
        r == match timeout_ms {
            Some(t) => t,
            None => DEFAULT_TIMEOUT_MS,
        },
{
    match timeout_ms {
        Some(t) => t,
        None => DEFAULT_TIMEOUT_MS,
    }
}

/// What a wait for a selector does next.
#[derive(Debug, Clone, Copy, PartialEq, Eq)]
pub enum WaitAction {
    /// A node matches: the wait is over.
    Found,
    /// Nothing matches yet: wait for a change of the tree, at most this long.
    Wait { remaining_ms: u64 },
    /// The time is up: read the tree anew and look once more.
    Refresh,
    /// The time is up and nothing matches.
    TimedOut,
}

/// The next step of a wait that ends at `deadline_ms`: done when a node matches;
/// otherwise wait until the deadline; past it, read the tree anew once (when the
/// request asks to, and it was not done yet), then give up.
pub fn wait_step(found: bool, now_ms: u64, deadline_ms: u64, refresh_before_fail: bool, refreshed: bool) -> (a: WaitAction)
    ensures
        a == (if found {
            WaitAction::Found
        } else if now_ms < deadline_ms {
            WaitAction::Wait { remaining_ms: (deadline_ms - now_ms) as u64 }
        } else if refresh_before_fail && !refreshed {
            WaitAction::Refresh
        } else {
            WaitAction::TimedOut
        }),
{
    if found {
        WaitAction::Found
    } else if now_ms < deadline_ms {
        WaitAction::Wait { remaining_ms: deadline_ms - now_ms }
    } else if refresh_before_fail && !refreshed {
        WaitAction::Refresh
    } else {
        WaitAction::TimedOut
    }
}

pub open spec fn wait_timeout_text(s: Selector, timeout_ms: u64) -> Seq<char> {
    "No element matched selector "@ + selector_text(view_selector(s)) + " within timeout of "@
        + crate::selector::display::nat_text(timeout_ms as nat) + "ms"@
}

/// The refusal of a wait that found nothing in time.
pub fn wait_timed_out(selector: &Selector, timeout_ms: u64) -> (e: ServiceError)
    ensures
        e matches ServiceError::DeadlineExceeded(m) && m@ == wait_timeout_text(*selector, timeout_ms),
{
    let mut m = str_to_string("No element matched selector ");
    let text = selector.to_string();
    m.append(text.as_str());
    m.append(" within timeout of ");
    let n = crate::selector::display::decimal_u64(timeout_ms);
    m.append(n.as_str());
    m.append("ms");
    ServiceError::DeadlineExceeded(m)
}

} // verus!
