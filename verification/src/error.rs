//! The errors of the Java Access Bridge layer and of the accessibility tree.
use vstd::prelude::*;

use crate::text::{debug_list, debug_quoted, debug_str, debug_strings, str_to_string};

verus! {

/// An optional detail appended to an error message as ` (<detail>)`.
#[derive(Debug)]
pub struct ContextSuffix(pub Option<String>);

pub open spec fn suffix_text(c: ContextSuffix) -> Seq<char> {
    match c.0 {
        Some(ctx) => " ("@ + ctx@ + ")"@,
        None => seq![],
    }
}

impl ContextSuffix {
    /// ` (<detail>)`, or nothing without a detail.
    pub fn to_string(&self) -> (r: String)
        ensures
            r@ == suffix_text(*self),
    {
        match &self.0 {
            Some(ctx) => {
                let mut s = str_to_string(" (");
                s.append(ctx.as_str());
                s.append(")");
                s
            },
            None => String::new(),
        }
    }
}

/// Why the Java Access Bridge runtime could not start.
#[derive(Debug)]
pub enum JabRuntimeInitError {
    InitializeAccessBridgeFailed,
    MessagePumpThreadCrashed { failed_call: &'static str },
}

pub open spec fn runtime_init_text(e: JabRuntimeInitError) -> Seq<char> {
    match e {
        JabRuntimeInitError::InitializeAccessBridgeFailed => "Failed to initialize Java Access Bridge"@,
        JabRuntimeInitError::MessagePumpThreadCrashed { failed_call } => "Message pump thread crashed during initialization: "@
            + failed_call@ + " failed"@,
    }
}

impl JabRuntimeInitError {
    pub fn to_string(&self) -> (r: String)
        ensures
            r@ == runtime_init_text(*self),
    {
        match self {
            JabRuntimeInitError::InitializeAccessBridgeFailed => str_to_string("Failed to initialize Java Access Bridge"),
            JabRuntimeInitError::MessagePumpThreadCrashed { failed_call } => {
                let mut s = str_to_string("Message pump thread crashed during initialization: ");
                s.append(failed_call);
                s.append(" failed");
                s
            },
        }
    }
}

/// The errors of calls into the Java Access Bridge.
#[derive(Debug)]
pub enum JabWrapperError {
    RuntimeInitError(JabRuntimeInitError),
    JabCallFailed { jab_call: &'static str, context: ContextSuffix },
    ActionNotFound { action: String, available_actions: Vec<String> },
}

pub open spec fn wrapper_error_text(e: JabWrapperError) -> Seq<char> {
    match e {
        JabWrapperError::RuntimeInitError(_) => "Error during JabRuntime initialization"@,
        JabWrapperError::JabCallFailed { jab_call, context } => "JAB call "@ + jab_call@ + " failed"@
            + suffix_text(context),
        JabWrapperError::ActionNotFound { action, available_actions } => "No "@ + debug_quoted(action@)
            + " action found. Available actions: "@ + debug_list(available_actions@.map_values(|s: String| s@)),
    }
}

impl JabWrapperError {
    pub fn to_string(&self) -> (r: String)
        ensures
            r@ == wrapper_error_text(*self),
    {
        match self {
            JabWrapperError::RuntimeInitError(_) => str_to_string("Error during JabRuntime initialization"),
            JabWrapperError::JabCallFailed { jab_call, context } => {
                let mut s = str_to_string("JAB call ");
                s.append(jab_call);
                s.append(" failed");
                let suffix = context.to_string();
                s.append(suffix.as_str());
                s
            },
            JabWrapperError::ActionNotFound { action, available_actions } => {
                let mut s = str_to_string("No ");
                let quoted = debug_str(action.as_str());
                s.append(quoted.as_str());
                s.append(" action found. Available actions: ");
                let list = debug_strings(available_actions);
                s.append(list.as_str());
                s
            },
        }
    }
}

impl From<JabRuntimeInitError> for JabWrapperError {
    fn from(e: JabRuntimeInitError) -> (r: Self) {
        JabWrapperError::RuntimeInitError(e)
    }
}

impl vstd::std_specs::convert::FromSpecImpl<JabRuntimeInitError> for JabWrapperError {
    open spec fn obeys_from_spec() -> bool {
        true
    }

    open spec fn from_spec(e: JabRuntimeInitError) -> Self {
        JabWrapperError::RuntimeInitError(e)
    }
}

/// The errors of the accessibility tree.
#[derive(Debug)]
pub enum ContextTreeError {
    RootNodeMissing,
}

impl ContextTreeError {
    pub fn to_string(&self) -> (r: String)
        ensures
            r@ == "Root node missing"@,
    {
        str_to_string("Root node missing")
    }
}

} // verus!
