use jab_wrapper::error::{ContextSuffix, ContextTreeError, JabRuntimeInitError, JabWrapperError};

#[test]
fn test_context_suffix_text() {
    assert_eq!(ContextSuffix(Some("vm 3".to_string())).to_string(), " (vm 3)");
    assert_eq!(ContextSuffix(None).to_string(), "");
}

#[test]
fn test_runtime_init_error_messages() {
    assert_eq!(
        JabRuntimeInitError::InitializeAccessBridgeFailed.to_string(),
        "Failed to initialize Java Access Bridge"
    );
    assert_eq!(
        JabRuntimeInitError::MessagePumpThreadCrashed { failed_call: "GetMessageW" }.to_string(),
        "Message pump thread crashed during initialization: GetMessageW failed"
    );
}

#[test]
fn test_wrapper_error_messages() {
    assert_eq!(
        JabWrapperError::from(JabRuntimeInitError::InitializeAccessBridgeFailed).to_string(),
        "Error during JabRuntime initialization"
    );
    assert_eq!(
        JabWrapperError::JabCallFailed { jab_call: "GetAccessibleContextInfo", context: ContextSuffix(None) }.to_string(),
        "JAB call GetAccessibleContextInfo failed"
    );
    assert_eq!(
        JabWrapperError::JabCallFailed {
            jab_call: "doAccessibleActions",
            context: ContextSuffix(Some("index 2".to_string()))
        }
        .to_string(),
        "JAB call doAccessibleActions failed (index 2)"
    );
    assert_eq!(
        JabWrapperError::ActionNotFound {
            action: "press".to_string(),
            available_actions: vec!["click".to_string(), "toggle \"x\"".to_string()]
        }
        .to_string(),
        "No \"press\" action found. Available actions: [\"click\", \"toggle \\\"x\\\"\"]"
    );
}

#[test]
fn test_context_tree_error_message() {
    assert_eq!(ContextTreeError::RootNodeMissing.to_string(), "Root node missing");
}
