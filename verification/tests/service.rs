use jab_wrapper::context_tree::node::{NodeInfo, RawNode};
use jab_wrapper::context_tree::tree::ContextTree;
use jab_wrapper::selector::ast::Selector;
use jab_wrapper::selector::locator::Locator;
use jab_wrapper::service::{
    find_node, find_nodes, get_root, no_window_selected, parse_locator, race_winner, take_root,
    timeout_or_default, wait_step, wait_timed_out, ServiceError, WaitAction, DEFAULT_TIMEOUT_MS,
};

fn node(jobject: i64, name: &str, role: &str, index: i32, children: Vec<RawNode>) -> RawNode {
    RawNode {
        jobject,
        info: Some(NodeInfo {
            name: name.to_string(),
            role: role.to_string(),
            states: "enabled".to_string(),
            states_en_us: "enabled".to_string(),
            description: String::new(),
            x: 0,
            y: 0,
            width: 1,
            height: 1,
            accessible_action: 0,
            accessible_text: 0,
            accessible_selection: 0,
            children_count: children.len() as i32,
            index_in_parent: index,
        }),
        text: String::new(),
        actions: vec![],
        children,
    }
}

fn window() -> Option<ContextTree> {
    let raw = node(
        1,
        "Main",
        "frame",
        0,
        vec![node(2, "OK", "push button", 0, vec![]), node(3, "Name", "text", 1, vec![])],
    );
    Some(ContextTree::from_root(&raw, 1, None))
}

fn sel(s: &str) -> Selector {
    Locator::new(s).parse().unwrap()
}

const NO_WINDOW: &str = "No window selected. Call SelectWindow first.";

#[test]
fn test_no_window_selected_message() {
    let r: Result<u8, ServiceError> = no_window_selected();
    assert_eq!(r, Err(ServiceError::FailedPrecondition(NO_WINDOW.to_string())));
}

#[test]
fn test_parse_locator_ok_and_invalid_argument() {
    assert!(parse_locator(&Locator::new("push_button")).is_ok());
    assert_eq!(
        parse_locator(&Locator::new("> a")).unwrap_err(),
        ServiceError::InvalidArgument("Parse error: relative selectors are not allowed at the top level".to_string())
    );
}

#[test]
fn test_parse_locator_lexing_error_message() {
    match parse_locator(&Locator::new("a[x==99999999999]")).unwrap_err() {
        ServiceError::InvalidArgument(m) => assert!(m.starts_with("Lexing error: Invalid integer: ")),
        other => panic!("unexpected {:?}", other),
    }
}

#[test]
fn test_find_node_found_not_found_and_no_window() {
    let tree = window();
    assert_eq!(find_node(&tree, &sel("push_button")).unwrap().name, "OK");
    assert_eq!(
        find_node(&tree, &sel("dialog[name='X']")).unwrap_err(),
        ServiceError::NotFound("No element matches selector dialog[name='X']".to_string())
    );
    assert_eq!(
        find_node(&None, &sel("push_button")).unwrap_err(),
        ServiceError::FailedPrecondition(NO_WINDOW.to_string())
    );
}

#[test]
fn test_find_nodes() {
    let tree = window();
    let found: Vec<u64> = find_nodes(&tree, &sel("frame > *")).unwrap().iter().map(|n| n.handle).collect();
    assert_eq!(found, vec![1, 2]);
    assert!(find_nodes(&tree, &sel("menu")).unwrap().is_empty());
    assert!(find_nodes(&None, &sel("menu")).is_err());
}

#[test]
fn test_get_root_and_take_root() {
    let mut tree = window();
    assert_eq!(get_root(&tree).unwrap().name, "Main");
    let root = take_root(&mut tree).unwrap();
    assert_eq!(root.jobject, 1);
    assert!(tree.is_none());
    assert_eq!(take_root(&mut tree).unwrap_err(), ServiceError::FailedPrecondition(NO_WINDOW.to_string()));
    assert_eq!(get_root(&tree).unwrap_err(), ServiceError::FailedPrecondition(NO_WINDOW.to_string()));
    let mut broken = Some(ContextTree { nodes: vec![None], vm_id: 1 });
    assert_eq!(get_root(&broken).unwrap_err(), ServiceError::Internal("Root node missing".to_string()));
    assert_eq!(take_root(&mut broken).unwrap_err(), ServiceError::Internal("Root node missing".to_string()));
}

#[test]
fn test_race_winner_is_first_selector_found() {
    let tree = window();
    let selectors = vec![sel("dialog"), sel("text"), sel("push_button")];
    assert_eq!(race_winner(&tree, &selectors), Some(1));
    assert_eq!(race_winner(&tree, &vec![sel("dialog"), sel("menu")]), None);
    assert_eq!(race_winner(&None, &selectors), None);
    assert_eq!(race_winner(&tree, &vec![]), None);
}

#[test]
fn test_timeout_defaults_to_sixty_seconds() {
    assert_eq!(timeout_or_default(None), 60000);
    assert_eq!(timeout_or_default(Some(250)), 250);
    assert_eq!(DEFAULT_TIMEOUT_MS, 60000);
}

#[test]
fn test_wait_step_cases() {
    assert_eq!(wait_step(true, 500, 100, true, false), WaitAction::Found);
    assert_eq!(wait_step(false, 100, 350, true, false), WaitAction::Wait { remaining_ms: 250 });
    assert_eq!(wait_step(false, 350, 350, true, false), WaitAction::Refresh);
    assert_eq!(wait_step(false, 400, 350, true, true), WaitAction::TimedOut);
    assert_eq!(wait_step(false, 400, 350, false, false), WaitAction::TimedOut);
}

#[test]
fn test_wait_timed_out_message() {
    let s = Locator::new("push_button").parse().unwrap();
    match wait_timed_out(&s, 250) {
        ServiceError::DeadlineExceeded(m) => {
            assert_eq!(m, "No element matched selector push_button within timeout of 250ms")
        }
        other => panic!("unexpected {:?}", other),
    }
}
