use jab_wrapper::context_tree::events::{needs_read, plan_updates, Change, ChangeEvent, UpdateKind};
use jab_wrapper::context_tree::node::{NodeInfo, RawNode};
use jab_wrapper::context_tree::tree::ContextTree;
use jab_wrapper::selector::ast::Selector;
use jab_wrapper::selector::locator::Locator;
use jab_wrapper::selector::ast::{AttrFlags, StrMatcher, StringOp};
use jab_wrapper::context_tree::matcher::match_string_op;

fn info(name: &str, role: &str, states: &str, index: i32, count: usize) -> NodeInfo {
    NodeInfo {
        name: name.to_string(),
        role: role.to_string(),
        states: states.to_string(),
        states_en_us: states.to_string(),
        description: format!("{} element", name),
        x: 10 * index,
        y: 5,
        width: 100,
        height: 20,
        accessible_action: if role == "push button" { 1 } else { 0 },
        accessible_text: 0,
        accessible_selection: 0,
        children_count: count as i32,
        index_in_parent: index,
    }
}

fn raw(jobject: i64, name: &str, role: &str, states: &str, index: i32, children: Vec<RawNode>) -> RawNode {
    RawNode {
        jobject,
        info: Some(info(name, role, states, index, children.len())),
        text: format!("text of {}", name),
        actions: if role == "push button" { vec!["Click".to_string()] } else { vec![] },
        children,
    }
}

/// frame "Main"
///   panel "Tools"               (handle 1)
///     push button "OK"          (handle 3)
///     push button "Cancel"      (handle 4)
///   dialog "Confirm"            (handle 2)
///     label "Sure?"             (handle 5)
///     text "Name"               (handle 6)
fn sample() -> RawNode {
    raw(
        100,
        "Main",
        "Frame",
        "enabled,visible",
        0,
        vec![
            raw(
                101,
                "Tools",
                "panel",
                "enabled",
                0,
                vec![
                    raw(102, "OK", "push button", "enabled,focusable", 0, vec![]),
                    raw(103, "Cancel", "push button", "enabled", 1, vec![]),
                ],
            ),
            raw(
                104,
                "Confirm",
                "dialog",
                "enabled,Modal Window",
                1,
                vec![
                    raw(105, "Sure?", "label", "enabled", 0, vec![]),
                    raw(106, "Name", "text", "enabled,editable", 1, vec![]),
                ],
            ),
        ],
    )
}

fn tree() -> ContextTree {
    ContextTree::from_root(&sample(), 7, None)
}

fn sel(s: &str) -> Selector {
    Locator::new(s).parse().unwrap()
}

fn handles(t: &ContextTree, s: &str) -> Vec<u64> {
    t.get_nodes(&sel(s)).iter().map(|n| n.handle).collect()
}

#[test]
fn test_from_root_hands_out_handles_breadth_of_children_first() {
    let t = tree();
    assert_eq!(t.vm_id, 7);
    assert_eq!(t.nodes.len(), 7);
    let root = t.root().unwrap();
    assert_eq!(root.handle, 0);
    assert_eq!(root.children, vec![1, 2]);
    assert_eq!(root.parent, None);
    assert_eq!(root.depth, 0);
    let panel = t.get(1).unwrap();
    assert_eq!(panel.name, "Tools");
    assert_eq!(panel.children, vec![3, 4]);
    assert_eq!(panel.parent, Some(0));
    assert_eq!(panel.depth, 1);
    let dialog = t.get(2).unwrap();
    assert_eq!(dialog.children, vec![5, 6]);
    let ok = t.get(3).unwrap();
    assert_eq!(ok.name, "OK");
    assert_eq!(ok.parent, Some(1));
    assert_eq!(ok.depth, 2);
    assert_eq!(ok.jobject, 102);
}

#[test]
fn test_from_root_normalizes_role_states_and_actions() {
    let t = tree();
    let root = t.root().unwrap();
    assert_eq!(root.role, "frame");
    let ok = t.get(3).unwrap();
    assert_eq!(ok.role, "push_button");
    assert_eq!(ok.states, vec!["enabled".to_string(), "focusable".to_string()]);
    assert_eq!(ok.actions, vec!["click".to_string()]);
    assert_eq!(ok.text, "text of OK");
    assert!(ok.accessible_action);
    let dialog = t.get(2).unwrap();
    assert_eq!(dialog.states_en_us, vec!["enabled".to_string(), "modal_window".to_string()]);
}

#[test]
fn test_from_root_empty_states_give_one_empty_state() {
    let t = ContextTree::from_root(&raw(1, "a", "panel", "", 0, vec![]), 1, None);
    assert_eq!(t.root().unwrap().states, vec![String::new()]);
}

#[test]
fn test_from_root_without_info_keeps_blank_fields() {
    let r = RawNode { jobject: 9, info: None, text: String::new(), actions: vec![], children: vec![] };
    let t = ContextTree::from_root(&r, 1, None);
    let root = t.root().unwrap();
    assert_eq!(root.name, "");
    assert_eq!(root.role, "");
    assert!(root.states.is_empty());
    assert_eq!(root.children_count, 0);
}

#[test]
fn test_from_root_respects_max_depth() {
    let t = ContextTree::from_root(&sample(), 7, Some(1));
    assert_eq!(t.nodes.len(), 3);
    assert_eq!(t.root().unwrap().children, vec![1, 2]);
    assert!(t.get(1).unwrap().children.is_empty());
    let t0 = ContextTree::from_root(&sample(), 7, Some(0));
    assert_eq!(t0.nodes.len(), 1);
    assert!(t0.root().unwrap().children.is_empty());
}

#[test]
fn test_subtree_lists_children_then_below_each_child() {
    let t = tree();
    let root = t.root().unwrap();
    assert_eq!(t.subtree(root), vec![1, 2, 3, 4, 5, 6]);
    assert_eq!(t.subtree(t.get(2).unwrap()), vec![5, 6]);
    assert!(t.subtree(t.get(6).unwrap()).is_empty());
}

#[test]
fn test_get_nodes_by_role() {
    let t = tree();
    assert_eq!(handles(&t, "push_button"), vec![3, 4]);
    assert_eq!(handles(&t, "*"), vec![0, 1, 2, 3, 4, 5, 6]);
    assert_eq!(handles(&t, "Push_Button"), vec![3, 4]);
}

#[test]
fn test_get_nodes_alternatives_are_any_of() {
    let t = tree();
    assert_eq!(handles(&t, "label, push_button"), vec![3, 4, 5]);
}

#[test]
fn test_get_nodes_combinators() {
    let t = tree();
    assert_eq!(handles(&t, "panel > push_button"), vec![3, 4]);
    assert_eq!(handles(&t, "frame push_button"), vec![3, 4]);
    assert_eq!(handles(&t, "frame > push_button"), Vec::<u64>::new());
    assert_eq!(handles(&t, "dialog > push_button"), Vec::<u64>::new());
    assert_eq!(handles(&t, "label + text"), vec![6]);
    assert_eq!(handles(&t, "push_button + push_button"), vec![4]);
    assert_eq!(handles(&t, "label ~ text"), vec![6]);
    assert_eq!(handles(&t, "panel ~ dialog"), vec![2]);
    assert_eq!(handles(&t, "dialog ~ panel"), Vec::<u64>::new());
}

#[test]
fn test_get_nodes_attributes() {
    let t = tree();
    assert_eq!(handles(&t, "[name='Cancel']"), vec![4]);
    assert_eq!(handles(&t, "[name='ok' i]"), vec![3]);
    assert_eq!(handles(&t, "[name^='Ca']"), vec![4]);
    assert_eq!(handles(&t, "[name$='ls']"), vec![1]);
    assert_eq!(handles(&t, "[name*='onf']"), vec![2]);
    assert_eq!(handles(&t, "[states~='focusable']"), vec![3]);
    assert_eq!(handles(&t, "[actions~='click']"), vec![3, 4]);
    assert_eq!(handles(&t, "[name='^C.*l$' r]"), vec![4]);
    assert_eq!(handles(&t, "[depth>=2]"), vec![3, 4, 5, 6]);
    assert_eq!(handles(&t, "push_button[x==10]"), vec![4]);
    assert_eq!(handles(&t, "[accessible_action]"), vec![3, 4]);
    assert_eq!(handles(&t, "[text='text of Name']"), vec![6]);
}

#[test]
fn test_get_nodes_states() {
    let t = tree();
    assert_eq!(handles(&t, "push_button.focusable"), vec![3]);
    assert_eq!(handles(&t, ":require-state(editable)"), vec![6]);
    assert_eq!(handles(&t, "push_button:exclude-state(focusable)"), vec![4]);
    assert_eq!(handles(&t, "dialog:require-state(modal_window)"), vec![2]);
}

#[test]
fn test_get_nodes_pseudo_classes() {
    let t = tree();
    assert_eq!(handles(&t, "push_button:not([name='OK'])"), vec![4]);
    assert_eq!(handles(&t, "push_button:nth-child(2)"), vec![4]);
    assert_eq!(handles(&t, ":nth-last-child(1)"), vec![0, 2, 4, 6]);
    assert_eq!(handles(&t, ":has(> push_button)"), vec![1]);
    assert_eq!(handles(&t, "dialog:has(label)"), vec![2]);
    assert_eq!(handles(&t, "frame:has(text)"), vec![0]);
    assert_eq!(handles(&t, "push_button:has(+ push_button)"), vec![3]);
    assert_eq!(handles(&t, "panel:has(~ dialog)"), vec![1]);
    assert_eq!(handles(&t, "*:has(:scope > label)"), vec![2]);
}

#[test]
fn test_get_node_gives_the_first_match() {
    let t = tree();
    assert_eq!(t.get_node(&sel("push_button")).unwrap().handle, 3);
    assert_eq!(t.get_node(&sel("[name='Name']")).unwrap().handle, 6);
    assert!(t.get_node(&sel("menu")).is_none());
}

#[test]
fn test_node_matches() {
    let t = tree();
    let ok = t.get(3).unwrap();
    assert!(t.node_matches(ok, &sel("panel > push_button")));
    assert!(!t.node_matches(ok, &sel("dialog push_button")));
}

#[test]
fn test_root_and_into_root() {
    let t = tree();
    assert_eq!(t.root().unwrap().name, "Main");
    let root = t.into_root().unwrap();
    assert_eq!(root.jobject, 100);
    let empty = ContextTree { nodes: vec![], vm_id: 1 };
    assert_eq!(empty.root().unwrap_err(), "Root node missing");
    assert_eq!(empty.into_root().unwrap_err(), "Root node missing");
}

#[test]
fn test_rebuild_subtree_drops_and_rebuilds_below_node() {
    let mut t = tree();
    let fresh = raw(101, "Tools 2", "panel", "enabled", 0, vec![raw(107, "Apply", "push button", "enabled", 0, vec![])]);
    t.rebuild_subtree(1, &fresh);
    assert_eq!(t.nodes.len(), 8);
    assert!(t.get(3).is_none());
    assert!(t.get(4).is_none());
    let panel = t.get(1).unwrap();
    assert_eq!(panel.name, "Tools 2");
    assert_eq!(panel.children, vec![7]);
    assert_eq!(panel.parent, Some(0));
    let apply = t.get(7).unwrap();
    assert_eq!(apply.parent, Some(1));
    assert_eq!(apply.depth, 2);
    assert_eq!(handles(&t, "push_button"), vec![7]);
    assert_eq!(handles(&t, "label"), vec![5]);
}

#[test]
fn test_rebuild_subtree_of_missing_node_changes_nothing() {
    let mut t = tree();
    t.rebuild_subtree(42, &sample());
    assert_eq!(t.nodes.len(), 7);
    assert_eq!(handles(&t, "push_button"), vec![3, 4]);
}

fn event(vm_id: i64, source: Option<u64>, change: Change) -> ChangeEvent {
    ChangeEvent { vm_id, source, change }
}

fn name_change(new: &str) -> Change {
    Change::Name { old: "old".to_string(), new: new.to_string() }
}

#[test]
fn test_plan_updates_keeps_last_event_per_kind_and_node() {
    let events = vec![
        event(7, Some(3), name_change("First")),
        event(7, Some(4), Change::Text),
        event(7, Some(3), name_change("Second")),
        event(8, Some(3), name_change("Other machine")),
        event(7, None, name_change("Not in tree")),
        event(7, Some(3), Change::VisibleData),
        event(7, Some(4), Change::Text),
    ];
    let plan = plan_updates(7, &events);
    assert_eq!(plan.len(), 2);
    assert_eq!(plan[0].kind, UpdateKind::Name);
    assert_eq!(plan[0].handle, 3);
    assert_eq!(plan[0].value.as_deref(), Some("Second"));
    assert_eq!(plan[1].kind, UpdateKind::Text);
    assert_eq!(plan[1].handle, 4);
}

#[test]
fn test_apply_updates_name_description_text_state_child() {
    let mut t = tree();
    let events = vec![
        event(7, Some(3), name_change("Okay")),
        event(7, Some(4), Change::Description { old: String::new(), new: "Abort".to_string() }),
        event(7, Some(5), Change::Text),
        event(7, Some(6), Change::State { old: String::new(), new: String::new() }),
        event(7, Some(2), Change::Child { old: 0, new: 0 }),
    ];
    let plan = plan_updates(7, &events);
    assert_eq!(plan.len(), 5);
    let label = raw(105, "Sure?", "label", "enabled", 0, vec![]);
    let mut relabelled = label;
    relabelled.text = "New text".to_string();
    t.apply_update(&plan[0], None);
    t.apply_update(&plan[1], None);
    t.apply_update(&plan[2], Some(&relabelled));
    let fresh_text = raw(106, "Name", "text", "disabled", 1, vec![]);
    t.apply_update(&plan[3], Some(&fresh_text));
    assert_eq!(t.get(3).unwrap().name, "Okay");
    assert_eq!(t.get(4).unwrap().description, "Abort");
    assert_eq!(t.get(5).unwrap().text, "New text");
    assert_eq!(t.get(6).unwrap().states, vec!["disabled".to_string()]);
    let fresh_dialog = raw(104, "Confirm", "dialog", "enabled", 1, vec![]);
    t.apply_update(&plan[4], Some(&fresh_dialog));
    assert!(t.get(2).unwrap().children.is_empty());
    assert!(t.get(5).is_none());
    assert!(t.get(6).is_none());
}

#[test]
fn test_apply_update_without_read_or_node_changes_nothing() {
    let mut t = tree();
    let plan = plan_updates(7, &vec![event(7, Some(6), Change::Text), event(7, Some(40), name_change("x"))]);
    t.apply_update(&plan[0], None);
    t.apply_update(&plan[1], None);
    assert_eq!(t.get(6).unwrap().text, "text of Name");
    assert_eq!(t.nodes.len(), 7);
}

#[test]
fn test_needs_read_for_state_text_and_children_only() {
    let events = vec![
        event(7, Some(1), name_change("a")),
        event(7, Some(1), Change::Description { old: String::new(), new: "d".to_string() }),
        event(7, Some(1), Change::State { old: String::new(), new: String::new() }),
        event(7, Some(1), Change::Text),
        event(7, Some(1), Change::Child { old: 1, new: 2 }),
    ];
    let plan = plan_updates(7, &events);
    let reads: Vec<bool> = plan.iter().map(needs_read).collect();
    assert_eq!(reads, vec![false, false, true, true, true]);
}

/// Every node sits in the slot of its handle, below a parent that lists it, above
/// children that name it.
fn assert_well_formed(t: &ContextTree) {
    for (slot, n) in t.nodes.iter().enumerate() {
        let Some(n) = n else { continue };
        assert_eq!(n.handle, slot as u64);
        assert!(n.depth >= 0 && (n.depth as usize) <= slot);
        if let Some(p) = n.parent {
            let parent = t.get(p).expect("parent placed");
            assert_eq!(parent.depth + 1, n.depth);
            assert!(parent.children.contains(&n.handle));
        }
        for c in &n.children {
            let child = t.get(*c).expect("child placed");
            assert_eq!(child.parent, Some(n.handle));
            assert_eq!(child.depth, n.depth + 1);
        }
    }
}

#[test]
fn test_trees_stay_well_formed_through_building_and_updates() {
    let mut t = tree();
    assert_well_formed(&t);
    let fresh = raw(101, "Tools", "panel", "enabled", 0, vec![
        raw(108, "A", "push button", "enabled", 0, vec![raw(109, "icon", "icon", "", 0, vec![])]),
        raw(110, "B", "push button", "enabled", 1, vec![]),
    ]);
    t.rebuild_subtree(1, &fresh);
    assert_well_formed(&t);
    let plan = plan_updates(7, &vec![
        event(7, Some(2), Change::Child { old: 0, new: 0 }),
        event(7, Some(7), name_change("A2")),
    ]);
    t.apply_update(&plan[0], Some(&raw(104, "Confirm", "dialog", "enabled", 1, vec![raw(111, "Yes", "push button", "", 0, vec![])])));
    t.apply_update(&plan[1], None);
    assert_well_formed(&t);
    assert_eq!(handles(&t, "dialog > push_button"), vec![10]);
    assert_eq!(handles(&t, "[name='A2']"), vec![7]);
    assert_well_formed(&ContextTree::from_root(&sample(), 7, Some(1)));
}

#[test]
fn test_regex_with_case_flag_ignores_case() {
    let t = tree();
    assert_eq!(handles(&t, "[name='OK' ir]"), vec![3]);
    assert_eq!(handles(&t, "[name='^ca' ir]"), vec![4]);
    assert_eq!(handles(&t, "[name='^ca' r]"), Vec::<u64>::new());
}

#[test]
fn test_from_root_depth_limit_cuts_children() {
    let t = ContextTree::from_root(&sample(), 7, Some(1));
    assert_eq!(t.nodes.len(), 3);
    assert!(t.nodes.iter().flatten().all(|n| n.depth <= 1));
    let t0 = ContextTree::from_root(&sample(), 7, Some(-3));
    assert_eq!(t0.nodes.len(), 1);
    assert_eq!(t0.root().unwrap().children, Vec::<u64>::new());
}

#[test]
fn test_match_string_op_regex_honours_case_flag() {
    let target = StrMatcher::Regex("OK".to_string());
    let ci = AttrFlags { case_insensitive: true };
    let cs = AttrFlags { case_insensitive: false };
    assert!(match_string_op("ok", StringOp::Eq, &target, &ci));
    assert!(!match_string_op("ok", StringOp::Eq, &target, &cs));
    assert!(match_string_op("OK", StringOp::Eq, &target, &cs));
    let broken = StrMatcher::Regex("(".to_string());
    assert!(!match_string_op("(", StringOp::Eq, &broken, &ci));
    let plain = StrMatcher::Plain("Ok".to_string());
    assert!(match_string_op("oK", StringOp::Eq, &plain, &ci));
    assert!(!match_string_op("oK", StringOp::Eq, &plain, &cs));
}

#[test]
fn test_has_with_leading_scope_same_as_bare_combinator() {
    let t = tree();
    assert_eq!(handles(&t, "dialog:has(:scope > label)"), vec![2]);
    assert_eq!(handles(&t, "dialog:has(> label)"), vec![2]);
    assert_eq!(handles(&t, "*:has(:scope > push_button)"), handles(&t, "*:has(> push_button)"));
    assert_eq!(handles(&t, "*:has(:scope push_button)"), handles(&t, "*:has(push_button)"));
    assert_eq!(handles(&t, "*:has(push_button)"), vec![0, 1]);
    // a sibling combinator looks among the siblings only when it leads
    assert_eq!(handles(&t, "panel:has(+ dialog)"), vec![1]);
    assert_eq!(handles(&t, "panel:has(:scope + dialog)"), Vec::<u64>::new());
}

#[test]
fn test_word_match_splits_on_unicode_white_space_only() {
    let word = StrMatcher::Plain("b".to_string());
    let cs = AttrFlags { case_insensitive: false };
    assert!(match_string_op("a\u{3000}b", StringOp::ContainsWord, &word, &cs));
    assert!(match_string_op("a\u{85}b", StringOp::ContainsWord, &word, &cs));
    assert!(!match_string_op("a\u{200B}b", StringOp::ContainsWord, &word, &cs));
}
