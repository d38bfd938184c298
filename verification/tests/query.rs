use jab_wrapper::query::{
    element_from_context_node, has_descendant_matching, matches_node_simple, matches_string_field,
    node_matches, trim_nul_end, AscendantLocator, DescendantLocator, ElementInfo, ElementLocator,
    ElementNode, ElementTree, IndexLocator, RawElement, StringLocator,
};
use jab_wrapper::registry::ElementRegistry;

fn info(name: &str, role: &str, index: i32, count: usize) -> ElementInfo {
    ElementInfo {
        name: format!("{}\0\0\0", name),
        role: format!("{}\0", role),
        description: String::from("desc\0\0"),
        x: 1,
        y: 2,
        width: 3,
        height: 4,
        accessible_action: 1,
        accessible_text: 0,
        accessible_selection: 2,
        children_count: count as i32,
        index_in_parent: index,
    }
}

fn raw(context: i64, name: &str, role: &str, index: i32, children: Vec<RawElement>) -> RawElement {
    RawElement { context, info: Some(info(name, role, index, children.len())), children }
}

/// frame "Main" > [panel "Tools" > [push button "OK", (null), push button "Cancel"], label "Hi"]
fn sample() -> RawElement {
    raw(
        10,
        "Main",
        "frame",
        0,
        vec![
            raw(
                11,
                "Tools",
                "panel",
                0,
                vec![
                    raw(12, "OK", "push button", 0, vec![]),
                    RawElement { context: 0, info: None, children: vec![] },
                    raw(13, "Cancel", "push button", 2, vec![]),
                ],
            ),
            raw(14, "Hi", "label", 1, vec![]),
        ],
    )
}

fn plain(s: &str) -> Option<StringLocator> {
    Some(StringLocator { find: s.to_string(), regex: false })
}

fn regex(s: &str) -> Option<StringLocator> {
    Some(StringLocator { find: s.to_string(), regex: true })
}

fn locator() -> ElementLocator {
    ElementLocator {
        name: None,
        role: None,
        description: None,
        text: None,
        index_in_parent: None,
        ascendant: None,
        descendants: vec![],
    }
}

fn names(found: Vec<&ElementNode>) -> Vec<String> {
    found.iter().map(|n| n.name.clone()).collect()
}

#[test]
fn test_trim_nul_end() {
    assert_eq!(trim_nul_end("abc\0\0"), "abc");
    assert_eq!(trim_nul_end("a\0b\0"), "a\0b");
    assert_eq!(trim_nul_end("\0"), "");
}

#[test]
fn test_from_root_registers_nodes_before_children_and_skips_null_children() {
    let mut reg = ElementRegistry::new();
    let tree = ElementTree::from_root(&sample(), 5, None, &mut reg);
    let root = tree.root.as_ref().unwrap();
    assert_eq!(root.handle, 1);
    assert_eq!(root.name, "Main");
    assert_eq!(root.role, "frame");
    assert_eq!(root.description, "desc");
    assert_eq!(root.vm_id, 5);
    assert!(root.accessible_action && !root.accessible_text && root.accessible_selection);
    assert_eq!(root.children.len(), 2);
    let panel = &root.children[0];
    assert_eq!(panel.handle, 2);
    assert_eq!(panel.children.len(), 2);
    assert_eq!(panel.children[0].handle, 3);
    assert_eq!(panel.children[1].handle, 4);
    assert_eq!(panel.children[1].name, "Cancel");
    assert_eq!(root.children[1].handle, 5);
    assert_eq!(reg.get_element(4), Some((5, 13)));
    assert_eq!(reg.get_element(6), None);
}

#[test]
fn test_from_root_null_root_and_max_depth() {
    let mut reg = ElementRegistry::new();
    let none = ElementTree::from_root(&RawElement { context: 0, info: None, children: vec![] }, 1, None, &mut reg);
    assert!(none.root.is_none());
    assert_eq!(reg.get_element(1), None);
    let shallow = ElementTree::from_root(&sample(), 1, Some(1), &mut reg);
    let root = shallow.root.as_ref().unwrap();
    assert_eq!(root.children.len(), 2);
    assert!(root.children[0].children.is_empty());
}

#[test]
fn test_matches_string_field() {
    assert!(matches_string_field("OK", &None));
    assert!(matches_string_field("OK", &plain("OK")));
    assert!(!matches_string_field("OK", &plain("ok")));
    assert!(matches_string_field("Cancel", &regex("^C")));
    assert!(!matches_string_field("Cancel", &regex("^X")));
    assert!(!matches_string_field("Cancel", &regex("(")));
}

#[test]
fn test_get_elements_by_fields() {
    let mut reg = ElementRegistry::new();
    let tree = ElementTree::from_root(&sample(), 1, None, &mut reg);
    let mut l = locator();
    l.role = plain("push button");
    assert_eq!(names(tree.get_elements(&l)), vec!["OK", "Cancel"]);
    l.index_in_parent = Some(IndexLocator { index: 2 });
    assert_eq!(names(tree.get_elements(&l)), vec!["Cancel"]);
    let mut any = locator();
    any.name = regex("o");
    assert_eq!(names(tree.get_elements(&any)), vec!["Tools"]);
    assert_eq!(names(tree.get_elements(&locator())), vec!["Main", "Tools", "OK", "Cancel", "Hi"]);
}

#[test]
fn test_get_elements_with_ascendant() {
    let mut reg = ElementRegistry::new();
    let tree = ElementTree::from_root(&sample(), 1, None, &mut reg);
    let mut parent = locator();
    parent.name = plain("Tools");
    let mut l = locator();
    l.ascendant = Some(AscendantLocator { is_parent: true, locator: Some(Box::new(parent)) });
    assert_eq!(names(tree.get_elements(&l)), vec!["OK", "Cancel"]);
    let mut top = locator();
    top.name = plain("Main");
    let mut below_main = locator();
    below_main.ascendant = Some(AscendantLocator { is_parent: false, locator: Some(Box::new(top)) });
    assert_eq!(names(tree.get_elements(&below_main)), vec!["Tools", "OK", "Cancel", "Hi"]);
    let mut no_locator = locator();
    no_locator.ascendant = Some(AscendantLocator { is_parent: false, locator: None });
    assert!(tree.get_elements(&no_locator).is_empty());
}

#[test]
fn test_get_elements_with_descendants() {
    let mut reg = ElementRegistry::new();
    let tree = ElementTree::from_root(&sample(), 1, None, &mut reg);
    let mut ok = locator();
    ok.name = plain("OK");
    let mut l = locator();
    l.descendants = vec![DescendantLocator { is_child: true, locator: Some(ok) }];
    assert_eq!(names(tree.get_elements(&l)), vec!["Tools"]);
    let mut ok2 = locator();
    ok2.name = plain("OK");
    let mut deep = locator();
    deep.descendants = vec![DescendantLocator { is_child: false, locator: Some(ok2) }];
    assert_eq!(names(tree.get_elements(&deep)), vec!["Main", "Tools"]);
    let root = tree.root.as_ref().unwrap();
    assert!(!has_descendant_matching(root, &DescendantLocator { is_child: false, locator: None }));
}

#[test]
fn test_node_matches_and_simple() {
    let mut reg = ElementRegistry::new();
    let tree = ElementTree::from_root(&sample(), 1, None, &mut reg);
    let root = tree.root.as_ref().unwrap();
    let ok = &root.children[0].children[0];
    let mut l = locator();
    l.text = plain("");
    assert!(matches_node_simple(ok, &l));
    l.description = plain("other");
    assert!(!matches_node_simple(ok, &l));
    let mut p = locator();
    p.name = plain("Tools");
    let mut l2 = locator();
    l2.ascendant = Some(AscendantLocator { is_parent: true, locator: Some(Box::new(p)) });
    assert!(node_matches(ok, &l2, &vec![root, &root.children[0]]));
    assert!(!node_matches(ok, &l2, &vec![root]));
}

#[test]
fn test_element_from_context_node_copies_the_tree() {
    let mut reg = ElementRegistry::new();
    let tree = ElementTree::from_root(&sample(), 1, None, &mut reg);
    let e = element_from_context_node(tree.root.as_ref().unwrap());
    assert_eq!(e.handle, 1);
    assert_eq!(e.name, "Main");
    assert_eq!(e.children.len(), 2);
    assert_eq!(e.children[0].children[1].name, "Cancel");
    assert_eq!(e.children[0].children[1].handle, 4);
    assert_eq!(e.visible_children_count, 2);
}

#[test]
fn test_release_frees_every_node_parent_first() {
    let mut reg = ElementRegistry::new();
    let tree = ElementTree::from_root(&sample(), 3, None, &mut reg);
    let freed = tree.release(&mut reg);
    assert_eq!(freed, vec![(3, 10), (3, 11), (3, 12), (3, 13), (3, 14)]);
    assert_eq!(reg.get_element(1), None);
    assert_eq!(reg.handle_of(12), None);
}
