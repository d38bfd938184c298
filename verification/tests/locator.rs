use jab_wrapper::selector::locator::Locator;
use jab_wrapper::selector::error::SelectorParseError;

#[test]
fn test_locator_new_and_parse_ok() {
    let loc = Locator::new("push_button");
    assert_eq!(loc.selector, "push_button");
    assert!(loc.parse().is_ok());
}

#[test]
fn test_locator_parse_err() {
    let loc = Locator::new("> a");
    assert!(loc.parse().is_err());
}

#[test]
fn test_locator_pipeline_complex_selector() {
    let loc = Locator::new("dialog > push_button[name='Clear'].enabled");
    let result = loc.parse();
    assert!(result.is_ok(), "expected Ok, got: {:?}", result.err());
    let sel = result.unwrap();
    assert_eq!(sel.alternatives.len(), 1);
}

#[test]
fn test_locator_pipeline_alternatives() {
    let loc = Locator::new("push_button, checkbox, radio_button");
    let sel = loc.parse().unwrap();
    assert_eq!(sel.alternatives.len(), 3);
}

#[test]
fn test_locator_pipeline_wildcard() {
    let loc = Locator::new("*");
    let sel = loc.parse().unwrap();
    assert!(sel.alternatives[0].last.role.is_none());
}

#[test]
fn test_locator_pipeline_pseudo_has() {
    let loc = Locator::new(":has(push_button)");
    let sel = loc.parse().unwrap();
    assert_eq!(sel.alternatives[0].last.pseudo_classes.len(), 1);
}

#[test]
fn test_locator_pipeline_not_relative() {
    // :not with relative selectors inside should be rejected
    assert!(Locator::new(":not(> button)").parse().is_err());
}

#[test]
fn test_locator_pipeline_all_attr_types() {
    let loc = Locator::new("[name='ok' i][x==5][accessible_action]");
    let sel = loc.parse().unwrap();
    assert_eq!(sel.alternatives[0].last.attrs.len(), 3);
}

#[test]
fn test_locator_parse_reevaluate() {
    let loc = Locator::new("a");
    assert!(loc.parse().is_ok());
    // The same locator can be parsed multiple times
    assert!(loc.parse().is_ok());
}

#[test]
fn test_relative_selector_refused_inside_not_and_at_top_level() {
    assert!(Locator::new("a:not(> b)").parse().is_err());
    assert!(Locator::new("+ b").parse().is_err());
    assert!(Locator::new("a:has(> b)").parse().is_ok());
}

#[test]
fn test_wildcard_role_same_as_no_role() {
    let star = Locator::new("*[name='Clear']").parse().unwrap();
    let bare = Locator::new("[name='Clear']").parse().unwrap();
    assert_eq!(star, bare);
}

#[test]
fn test_parse_error_messages() {
    let msg = |s: &str| match Locator::new(s).parse() {
        Err(SelectorParseError::Parse(m)) => m,
        other => panic!("expected a parse error, got {:?}", other),
    };
    assert_eq!(msg("> a"), "relative selectors are not allowed at the top level");
    assert_eq!(msg(""), "expected a selector");
    assert_eq!(msg("a )"), "unexpected input after the selector");
    assert_eq!(
        Locator::new("a )").parse().unwrap_err().to_string(),
        "Parse error: unexpected input after the selector"
    );
}

#[test]
fn test_locator_parse_twice_gives_the_same_outcome() {
    for s in ["a > b", "a )", ":has(", "push_button[name='OK' i]"] {
        let loc = Locator::new(s);
        let first = loc.parse();
        let second = loc.parse();
        assert_eq!(loc.selector, s);
        match (first, second) {
            (Ok(x), Ok(y)) => assert_eq!(x, y),
            (Err(x), Err(y)) => assert_eq!(x.to_string(), y.to_string()),
            _ => panic!("two parses of {:?} disagree", s),
        }
    }
}
