use jab_wrapper::bridge::JabCallbackEvent;
use jab_wrapper::registry::ElementRegistry;

#[test]
fn test_register_hands_out_increasing_handles_from_one() {
    let mut r = ElementRegistry::new();
    assert_eq!(r.register_element(1, 500), 1);
    assert_eq!(r.register_element(1, 501), 2);
    assert_eq!(r.get_element(1), Some((1, 500)));
    assert_eq!(r.get_element(2), Some((1, 501)));
    assert_eq!(r.get_element(3), None);
}

#[test]
fn test_release_removes_element_and_object() {
    let mut r = ElementRegistry::new();
    let h = r.register_element(4, 777);
    assert_eq!(r.handle_of(777), Some(h));
    assert_eq!(r.release_element(h), Some((4, 777)));
    assert_eq!(r.get_element(h), None);
    assert_eq!(r.handle_of(777), None);
    assert_eq!(r.release_element(h), None);
}

#[test]
fn test_register_same_object_twice_maps_object_to_latest() {
    let mut r = ElementRegistry::new();
    let a = r.register_element(1, 9);
    let b = r.register_element(1, 9);
    assert_ne!(a, b);
    assert_eq!(r.handle_of(9), Some(b));
    assert_eq!(r.get_element(a), Some((1, 9)));
}

#[test]
fn test_vm_id_and_root_context() {
    let mut r = ElementRegistry::new();
    assert_eq!(r.get_vm_id(), None);
    assert_eq!(r.get_root_context(), None);
    r.set_vm_id(12);
    assert_eq!(r.set_root_context(34), None);
    assert_eq!(r.get_vm_id(), Some(12));
    assert_eq!(r.get_root_context(), Some(34));
}

#[test]
fn test_resolve_event_replaces_object_by_handle() {
    let mut r = ElementRegistry::new();
    let h = r.register_element(2, 4242);
    let e = r.resolve_event(JabCallbackEvent::from_source("FocusGained", 2, 4242));
    assert_eq!(e.context_handle, h);
    assert_eq!(e.message, "source=4242");
    let other = r.resolve_event(JabCallbackEvent::from_source("FocusLost", 2, 99));
    assert_eq!(other.context_handle, 99);
}

#[test]
fn test_set_root_context_hands_back_the_previous_root() {
    let mut r = ElementRegistry::new();
    r.set_vm_id(3);
    assert_eq!(r.set_root_context(10), None);
    assert_eq!(r.set_root_context(20), Some(10));
    assert_eq!(r.get_root_context(), Some(20));
    assert_eq!(r.set_root_context(20), Some(20));
}

#[test]
fn test_handles_persist_until_released_and_are_never_reused() {
    let mut r = ElementRegistry::new();
    let a = r.register_element(1, 10);
    let b = r.register_element(1, 11);
    assert_eq!(r.release_element(a), Some((1, 10)));
    let c = r.register_element(2, 12);
    assert!(a >= 1 && a < b && b < c);
    assert_eq!(r.get_element(a), None);
    assert_eq!(r.get_element(b), Some((1, 11)));
    assert_eq!(r.get_element(c), Some((2, 12)));
}

#[test]
fn test_release_all_hands_over_every_element_and_the_root() {
    let mut r = ElementRegistry::new();
    r.set_vm_id(1);
    let a = r.register_element(1, 10);
    let b = r.register_element(1, 11);
    let c = r.register_element(1, 10);
    r.set_root_context(99);
    let (mut elements, root) = r.release_all();
    elements.sort();
    assert_eq!(elements, vec![(1, 10), (1, 10), (1, 11)]);
    assert_eq!(root, Some(99));
    for h in [a, b, c] {
        assert_eq!(r.get_element(h), None);
    }
    assert_eq!(r.handle_of(10), None);
    assert_eq!(r.get_root_context(), None);
    assert_eq!(r.get_vm_id(), Some(1));
    assert_eq!(r.register_element(1, 12), 4);
}
