use jab_wrapper::bridge::{
    action_failed_message, append_read, choose_action, find_click_action, list_java_windows, select_window_by_title,
    text_ranges, utf16_to_string, JabCallbackEvent, JavaWindow, TextRange, WindowCandidate, WindowReading,
};

fn units(s: &str) -> Vec<u16> {
    s.encode_utf16().collect()
}

#[test]
fn test_utf16_to_string_stops_at_first_nul() {
    let mut buf = units("Main window");
    buf.push(0);
    buf.extend(units("garbage"));
    assert_eq!(utf16_to_string(&buf), "Main window");
}

#[test]
fn test_utf16_to_string_without_nul_and_empty() {
    assert_eq!(utf16_to_string(&units("héllo ✓")), "héllo ✓");
    assert_eq!(utf16_to_string(&[]), "");
    assert_eq!(utf16_to_string(&[0, 65]), "");
}

#[test]
fn test_utf16_to_string_replaces_lone_surrogate() {
    assert_eq!(utf16_to_string(&[0x41, 0xD800, 0x42]), "A\u{FFFD}B");
}

fn names(v: &[&str]) -> Vec<String> {
    v.iter().map(|s| s.to_string()).collect()
}

#[test]
fn test_choose_action_ignores_case_and_takes_first() {
    let actions = names(&["Toggle", "Click", "click"]);
    assert_eq!(choose_action("CLICK", &actions), Ok(1));
    assert_eq!(choose_action("toggle", &actions), Ok(0));
}

#[test]
fn test_choose_action_not_found_message() {
    let actions = names(&["Toggle", "Expand"]);
    assert_eq!(
        choose_action("Press", &actions),
        Err("No \"press\" action found. Available actions: [\"Toggle\", \"Expand\"]".to_string())
    );
    assert_eq!(
        choose_action("x", &vec![]),
        Err("No \"x\" action found. Available actions: []".to_string())
    );
}

#[test]
fn test_action_failed_message() {
    assert_eq!(action_failed_message("click", 3), "Failed to perform click action, failure index: 3");
    assert_eq!(action_failed_message("click", -12), "Failed to perform click action, failure index: -12");
}

#[test]
fn test_find_click_action() {
    assert_eq!(find_click_action(&names(&["toggle", "DoubleClick", "click"])), Some(1));
    assert_eq!(find_click_action(&names(&["toggle"])), None);
}

#[test]
fn test_text_ranges_split_in_chunks_of_4096() {
    assert!(text_ranges(0).is_empty());
    assert!(text_ranges(-5).is_empty());
    assert_eq!(text_ranges(10), vec![TextRange { start: 0, end: 9, chunk_len: 10 }]);
    assert_eq!(text_ranges(4096), vec![TextRange { start: 0, end: 4095, chunk_len: 4096 }]);
    assert_eq!(
        text_ranges(9000),
        vec![
            TextRange { start: 0, end: 4095, chunk_len: 4096 },
            TextRange { start: 4096, end: 8191, chunk_len: 4096 },
            TextRange { start: 8192, end: 8999, chunk_len: 808 },
        ]
    );
}

#[test]
fn test_append_read_stops_at_nul_or_chunk_len() {
    let mut text = units("ab");
    append_read(&mut text, &vec![99, 100, 0, 101], 3);
    assert_eq!(text, units("abcd"));
    append_read(&mut text, &vec![101, 102, 103, 104], 3);
    assert_eq!(text, units("abcdefg"));
    append_read(&mut text, &vec![105, 106, 0], 2);
    assert_eq!(text, units("abcdefgij"));
}

#[test]
fn test_callback_event_from_source() {
    let e = JabCallbackEvent::from_source("FocusGained", 3, 12345);
    assert_eq!(e.event_type, "FocusGained");
    assert_eq!(e.vm_id, 3);
    assert_eq!(e.context_handle, 12345);
    assert_eq!(e.message, "source=12345");
    assert_eq!(e.event_time, 0);
    let neg = JabCallbackEvent::from_source("MouseClicked", 1, -2);
    assert_eq!(neg.context_handle, u64::MAX - 1);
    assert_eq!(neg.message, "source=-2");
}

#[test]
fn test_callback_event_java_shutdown_and_conversion() {
    let e = JabCallbackEvent::java_shutdown(-7);
    assert_eq!(e.event_type, "JavaShutdown");
    assert_eq!(e.context_handle, 0);
    assert_eq!(e.message, "vm_id=-7");
    let c = e.to_callback_event();
    assert_eq!(c.event_type, "JavaShutdown");
    assert_eq!(c.vm_id, -7);
    assert_eq!(c.message, "vm_id=-7");
}


fn window(has_context: bool, vm_id: i32, context: i64, name: Option<&str>) -> WindowCandidate {
    WindowCandidate { has_context, vm_id, context, name: name.map(|n| n.to_string()) }
}

#[test]
fn test_select_window_by_title_first_java_window_with_that_title() {
    let windows = vec![
        window(false, 1, 10, Some("Editor\0\0")),
        window(true, 0, 11, Some("Editor\0\0")),
        window(true, 2, 12, None),
        window(true, 3, 13, Some("Editor - draft\0")),
        window(true, 4, 14, Some("Editor\0\0\0")),
        window(true, 5, 15, Some("Editor")),
    ];
    assert_eq!(select_window_by_title("Editor", &windows), Ok((4, 14)));
}

#[test]
fn test_select_window_by_title_not_found() {
    let windows = vec![window(true, 1, 10, Some("Other\0"))];
    assert_eq!(
        select_window_by_title("Editor", &windows),
        Err("Window with title 'Editor' not found".to_string())
    );
}

fn reading(hwnd: u64, has_context: bool, vm_id: i32, context: i64, info: Option<(&str, &str)>) -> WindowReading {
    WindowReading {
        hwnd,
        has_context,
        vm_id,
        context,
        info: info.map(|(n, r)| (n.to_string(), r.to_string())),
    }
}

#[test]
fn test_list_java_windows_keeps_java_windows_and_releases_their_roots() {
    let readings = vec![
        reading(1, true, 7, 100, Some(("Editor\0\0", "frame\0"))),
        reading(2, false, 0, 0, None),
        reading(3, true, 0, 55, Some(("Native", "frame"))),
        reading(4, true, 7, 101, None),
        reading(5, true, 8, 102, Some(("Dialog", "dialog"))),
    ];
    let (windows, roots) = list_java_windows(&readings);
    assert_eq!(
        windows,
        vec![
            JavaWindow { vm_id: 7, hwnd: 1, title: "Editor".to_string(), role: "frame".to_string() },
            JavaWindow { vm_id: 8, hwnd: 5, title: "Dialog".to_string(), role: "dialog".to_string() },
        ]
    );
    assert_eq!(roots, vec![(7, 100), (7, 101), (8, 102)]);
}

#[test]
fn test_utf16_to_string_decodes_pairs_and_replaces_lone_surrogates() {
    let buf: Vec<u16> = vec![0x48, 0xD83D, 0xDE00, 0xD800, 0x41, 0xDC00, 0, 0x42];
    assert_eq!(utf16_to_string(&buf), "H\u{1F600}\u{FFFD}A\u{FFFD}");
}
