//! The decisions around calls into the Java Access Bridge: decoding its texts,
//! choosing the action to perform, splitting a text into the ranges to read, and
//! describing the events it reports.
use vstd::prelude::*;

use crate::selector::display::{decimal, int_text};
use crate::text::{
    chars_of, contains_exec, contains_seq, debug_list, debug_quoted, debug_str, debug_strings,
    lowercase, seq_eq, str_to_string, to_lower,
};

verus! {

// ---------------------------------------------------------------------------
// Texts

/// The UTF-16 units before the first NUL (all of them without one).
pub open spec fn before_nul(units: Seq<u16>) -> Seq<u16>
    decreases units.len(),
{
    if units.len() == 0 {
        seq![]
    } else if before_nul(units.drop_last()).len() < units.len() - 1 {
        before_nul(units.drop_last())
    } else if units.last() == 0 {
        units.drop_last()
    } else {
        units
    }
}

/// Whether a UTF-16 unit is a surrogate, high or low.
pub open spec fn is_surrogate(u: u16) -> bool {
    0xD800 <= u <= 0xDFFF
}

/// `String::from_utf16_lossy`: the text that the units encode. A unit outside the
/// surrogates is a character of its own; a high surrogate followed by a low one is
/// the character they encode together; every other surrogate becomes U+FFFD.
pub open spec fn utf16_lossy(units: Seq<u16>) -> Seq<char>
    decreases units.len(),
{
    if units.len() == 0 {
        seq![]
    } else {
        let u = units[0];
        if !is_surrogate(u) {
            seq![u as char] + utf16_lossy(units.skip(1))
        } else if u <= 0xDBFF && units.len() >= 2 && 0xDC00 <= units[1] <= 0xDFFF {
            let c = 0x10000 + (u - 0xD800) * 0x400 + (units[1] - 0xDC00);
            seq![c as char] + utf16_lossy(units.skip(2))
        } else {
            seq!['\u{FFFD}'] + utf16_lossy(units.skip(1))
        }
    }
}

/// Calls `String::from_utf16_lossy`, which decodes UTF-16 and puts U+FFFD in place
/// of each unpaired surrogate.
#[verifier::external_body]
fn from_utf16_lossy(units: &[u16]) -> (r: String)
    ensures
        r@ == utf16_lossy(units@),
{
    String::from_utf16_lossy(units)
}

/// The text that a buffer of the bridge holds: its UTF-16 units up to the first
/// NUL, decoded.
pub fn utf16_to_string(units: &[u16]) -> (r: String)
    ensures
        r@ == utf16_lossy(before_nul(units@)),
{
    let mut i: usize = 0;
    while i < units.len() && units[i] != 0
        invariant
            0 <= i <= units@.len(),
            before_nul(units@.take(i as int)) == units@.take(i as int),
        decreases units.len() - i,
    {
        assert(units@.take(i + 1).drop_last() =~= units@.take(i as int));
        i += 1;
    }
    let mut prefix: Vec<u16> = Vec::new();
    let mut k: usize = 0;
    while k < i
        invariant
            0 <= k <= i <= units@.len(),
            prefix@ == units@.take(k as int),
        decreases i - k,
    {
        prefix.push(units[k]);
        assert(prefix@ =~= units@.take(k + 1));
        k += 1;
    }
    proof { lemma_before_nul(units@, i as int); }
    from_utf16_lossy(prefix.as_slice())
}

/// `before_nul` of units whose first `i` hold no NUL, followed by a NUL or nothing.
proof fn lemma_before_nul(units: Seq<u16>, i: int)
    requires
        0 <= i <= units.len(),
        before_nul(units.take(i)) == units.take(i),
        i == units.len() || units[i] == 0,
    ensures
        before_nul(units) == units.take(i),
    decreases units.len(),
{
    if i == units.len() {
        assert(units.take(i) =~= units);
    } else if units.len() == i + 1 {
        assert(units.drop_last() =~= units.take(i));
    } else {
        assert(units.drop_last().take(i) =~= units.take(i));
        lemma_before_nul(units.drop_last(), i);
        assert(before_nul(units.drop_last()).len() < units.len() - 1);
    }
}

// ---------------------------------------------------------------------------
// Actions

/// The index of the first action whose name, lower-cased, is `action` lower-cased.
pub open spec fn is_first_action(action: Seq<char>, names: Seq<Seq<char>>, i: int) -> bool {
    &&& 0 <= i < names.len()
    &&& lowercase(names[i]) == lowercase(action)
    &&& forall|j: int| 0 <= j < i ==> lowercase(#[trigger] names[j]) != lowercase(action)
}

pub open spec fn no_action_message(action: Seq<char>, names: Seq<Seq<char>>) -> Seq<char> {
    "No "@ + debug_quoted(lowercase(action)) + " action found. Available actions: "@ + debug_list(names)
}

/// Chooses among the actions of an element, by their names, the one to perform:
/// the first whose name matches `action` without regard to case. Without one, the
/// error names the action (lower-cased) and lists the names.
pub fn choose_action(action: &str, names: &Vec<String>) -> (r: Result<usize, String>)
    ensures
        match r {
            Ok(i) => is_first_action(action@, names@.map_values(|s: String| s@), i as int),
            Err(m) => m@ == no_action_message(action@, names@.map_values(|s: String| s@))
                && forall|j: int| 0 <= j < names@.len() ==> lowercase(#[trigger] names@[j]@) != lowercase(action@),
        },
{
    let ghost ns = names@.map_values(|s: String| s@);
    let wanted = to_lower(action);
    let wanted_chars = chars_of(wanted.as_str());
    let mut i: usize = 0;
    while i < names.len()
        invariant
            ns == names@.map_values(|s: String| s@),
            wanted_chars@ == lowercase(action@),
            0 <= i <= names@.len(),
            forall|j: int| 0 <= j < i ==> lowercase(#[trigger] names@[j]@) != lowercase(action@),
        decreases names.len() - i,
    {
        let lower = to_lower(names[i].as_str());
        let lower_chars = chars_of(lower.as_str());
        if seq_eq(&lower_chars, &wanted_chars) {
            assert forall|j: int| 0 <= j < i implies lowercase(#[trigger] ns[j]) != lowercase(action@) by {
                assert(ns[j] == names@[j]@);
            }
            return Ok(i);
        }
        i += 1;
    }
    let mut m = str_to_string("No ");
    let quoted = debug_str(wanted.as_str());
    m.append(quoted.as_str());
    m.append(" action found. Available actions: ");
    let list = debug_strings(names);
    m.append(list.as_str());
    Err(m)
}

/// The message of an action the bridge failed to perform.
pub fn action_failed_message(action: &str, failure: i32) -> (r: String)
    ensures
        r@ == "Failed to perform "@ + action@ + " action, failure index: "@ + int_text(failure as int),
{
    let mut m = str_to_string("Failed to perform ");
    m.append(action);
    m.append(" action, failure index: ");
    let n = decimal(failure as i64);
    m.append(n.as_str());
    m
}

/// The first action whose name, lower-cased, contains `click`.
pub fn find_click_action(names: &Vec<String>) -> (r: Option<usize>)
    ensures
        match r {
            Some(i) => i < names@.len() && contains_seq(lowercase(names@[i as int]@), "click"@)
                && forall|j: int| 0 <= j < i ==> !contains_seq(lowercase(#[trigger] names@[j]@), "click"@),
            None => forall|j: int| 0 <= j < names@.len() ==> !contains_seq(lowercase(#[trigger] names@[j]@), "click"@),
        },
{
    let click = chars_of("click");
    let mut i: usize = 0;
    while i < names.len()
        invariant
            click@ == "click"@,
            0 <= i <= names@.len(),
            forall|j: int| 0 <= j < i ==> !contains_seq(lowercase(#[trigger] names@[j]@), "click"@),
        decreases names.len() - i,
    {
        let lower = to_lower(names[i].as_str());
        let lower_chars = chars_of(lower.as_str());
        if contains_exec(&lower_chars, &click) {
            return Some(i);
        }
        i += 1;
    }
    None
}

// ---------------------------------------------------------------------------
// Reading a text in ranges

/// The most characters read in one range.
pub const TEXT_CHUNK: usize = 4096;

/// One range of a text to read: the characters from `start` to `end`, both
/// included, into a buffer of `chunk_len + 1` units.
#[derive(Debug, Clone, Copy, PartialEq, Eq)]
pub struct TextRange {
    pub start: i32,
    pub end: i32,
    pub chunk_len: usize,
}

/// Range `k` of a text of `total` characters.
pub open spec fn range_at(total: int, k: int) -> TextRange {
    let start = k * 4096;
    let len = if total - start < 4096 { total - start } else { 4096 };
    TextRange { start: start as i32, end: (start + len - 1) as i32, chunk_len: len as usize }
}

/// The number of ranges a text of `total` characters takes.
pub open spec fn range_count(total: int) -> int {
    if total <= 0 { 0 } else { (total + 4095) / 4096 }
}

/// The ranges in which a text of `char_count` characters is read: consecutive
/// ranges of 4096 characters from the start, the last one shorter; none for an
/// empty (or negative) count.
pub fn text_ranges(char_count: i32) -> (r: Vec<TextRange>)
    ensures
        r@.len() == range_count(char_count as int),
        forall|k: int| 0 <= k < r@.len() ==> #[trigger] r@[k] == range_at(char_count as int, k),
{
    let total: usize = if char_count < 0 { 0 } else { char_count as usize };
    let n: usize = (total + 4095) / 4096;
    assert(n == range_count(char_count as int));
    let mut out: Vec<TextRange> = Vec::new();
    let mut k: usize = 0;
    let mut start: usize = 0;
    while k < n
        invariant
            total == (if char_count < 0 { 0 } else { char_count as int }),
            total <= i32::MAX,
            n == (total + 4095) / 4096,
            0 <= k <= n,
            out@.len() == k,
            start == k * 4096,
            forall|j: int| 0 <= j < out@.len() ==> #[trigger] out@[j] == range_at(char_count as int, j),
        decreases n - k,
    {
        assert(start < total) by (nonlinear_arith)
            requires
                start == k * 4096,
                k < n,
                n == (total + 4095) / 4096,
        ;
        let chunk_len = if total - start < TEXT_CHUNK { total - start } else { TEXT_CHUNK };
        let end = start + chunk_len - 1;
        let range = TextRange { start: start as i32, end: end as i32, chunk_len };
        assert(range == range_at(char_count as int, k as int));
        out.push(range);
        k += 1;
        start = start + 4096;
    }
    out
}

/// The ranges of a text cover it exactly: the first starts at 0, each starts right
/// after the one before, the last ends at the last character, and each holds
/// between 1 and 4096 characters.
pub proof fn law_text_ranges_cover(total: int, k: int)
    requires
        0 < total <= i32::MAX,
        0 <= k < range_count(total),
    ensures
        k == 0 ==> range_at(total, k).start == 0,
        k + 1 < range_count(total) ==> range_at(total, k + 1).start == range_at(total, k).end + 1,
        k + 1 == range_count(total) ==> range_at(total, k).end == total - 1,
        1 <= range_at(total, k).chunk_len <= 4096,
        range_at(total, k).end - range_at(total, k).start + 1 == range_at(total, k).chunk_len,
{
    assert(k * 4096 < total) by (nonlinear_arith)
        requires
            0 <= k < (total + 4095) / 4096,
    ;
    assert(k * 4096 + 4096 <= i32::MAX + 4096) by (nonlinear_arith)
        requires
            k * 4096 < total,
            total <= i32::MAX,
    ;
    if k + 1 < range_count(total) {
        assert((k + 1) * 4096 < total) by (nonlinear_arith)
            requires
                0 <= k + 1 < (total + 4095) / 4096,
        ;
    }
    if k + 1 == range_count(total) {
        assert(total - k * 4096 <= 4096) by (nonlinear_arith)
            requires
                k + 1 == (total + 4095) / 4096,
                total > 0,
        ;
    }
}

/// Appends the units a range read put in `buf` (`chunk_len + 1` units): those before
/// the first NUL, or the first `chunk_len` without one.
pub fn append_read(text: &mut Vec<u16>, buf: &Vec<u16>, chunk_len: usize)
    requires
        buf@.len() == chunk_len + 1,
    ensures
        final(text)@ == old(text)@ + (if before_nul(buf@).len() < buf@.len() { before_nul(buf@) } else { buf@.take(chunk_len as int) }),
{
    let mut i: usize = 0;
    while i < buf.len() && buf[i] != 0
        invariant
            0 <= i <= buf@.len(),
            before_nul(buf@.take(i as int)) == buf@.take(i as int),
        decreases buf.len() - i,
    {
        assert(buf@.take(i + 1).drop_last() =~= buf@.take(i as int));
        i += 1;
    }
    proof { lemma_before_nul(buf@, i as int); }
    let actual = if i < buf.len() { i } else { chunk_len };
    let mut k: usize = 0;
    let ghost start = text@;
    while k < actual
        invariant
            0 <= k <= actual <= chunk_len + 1,
            actual <= buf@.len(),
            text@ == start + buf@.take(k as int),
        decreases actual - k,
    {
        text.push(buf[k]);
        assert(buf@.take(k + 1) =~= buf@.take(k as int).push(buf@[k as int]));
        k += 1;
    }
}

// ---------------------------------------------------------------------------
// Windows

/// A top-level window as the bridge sees it: whether it gave an accessible
/// context, the virtual machine and root object it gave, and the name of that
/// root as decoded from its whole buffer (`None` when the info call failed).
#[derive(Debug, Clone)]
pub struct WindowCandidate {
    pub has_context: bool,
    pub vm_id: i32,
    pub context: i64,
    pub name: Option<String>,
}

/// The window is a Java window whose root name, without trailing NULs, is `title`.
pub open spec fn window_titled(w: WindowCandidate, title: Seq<char>) -> bool {
    &&& w.has_context
    &&& w.vm_id != 0
    &&& w.name matches Some(n) && crate::query::trim_nuls(n@) == title
}

/// The virtual machine and root object of the first window (in the order the
/// windows were enumerated) whose title is `title`; an error naming the title when
/// there is none.
pub fn select_window_by_title(title: &str, windows: &Vec<WindowCandidate>) -> (r: Result<(i32, i64), String>)
    ensures
        match r {
            Ok((vm_id, context)) => exists|i: int| 0 <= i < windows@.len() && window_titled(#[trigger] windows@[i], title@)
                && windows@[i].vm_id == vm_id && windows@[i].context == context
                && forall|j: int| 0 <= j < i ==> !window_titled(#[trigger] windows@[j], title@),
            Err(m) => m@ == "Window with title '"@ + title@ + "' not found"@
                && forall|j: int| 0 <= j < windows@.len() ==> !window_titled(#[trigger] windows@[j], title@),
        },
{
    let wanted = chars_of(title);
    let mut i: usize = 0;
    while i < windows.len()
        invariant
            wanted@ == title@,
            0 <= i <= windows@.len(),
            forall|j: int| 0 <= j < i ==> !window_titled(#[trigger] windows@[j], title@),
        decreases windows.len() - i,
    {
        let w = &windows[i];
        if w.has_context && w.vm_id != 0 {
            if let Some(name) = &w.name {
                let trimmed = crate::query::trim_nul_end(name.as_str());
                let got = chars_of(trimmed.as_str());
                if seq_eq(&got, &wanted) {
                    assert(window_titled(windows@[i as int], title@));
                    return Ok((w.vm_id, w.context));
                }
            }
        }
        i += 1;
    }
    let mut m = str_to_string("Window with title '");
    m.append(title);
    m.append("' not found");
    Err(m)
}

// ---------------------------------------------------------------------------
// Listing the Java windows

/// A top-level window as read for the list of Java windows: its handle, whether it
/// gave an accessible context, the virtual machine and root object it gave, and
/// the name and role of that root as decoded from their whole buffers (`None` when
/// the info call failed).
#[derive(Debug, Clone)]
pub struct WindowReading {
    pub hwnd: u64,
    pub has_context: bool,
    pub vm_id: i32,
    pub context: i64,
    pub info: Option<(String, String)>,
}

/// A Java window as listed to clients.
#[derive(Debug, Clone, PartialEq, Eq)]
pub struct JavaWindow {
    pub vm_id: i32,
    pub hwnd: u64,
    pub title: String,
    pub role: String,
}

pub struct JavaWindowV {
    pub vm_id: i32,
    pub hwnd: u64,
    pub title: Seq<char>,
    pub role: Seq<char>,
}

pub open spec fn view_window(w: JavaWindow) -> JavaWindowV {
    JavaWindowV { vm_id: w.vm_id, hwnd: w.hwnd, title: w.title@, role: w.role@ }
}

/// The window gave a root object of a Java virtual machine.
pub open spec fn is_java_window(w: WindowReading) -> bool {
    w.has_context && w.vm_id != 0
}

/// The windows listed from the readings, in order: each Java window whose info was
/// read, with its title and role stripped of trailing NULs.
pub open spec fn listed_windows(ws: Seq<WindowReading>) -> Seq<JavaWindowV>
    decreases ws.len(),
{
    if ws.len() == 0 {
        seq![]
    } else {
        let rest = listed_windows(ws.drop_last());
        let w = ws.last();
        match w.info {
            Some((name, role)) => if is_java_window(w) {
                rest.push(JavaWindowV {
                    vm_id: w.vm_id,
                    hwnd: w.hwnd,
                    title: crate::query::trim_nuls(name@),
                    role: crate::query::trim_nuls(role@),
                })
            } else {
                rest
            },
            None => rest,
        }
    }
}

/// The objects to hand back to the bridge once the windows are listed: the root
/// object of each Java window, in order.
pub open spec fn window_roots(ws: Seq<WindowReading>) -> Seq<(i32, i64)>
    decreases ws.len(),
{
    if ws.len() == 0 {
        seq![]
    } else if is_java_window(ws.last()) {
        window_roots(ws.drop_last()).push((ws.last().vm_id, ws.last().context))
    } else {
        window_roots(ws.drop_last())
    }
}

/// The Java windows among the readings, and the root objects they gave, which are
/// to be released once their info is read.
pub fn list_java_windows(readings: &Vec<WindowReading>) -> (r: (Vec<JavaWindow>, Vec<(i32, i64)>))
    ensures
        r.0@.map_values(|w: JavaWindow| view_window(w)) == listed_windows(readings@),
        r.1@ == window_roots(readings@),
{
    let mut windows: Vec<JavaWindow> = Vec::new();
    let mut roots: Vec<(i32, i64)> = Vec::new();
    let mut i: usize = 0;
    while i < readings.len()
        invariant
            0 <= i <= readings@.len(),
            windows@.map_values(|w: JavaWindow| view_window(w)) == listed_windows(readings@.take(i as int)),
            roots@ == window_roots(readings@.take(i as int)),
        decreases readings.len() - i,
    {
        let w = &readings[i];
        let ghost before = windows@;
        assert(readings@.take(i + 1).drop_last() =~= readings@.take(i as int));
        assert(readings@.take(i + 1).last() == readings@[i as int]);
        if w.has_context && w.vm_id != 0 {
            if let Some((name, role)) = &w.info {
                let title = crate::query::trim_nul_end(name.as_str());
                let role = crate::query::trim_nul_end(role.as_str());
                windows.push(JavaWindow { vm_id: w.vm_id, hwnd: w.hwnd, title, role });
                assert(windows@.map_values(|w: JavaWindow| view_window(w)) =~= before.map_values(
                    |w: JavaWindow| view_window(w),
                ).push(view_window(windows@[before.len() as int])));
            }
            roots.push((w.vm_id, w.context));
        }
        i += 1;
    }
    assert(readings@.take(readings@.len() as int) =~= readings@);
    (windows, roots)
}

// ---------------------------------------------------------------------------
// Events reported to clients

/// An event reported by the bridge, as it is passed on to clients.
#[derive(Debug, Clone)]
pub struct JabCallbackEvent {
    pub event_type: String,
    pub vm_id: i32,
    pub context_handle: u64,
    pub message: String,
    pub event_time: i64,
}

/// An event as the service streams it to its subscribers.
#[derive(Debug, Clone)]
pub struct CallbackEvent {
    pub event_type: String,
    pub vm_id: i32,
    pub context_handle: u64,
    pub message: String,
    pub event_time: i64,
}

impl JabCallbackEvent {
    /// The event of kind `event_type` that the element `source` of virtual machine
    /// `vm_id` raised: its context is the source object, its message `source=<id>`,
    /// and it carries no time.
    pub fn from_source(event_type: &str, vm_id: i32, source: i64) -> (e: JabCallbackEvent)
        ensures
            e.event_type@ == event_type@,
            e.vm_id == vm_id,
            e.context_handle == source as u64,
            e.message@ == "source="@ + int_text(source as int),
            e.event_time == 0,
    {
        let mut message = str_to_string("source=");
        let n = decimal(source);
        message.append(n.as_str());
        JabCallbackEvent {
            event_type: str_to_string(event_type),
            vm_id,
            context_handle: source as u64,
            message,
            event_time: 0,
        }
    }

    /// The event the bridge raises when virtual machine `vm_id` shuts down.
    pub fn java_shutdown(vm_id: i32) -> (e: JabCallbackEvent)
        ensures
            e.event_type@ == "JavaShutdown"@,
            e.vm_id == vm_id,
            e.context_handle == 0,
            e.message@ == "vm_id="@ + int_text(vm_id as int),
            e.event_time == 0,
    {
        let mut message = str_to_string("vm_id=");
        let n = decimal(vm_id as i64);
        message.append(n.as_str());
        JabCallbackEvent {
            event_type: str_to_string("JavaShutdown"),
            vm_id,
            context_handle: 0,
            message,
            event_time: 0,
        }
    }

    /// The event as streamed to subscribers.
    pub fn to_callback_event(&self) -> (e: CallbackEvent)
        ensures
            e.event_type@ == self.event_type@,
            e.vm_id == self.vm_id,
            e.context_handle == self.context_handle,
            e.message@ == self.message@,
            e.event_time == self.event_time,
    {
        CallbackEvent {
            event_type: self.event_type.clone(),
            vm_id: self.vm_id,
            context_handle: self.context_handle,
            message: self.message.clone(),
            event_time: self.event_time,
        }
    }
}

} // verus!
