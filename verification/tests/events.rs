//! Keys, clicks, text payloads, scroll handles and the window.

use gpui_sys::abi::{
    ABI_VERSION, EVENT_CLICK, EVENT_KEY, EVENT_NAMED_KEY, EVENT_TEXT, GPUI_STATUS_INTERNAL_PANIC,
    GPUI_STATUS_INVALID_HANDLE, GPUI_STATUS_OK, KEY_BACKSPACE, KEY_DELETE, KEY_DOWN, KEY_END,
    KEY_ENTER, KEY_ESCAPE, KEY_HOME, KEY_LEFT, KEY_PAGEDOWN, KEY_PAGEUP, KEY_RIGHT, KEY_TAB,
    KEY_UP, MOD_ALT, MOD_CTRL, MOD_FUNCTION, MOD_PLATFORM, MOD_SHIFT,
};
use gpui_sys::events::{
    click_event, gpui_event_copy_text, is_control, key_code, key_down, mods_bits, named_key_id,
    notify_if_changed, typed_text, Envelope, EventQueue, KeyAction, Keystroke, Modifiers,
};
use gpui_sys::reader::Float32;
use gpui_sys::scroll::{scroll_handle_for, ScrollHandles};
use gpui_sys::window::{
    attempt_context, ffi_export, gpui_run_window, report_panic, run_window_with_fallback, Attempt,
    Outcome, WindowStep,
};
use std::cell::Cell;
use std::collections::HashSet;
use std::rc::Rc;

const PLAIN: Modifiers = Modifiers {
    control: false,
    alt: false,
    shift: false,
    platform: false,
    function: false,
};

fn stroke(key: &str, key_char: Option<&str>, modifiers: Modifiers) -> Keystroke {
    Keystroke {
        key: key.to_string(),
        key_char: key_char.map(str::to_string),
        modifiers,
    }
}

fn size(v: f32) -> Float32 {
    Float32 { bits: v.to_bits() }
}

// Keys.

#[test]
fn named_key_id_maps_known_keys() {
    assert_eq!(named_key_id("enter"), Some(KEY_ENTER));
    assert_eq!(named_key_id("escape"), Some(KEY_ESCAPE));
    assert_eq!(named_key_id("up"), Some(KEY_UP));
    assert_eq!(named_key_id("down"), Some(KEY_DOWN));
    assert_eq!(named_key_id("left"), Some(KEY_LEFT));
    assert_eq!(named_key_id("right"), Some(KEY_RIGHT));
    assert_eq!(named_key_id("tab"), Some(KEY_TAB));
    assert_eq!(named_key_id("backspace"), Some(KEY_BACKSPACE));
    assert_eq!(named_key_id("delete"), Some(KEY_DELETE));
    assert_eq!(named_key_id("home"), Some(KEY_HOME));
    assert_eq!(named_key_id("end"), Some(KEY_END));
    assert_eq!(named_key_id("pageup"), Some(KEY_PAGEUP));
    assert_eq!(named_key_id("pagedown"), Some(KEY_PAGEDOWN));
}

#[test]
fn named_key_id_rejects_unknown() {
    assert_eq!(named_key_id("k"), None);
    assert_eq!(named_key_id("space"), None);
    assert_eq!(named_key_id(""), None);
    assert_eq!(named_key_id("f13"), None);
}

#[test]
fn key_code_is_the_code_point_of_a_single_character() {
    assert_eq!(key_code(&stroke("k", None, PLAIN)), 'k' as i32);
    assert_eq!(key_code(&stroke("あ", None, PLAIN)), 0x3042);
    assert_eq!(key_code(&stroke("🎉", None, PLAIN)), 0x1F389);
    assert_eq!(key_code(&stroke("", None, PLAIN)), 0);
    assert_eq!(key_code(&stroke("up", None, PLAIN)), 0);
}

#[test]
fn typed_text_prefers_the_inserted_text() {
    assert_eq!(typed_text(&stroke("a", Some("å"), PLAIN)).as_deref(), Some("å"));
    assert_eq!(typed_text(&stroke("enter", Some("かな"), PLAIN)).as_deref(), Some("かな"));
    assert_eq!(typed_text(&stroke("a", Some(""), PLAIN)).as_deref(), Some("a"));
    assert_eq!(typed_text(&stroke("a", None, PLAIN)).as_deref(), Some("a"));
    assert_eq!(typed_text(&stroke("enter", None, PLAIN)), None);
    assert_eq!(typed_text(&stroke("\u{7F}", None, PLAIN)), None);
    assert_eq!(typed_text(&stroke("", None, PLAIN)), None);
}

#[test]
fn control_characters_are_those_of_the_unicode_category() {
    for c in '\0'..=char::MAX {
        assert_eq!(is_control(c), c.is_control(), "{:#x}", c as u32);
    }
}

fn modifiers(n: u32) -> Modifiers {
    Modifiers {
        control: n & 1 != 0,
        alt: n & 2 != 0,
        shift: n & 4 != 0,
        platform: n & 8 != 0,
        function: n & 16 != 0,
    }
}

#[test]
fn modifiers_have_one_bit_each() {
    assert_eq!(mods_bits(&modifiers(0)), 0);
    assert_eq!(mods_bits(&modifiers(1)), MOD_CTRL);
    assert_eq!(mods_bits(&modifiers(2)), MOD_ALT);
    assert_eq!(mods_bits(&modifiers(4)), MOD_SHIFT);
    assert_eq!(mods_bits(&modifiers(8)), MOD_PLATFORM);
    assert_eq!(mods_bits(&modifiers(16)), MOD_FUNCTION);
    assert_eq!(mods_bits(&modifiers(31)), 31);
    let all: HashSet<i32> = (0..32).map(|n| mods_bits(&modifiers(n))).collect();
    assert_eq!(all.len(), 32);
}

#[test]
fn notification_gate_accepts_only_changed_one() {
    let calls = Cell::new(0);
    notify_if_changed(0, || calls.set(calls.get() + 1));
    notify_if_changed(-1, || calls.set(calls.get() + 1));
    notify_if_changed(2, || calls.set(calls.get() + 1));
    assert_eq!(calls.get(), 0);
    notify_if_changed(1, || calls.set(calls.get() + 1));
    assert_eq!(calls.get(), 1);
}

fn envelope(kind: i32, view: i32, data_a: i32, data_b: i32) -> Envelope {
    Envelope { version: ABI_VERSION, kind, view, data_a, data_b }
}

#[test]
fn tab_moves_the_focus_and_is_not_dispatched() {
    assert!(matches!(key_down(&stroke("tab", None, PLAIN), 0), KeyAction::FocusNext));
    let shifted = Modifiers { shift: true, ..PLAIN };
    assert!(matches!(key_down(&stroke("tab", Some("\t"), shifted), 0), KeyAction::FocusPrev));
}

#[test]
fn a_character_key_dispatches_its_code_point_and_its_text() {
    let held = Modifiers { control: true, ..PLAIN };
    match key_down(&stroke("k", None, held), 3) {
        KeyAction::Dispatch { key, text } => {
            assert_eq!(key, Some(envelope(EVENT_KEY, 3, 'k' as i32, MOD_CTRL)));
            assert_eq!(text.as_deref(), Some("k"));
        }
        other => panic!("{other:?}"),
    }
}

#[test]
fn a_named_key_dispatches_its_id() {
    match key_down(&stroke("enter", None, PLAIN), 1) {
        KeyAction::Dispatch { key, text } => {
            assert_eq!(key, Some(envelope(EVENT_NAMED_KEY, 1, KEY_ENTER, 0)));
            assert_eq!(text, None);
        }
        other => panic!("{other:?}"),
    }
}

#[test]
fn an_unknown_key_dispatches_only_the_text_it_inserts() {
    match key_down(&stroke("dead", Some("é"), PLAIN), 0) {
        KeyAction::Dispatch { key, text } => {
            assert_eq!(key, None);
            assert_eq!(text.as_deref(), Some("é"));
        }
        other => panic!("{other:?}"),
    }
}

#[test]
fn a_click_carries_its_id() {
    assert_eq!(click_event(2, 9), envelope(EVENT_CLICK, 2, 9, 0));
    assert_eq!(click_event(0, -5), envelope(EVENT_CLICK, 0, -5, 0));
}

// Payloads.

#[test]
fn text_payloads_read_back_by_token() {
    let mut queue = EventQueue::new();
    let first = queue.text_event(4, "かな");
    let second = queue.text_event(4, "b");
    assert_eq!(first, envelope(EVENT_TEXT, 4, 0, 6));
    assert_eq!(second, envelope(EVENT_TEXT, 4, 1, 1));

    let mut buf = vec![0u8; first.data_b as usize];
    assert_eq!(gpui_event_copy_text(&queue, first.data_a, Some(&mut buf), first.data_b), 6);
    assert_eq!(buf, "かな".as_bytes());

    let mut long = [7u8; 3];
    assert_eq!(gpui_event_copy_text(&queue, second.data_a, Some(&mut long), 3), 1);
    assert_eq!(long, [b'b', 7, 7]);

    let mut short = [7u8; 3];
    assert_eq!(gpui_event_copy_text(&queue, first.data_a, Some(&mut short), 2), 2);
    assert_eq!(short, [0xE3, 0x81, 7]);
}

#[test]
fn copying_a_payload_rejects_bad_arguments() {
    let mut queue = EventQueue::new();
    let mut buf = [7u8; 2];
    assert_eq!(
        gpui_event_copy_text(&queue, 0, Some(&mut buf), 2),
        GPUI_STATUS_INVALID_HANDLE
    );
    queue.text_event(0, "ab");
    assert_eq!(
        gpui_event_copy_text(&queue, -1, Some(&mut buf), 2),
        GPUI_STATUS_INVALID_HANDLE
    );
    assert_eq!(
        gpui_event_copy_text(&queue, 1, Some(&mut buf), 2),
        GPUI_STATUS_INVALID_HANDLE
    );
    assert_eq!(
        gpui_event_copy_text(&queue, 0, Some(&mut buf), -1),
        GPUI_STATUS_INVALID_HANDLE
    );
    assert_eq!(gpui_event_copy_text(&queue, 0, None, 2), GPUI_STATUS_INVALID_HANDLE);
    assert_eq!(buf, [7, 7]);
}

// Scroll handles.

/// A handle whose clones share one offset.
#[derive(Clone)]
struct Handle(Rc<Cell<(f32, f32)>>);

impl Handle {
    fn new() -> Self {
        Handle(Rc::new(Cell::new((0.0, 0.0))))
    }
}

#[test]
fn keyed_scroll_handle_is_retained_across_renders() {
    let mut store = ScrollHandles::new();

    let first = scroll_handle_for(&mut store, Some("list"), Handle::new());
    let second = scroll_handle_for(&mut store, Some("list"), Handle::new());
    first.0.set((0.0, -120.0));
    assert_eq!(second.0.get(), (0.0, -120.0));

    let other = scroll_handle_for(&mut store, Some("other"), Handle::new());
    assert_eq!(other.0.get(), (0.0, 0.0));

    let keyless_a = scroll_handle_for(&mut store, None, Handle::new());
    let keyless_b = scroll_handle_for(&mut store, None, Handle::new());
    keyless_a.0.set((0.0, -50.0));
    assert_eq!(keyless_b.0.get(), (0.0, 0.0));

    let third = scroll_handle_for(&mut store, Some("list"), Handle::new());
    assert_eq!(third.0.get(), (0.0, -120.0));
}

// The window.

#[test]
fn run_window_rejects_negative_view() {
    assert_eq!(
        gpui_run_window(-1, size(10.0), size(10.0)),
        WindowStep::Done(GPUI_STATUS_INVALID_HANDLE)
    );
}

#[test]
fn run_window_opens_a_view() {
    assert_eq!(
        gpui_run_window(2, size(640.0), size(480.0)),
        WindowStep::Open { view: 2, width: size(640.0), height: size(480.0) }
    );
}

#[test]
fn a_window_is_tried_again_only_after_a_panic_under_wayland() {
    let next = run_window_with_fallback;
    for wayland in [false, true] {
        for attempt in [Attempt::First, Attempt::Retry] {
            assert_eq!(
                next(attempt, Outcome::Closed, wayland),
                WindowStep::Done(GPUI_STATUS_OK)
            );
        }
        assert_eq!(
            next(Attempt::Retry, Outcome::Panicked, wayland),
            WindowStep::Fail(GPUI_STATUS_INTERNAL_PANIC)
        );
    }
    assert_eq!(
        next(Attempt::First, Outcome::Panicked, true),
        WindowStep::RetryWithoutWayland
    );
    assert_eq!(
        next(Attempt::First, Outcome::Panicked, false),
        WindowStep::Fail(GPUI_STATUS_INTERNAL_PANIC)
    );
}

#[test]
fn panics_are_reported_with_their_context() {
    assert_eq!(attempt_context(Attempt::First, true), "gpui_run_window (Wayland attempt)");
    assert_eq!(attempt_context(Attempt::First, false), "gpui_run_window");
    assert_eq!(attempt_context(Attempt::Retry, false), "gpui_run_window (X11 retry)");
    assert_eq!(
        report_panic("gpui_build_tree", Some("boom"), Some("other")),
        "gpui-sys: panic in gpui_build_tree: boom"
    );
    assert_eq!(report_panic("f", None, Some("owned")), "gpui-sys: panic in f: owned");
    assert_eq!(
        report_panic("f", None, None),
        "gpui-sys: panic in f: non-string panic payload"
    );
}

#[test]
fn an_export_returns_its_status_or_that_of_a_panic() {
    assert_eq!(ffi_export(Some(7)), 7);
    assert_eq!(ffi_export(None), GPUI_STATUS_INTERNAL_PANIC);
}
