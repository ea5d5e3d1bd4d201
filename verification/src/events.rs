//! What the keyboard and the mouse turn into: event envelopes, the queue of
//! text payloads, and moves of the focus.

use vstd::prelude::*;
use vstd::string::*;
use vstd::utf8::*;

use crate::abi::{
    ABI_VERSION, EVENT_CLICK, EVENT_KEY, EVENT_NAMED_KEY, EVENT_TEXT, GPUI_STATUS_INVALID_HANDLE,
    KEY_BACKSPACE, KEY_DELETE, KEY_DOWN, KEY_END, KEY_ENTER, KEY_ESCAPE, KEY_HOME, KEY_LEFT,
    KEY_PAGEDOWN, KEY_PAGEUP, KEY_RIGHT, KEY_TAB, KEY_UP, MOD_ALT, MOD_CTRL, MOD_FUNCTION,
    MOD_PLATFORM, MOD_SHIFT,
};
use crate::node::chars_of;
use crate::reader::{wrap_i32, wrapped};
use crate::text::{append_bytes, copied, copied_len, copy_out, str_eq};

verus! {

/// An event as it crosses the boundary. What `data_a` and `data_b` hold depends
/// on the kind: a click id and zero, a code point and modifier bits, a key id
/// and modifier bits, or a token and a byte length.
#[derive(Clone, Copy, Debug, PartialEq, Eq, Structural)]
pub struct Envelope {
    pub version: i32,
    pub kind: i32,
    pub view: i32,
    pub data_a: i32,
    pub data_b: i32,
}

/// The modifier keys held down.
#[derive(Clone, Copy, Debug, PartialEq, Eq, Structural)]
pub struct Modifiers {
    pub control: bool,
    pub alt: bool,
    pub shift: bool,
    pub platform: bool,
    pub function: bool,
}

/// A key pressed: its name, the text it would insert, and the modifiers.
#[derive(Debug)]
pub struct Keystroke {
    pub key: String,
    pub key_char: Option<String>,
    pub modifiers: Modifiers,
}

/// What pressing a key leads to.
#[derive(Debug)]
pub enum KeyAction<S> {
    /// The focus moves to the next tab stop.
    FocusNext,
    /// The focus moves to the previous tab stop.
    FocusPrev,
    /// The key is dispatched if it has an id, then the text if there is one.
    Dispatch { key: Option<Envelope>, text: Option<S> },
}

impl KeyAction<String> {
    /// The action with its text taken by its characters.
    pub open spec fn chars(self) -> KeyAction<Seq<char>> {
        match self {
            KeyAction::FocusNext => KeyAction::FocusNext,
            KeyAction::FocusPrev => KeyAction::FocusPrev,
            KeyAction::Dispatch { key, text } => KeyAction::Dispatch { key, text: chars_of(text) },
        }
    }
}

/// The code point of a key that is one character; zero for every other key.
pub open spec fn code_of(key: Seq<char>) -> i32 {
    if key.len() == 1 {
        key[0] as i32
    } else {
        0
    }
}

/// The id of a key that has a name.
pub open spec fn named_key(key: Seq<char>) -> Option<i32> {
    if key == "enter"@ {
        Some(KEY_ENTER)
    } else if key == "escape"@ {
        Some(KEY_ESCAPE)
    } else if key == "up"@ {
        Some(KEY_UP)
    } else if key == "down"@ {
        Some(KEY_DOWN)
    } else if key == "left"@ {
        Some(KEY_LEFT)
    } else if key == "right"@ {
        Some(KEY_RIGHT)
    } else if key == "tab"@ {
        Some(KEY_TAB)
    } else if key == "backspace"@ {
        Some(KEY_BACKSPACE)
    } else if key == "delete"@ {
        Some(KEY_DELETE)
    } else if key == "home"@ {
        Some(KEY_HOME)
    } else if key == "end"@ {
        Some(KEY_END)
    } else if key == "pageup"@ {
        Some(KEY_PAGEUP)
    } else if key == "pagedown"@ {
        Some(KEY_PAGEDOWN)
    } else {
        None
    }
}

/// Whether a character is a control character: the general category Cc.
pub open spec fn is_control_char(c: char) -> bool {
    c as int <= 0x1F || 0x7F <= c as int <= 0x9F
}

/// The text a keystroke inserts: the text that came with it, or else the key
/// itself if it is one character that can be seen.
pub open spec fn inserted_text(key: Seq<char>, key_char: Option<Seq<char>>) -> Option<Seq<char>> {
    match key_char {
        Some(text) if text.len() > 0 => Some(text),
        _ => if key.len() == 1 && !is_control_char(key[0]) {
            Some(key)
        } else {
            None
        },
    }
}

/// One bit per modifier.
pub open spec fn bits_of(m: Modifiers) -> i32 {
    ((if m.control {
        MOD_CTRL
    } else {
        0
    }) + (if m.alt {
        MOD_ALT
    } else {
        0
    }) + (if m.shift {
        MOD_SHIFT
    } else {
        0
    }) + (if m.platform {
        MOD_PLATFORM
    } else {
        0
    }) + (if m.function {
        MOD_FUNCTION
    } else {
        0
    })) as i32
}

/// An event of this version of the boundary.
pub open spec fn event(kind: i32, view: usize, data_a: i32, data_b: i32) -> Envelope {
    Envelope { version: ABI_VERSION, kind, view: wrapped(view as int), data_a, data_b }
}

/// What pressing a key in a view leads to. The tab key moves the focus and
/// nothing else.
pub open spec fn pressed(
    key: Seq<char>,
    key_char: Option<Seq<char>>,
    modifiers: Modifiers,
    view: usize,
) -> KeyAction<Seq<char>> {
    if key == "tab"@ {
        if modifiers.shift {
            KeyAction::FocusPrev
        } else {
            KeyAction::FocusNext
        }
    } else {
        KeyAction::Dispatch {
            key: if code_of(key) != 0 {
                Some(event(EVENT_KEY, view, code_of(key), bits_of(modifiers)))
            } else {
                match named_key(key) {
                    Some(id) => Some(event(EVENT_NAMED_KEY, view, id, bits_of(modifiers))),
                    None => None,
                }
            },
            text: inserted_text(key, key_char),
        }
    }
}

/// The code point of a key that is one character; zero for every other key.
pub fn key_code(keystroke: &Keystroke) -> (code: i32)
    ensures
        code == code_of(keystroke.key@),
{
    let key = keystroke.key.as_str();
    if key.unicode_len() == 1 {
        key.get_char(0) as i32
    } else {
        0
    }
}

/// The id of a key that has a name.
pub fn named_key_id(key: &str) -> (id: Option<i32>)
    ensures
        id == named_key(key@),
{
    if str_eq(key, "enter") {
        Some(KEY_ENTER)
    } else if str_eq(key, "escape") {
        Some(KEY_ESCAPE)
    } else if str_eq(key, "up") {
        Some(KEY_UP)
    } else if str_eq(key, "down") {
        Some(KEY_DOWN)
    } else if str_eq(key, "left") {
        Some(KEY_LEFT)
    } else if str_eq(key, "right") {
        Some(KEY_RIGHT)
    } else if str_eq(key, "tab") {
        Some(KEY_TAB)
    } else if str_eq(key, "backspace") {
        Some(KEY_BACKSPACE)
    } else if str_eq(key, "delete") {
        Some(KEY_DELETE)
    } else if str_eq(key, "home") {
        Some(KEY_HOME)
    } else if str_eq(key, "end") {
        Some(KEY_END)
    } else if str_eq(key, "pageup") {
        Some(KEY_PAGEUP)
    } else if str_eq(key, "pagedown") {
        Some(KEY_PAGEDOWN)
    } else {
        None
    }
}

/// Whether a character is a control character.
pub fn is_control(c: char) -> (control: bool)
    ensures
        control == is_control_char(c),
{
    let code = c as u32;
    code <= 0x1F || (0x7F <= code && code <= 0x9F)
}

/// The text a keystroke inserts, if it inserts any.
pub fn typed_text(keystroke: &Keystroke) -> (text: Option<String>)
    ensures
        chars_of(text) == inserted_text(keystroke.key@, chars_of(keystroke.key_char)),
{
    if let Some(text) = &keystroke.key_char {
        if text.as_str().unicode_len() > 0 {
            return Some(text.clone());
        }
    }
    let key = keystroke.key.as_str();
    if key.unicode_len() == 1 && !is_control(key.get_char(0)) {
        Some(keystroke.key.clone())
    } else {
        None
    }
}

/// Packs the modifiers, one bit each.
pub fn mods_bits(m: &Modifiers) -> (bits: i32)
    ensures
        bits == bits_of(*m),
{
    let mut bits: i32 = 0;
    if m.control {
        bits += MOD_CTRL;
    }
    if m.alt {
        bits += MOD_ALT;
    }
    if m.shift {
        bits += MOD_SHIFT;
    }
    if m.platform {
        bits += MOD_PLATFORM;
    }
    if m.function {
        bits += MOD_FUNCTION;
    }
    bits
}

/// Calls `notify` when a dispatch came back with exactly one, which says that
/// the tree has changed, and not otherwise.
pub fn notify_if_changed<F: FnOnce()>(changed: i32, notify: F)
    requires
        changed == 1 ==> call_requires(notify, ()),
    ensures
        changed == 1 ==> call_ensures(notify, (), ()),
{
    if changed == 1 {
        notify();
    }
}

/// An event of this version of the boundary.
fn envelope(kind: i32, view: usize, data_a: i32, data_b: i32) -> (e: Envelope)
    ensures
        e == event(kind, view, data_a, data_b),
{
    Envelope { version: ABI_VERSION, kind, view: wrap_i32(view), data_a, data_b }
}

/// What pressing a key in a view leads to.
pub fn key_down(keystroke: &Keystroke, view: usize) -> (action: KeyAction<String>)
    ensures
        action.chars() == pressed(
            keystroke.key@,
            chars_of(keystroke.key_char),
            keystroke.modifiers,
            view,
        ),
{
    if str_eq(keystroke.key.as_str(), "tab") {
        return if keystroke.modifiers.shift {
            KeyAction::FocusPrev
        } else {
            KeyAction::FocusNext
        };
    }
    let code = key_code(keystroke);
    let mods = mods_bits(&keystroke.modifiers);
    let key = if code != 0 {
        Some(envelope(EVENT_KEY, view, code, mods))
    } else {
        match named_key_id(keystroke.key.as_str()) {
            Some(id) => Some(envelope(EVENT_NAMED_KEY, view, id, mods)),
            None => None,
        }
    };
    KeyAction::Dispatch { key, text: typed_text(keystroke) }
}

/// The event of a click on a div that routes its clicks to `click_id`.
pub fn click_event(view: usize, click_id: i32) -> (e: Envelope)
    ensures
        e == event(EVENT_CLICK, view, click_id, 0),
{
    envelope(EVENT_CLICK, view, click_id, 0)
}

/// The payloads of text events. A token is an index into the queue.
pub struct EventQueue {
    payloads: Vec<Vec<u8>>,
}

impl View for EventQueue {
    type V = Seq<Seq<u8>>;

    /// The payloads in the order in which they were queued.
    closed spec fn view(&self) -> Seq<Seq<u8>> {
        self.payloads@.map_values(|p: Vec<u8>| p@)
    }
}

impl EventQueue {
    /// No payload queued.
    pub fn new() -> (queue: Self)
        ensures
            queue@ == Seq::<Seq<u8>>::empty(),
    {
        let queue = EventQueue { payloads: Vec::new() };
        assert(queue@ =~= Seq::empty());
        queue
    }

    /// Queues the UTF-8 bytes of a text and gives the event that carries their
    /// token and their number.
    pub fn text_event(&mut self, view: usize, text: &str) -> (e: Envelope)
        ensures
            final(self)@ == old(self)@.push(encode_utf8(text@)),
            e == event(
                EVENT_TEXT,
                view,
                wrapped(old(self)@.len() as int),
                wrapped(encode_utf8(text@).len() as int),
            ),
    {
        let bytes = text.as_bytes();
        let mut payload: Vec<u8> = Vec::new();
        append_bytes(&mut payload, bytes);
        assert(payload@ =~= encode_utf8(text@));
        let token = wrap_i32(self.payloads.len());
        self.payloads.push(payload);
        assert(self@ =~= old(self)@.push(encode_utf8(text@)));
        envelope(EVENT_TEXT, view, token, wrap_i32(bytes.len()))
    }
}

/// Copies as much of the payload under a token as fits into `len` bytes to
/// `buf`, and gives the number of bytes copied.
pub fn gpui_event_copy_text(
    queue: &EventQueue,
    token: i32,
    buf: Option<&mut [u8]>,
    len: i32,
) -> (n: i32)
    requires
        buf matches Some(b) ==> len <= b@.len(),
    ensures
        if token < 0 || buf is None || len < 0 || token >= queue@.len() {
            n == GPUI_STATUS_INVALID_HANDLE && (buf matches Some(b) ==> final(b)@ == b@)
        } else {
            &&& n == copied_len(queue@[token as int], len as int)
            &&& buf matches Some(b) ==> final(b)@ == copied(queue@[token as int], b@, len as int)
        },
{
    if token < 0 || len < 0 {
        return GPUI_STATUS_INVALID_HANDLE;
    }
    match buf {
        None => GPUI_STATUS_INVALID_HANDLE,
        Some(b) => {
            let index = token as usize;
            if index >= queue.payloads.len() {
                return GPUI_STATUS_INVALID_HANDLE;
            }
            copy_out(queue.payloads[index].as_slice(), b, len as usize) as i32
        },
    }
}

/// The payload of a text event reads back whole: the token of the event leads
/// to the bytes of the text, and a buffer of the announced length takes them
/// all. Payloads that are queued later do not disturb it.
pub proof fn law_text_event_reads_back(
    before: Seq<Seq<u8>>,
    text: Seq<char>,
    later: Seq<Seq<u8>>,
    buf: Seq<u8>,
)
    requires
        before.len() <= i32::MAX,
        encode_utf8(text).len() <= i32::MAX,
        buf.len() == encode_utf8(text).len(),
    ensures
        ({
            let payload = encode_utf8(text);
            let queue = before.push(payload) + later;
            let token = wrapped(before.len() as int);
            let len = wrapped(payload.len() as int);
            &&& 0 <= token < queue.len()
            &&& len >= 0
            &&& copied_len(queue[token as int], len as int) == len
            &&& copied(queue[token as int], buf, len as int) == payload
        }),
{
    let payload = encode_utf8(text);
    let queue = before.push(payload) + later;
    assert(queue[before.len() as int] == payload);
    assert(copied(payload, buf, payload.len() as int) =~= payload);
}

/// No two sets of modifiers have the same bits.
pub proof fn law_mods_bits_distinct(a: Modifiers, b: Modifiers)
    ensures
        bits_of(a) == bits_of(b) ==> a == b,
{
}

/// A key is never dispatched both by its code point and by its name, and the tab
/// key is not dispatched at all.
pub proof fn law_key_dispatched_once(
    key: Seq<char>,
    key_char: Option<Seq<char>>,
    modifiers: Modifiers,
    view: usize,
)
    ensures
        code_of(key) != 0 ==> named_key(key) is None,
        key == "tab"@ ==> pressed(key, key_char, modifiers, view) !is Dispatch,
{
    reveal_strlit("enter");
    reveal_strlit("escape");
    reveal_strlit("up");
    reveal_strlit("down");
    reveal_strlit("left");
    reveal_strlit("right");
    reveal_strlit("tab");
    reveal_strlit("backspace");
    reveal_strlit("delete");
    reveal_strlit("home");
    reveal_strlit("end");
    reveal_strlit("pageup");
    reveal_strlit("pagedown");
}

} // verus!
