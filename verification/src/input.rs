//! What pressing a key and clicking send across the boundary.

use vstd::prelude::*;

use crate::abi::{
    EVENT_CLICK, EVENT_TEXT, KEY_BACKSPACE, KEY_DELETE, KEY_DOWN, KEY_END, KEY_ENTER, KEY_ESCAPE,
    KEY_HOME, KEY_LEFT, KEY_PAGEDOWN, KEY_PAGEUP, KEY_RIGHT, KEY_UP,
};
use crate::events::{
    Envelope, KeyAction, Modifiers, bits_of, code_of, event, inserted_text, is_control_char,
    named_key, pressed,
};
use crate::laws::sent;
use crate::reader::wrapped;

verus! {

/// Whether a character is one that can be typed: neither below the space nor
/// from the delete character up to the end of the second control block.
pub open spec fn typeable(c: char) -> bool {
    32 <= c as int && !(127 <= c as int <= 159)
}

/// The tab key moves the focus, backwards with shift held, and sends nothing.
/// No other key moves the focus.
pub proof fn law_tab_moves_focus(
    key: Seq<char>,
    key_char: Option<Seq<char>>,
    modifiers: Modifiers,
    view: usize,
)
    ensures
        ({
            let action = pressed(key, key_char, modifiers, view);
            let tab = seq!['t', 'a', 'b'];
            &&& key == tab && modifiers.shift <==> action is FocusPrev
            &&& key == tab && !modifiers.shift <==> action is FocusNext
            &&& key != tab <==> action is Dispatch
        }),
{
    reveal_strlit("tab");
    assert("tab"@ =~= seq!['t', 'a', 'b']);
}

/// Text that comes with a keystroke is sent as it is, whatever the key and the
/// modifiers are.
pub proof fn law_inserted_text_is_sent(
    key: Seq<char>,
    inserted: Seq<char>,
    modifiers: Modifiers,
    view: usize,
)
    requires
        key != seq!['t', 'a', 'b'],
        inserted.len() > 0,
    ensures
        pressed(key, Some(inserted), modifiers, view) matches KeyAction::Dispatch { text, .. }
            && text == Some(inserted),
{
    law_tab_moves_focus(key, Some(inserted), modifiers, view);
}

/// A keystroke that comes without text sends its key as the text exactly when
/// the key is one character that can be typed.
pub proof fn law_key_sent_as_text(
    key: Seq<char>,
    key_char: Option<Seq<char>>,
    modifiers: Modifiers,
    view: usize,
)
    requires
        key != seq!['t', 'a', 'b'],
        key_char matches Some(t) ==> t.len() == 0,
    ensures
        pressed(key, key_char, modifiers, view) matches KeyAction::Dispatch { text, .. } && {
            &&& key.len() == 1 && typeable(key[0]) ==> text == Some(key)
            &&& !(key.len() == 1 && typeable(key[0])) ==> text is None
        },
{
    law_tab_moves_focus(key, key_char, modifiers, view);
}

/// The modifiers as a number: one for control, two for alt, four for shift,
/// eight for the platform key and sixteen for the function key.
pub open spec fn modifier_sum(m: Modifiers) -> int {
    (if m.control {
        1int
    } else {
        0
    }) + (if m.alt {
        2int
    } else {
        0
    }) + (if m.shift {
        4int
    } else {
        0
    }) + (if m.platform {
        8int
    } else {
        0
    }) + (if m.function {
        16int
    } else {
        0
    })
}

/// An event of the fourth version on a view, with this kind and data.
pub open spec fn sends(e: Envelope, kind: int, view: usize, data_a: int, data_b: int) -> bool {
    &&& e.version == 4
    &&& e.kind == kind
    &&& (view <= 2147483647 ==> e.view == view)
    &&& (e.view - view) % 4294967296 == 0
    &&& e.data_a == data_a
    &&& e.data_b == data_b
}

proof fn lemma_view_slot(n: int)
    requires
        0 <= n,
    ensures
        (wrapped(n) - n) % 4294967296 == 0,
        n <= 2147483647 ==> wrapped(n) == n,
{
    let low = n % 0x1_0000_0000;
    assert((low - n) % 4294967296 == 0 && (low - 4294967296 - n) % 4294967296 == 0)
        by (nonlinear_arith)
        requires
            low == n % 4294967296,
    ;
}

/// A key that is one character, other than the zero character, is sent by its
/// code point with the modifiers, whatever the modifiers and the text are.
pub proof fn law_character_key_is_sent(
    c: char,
    key_char: Option<Seq<char>>,
    modifiers: Modifiers,
    view: usize,
)
    requires
        c as int != 0,
    ensures
        pressed(seq![c], key_char, modifiers, view) matches KeyAction::Dispatch { key, .. } && key
            matches Some(e) && sends(e, 2, view, c as int, modifier_sum(modifiers)),
{
    law_tab_moves_focus(seq![c], key_char, modifiers, view);
    assert(seq![c].len() != seq!['t', 'a', 'b'].len());
    lemma_view_slot(view as int);
}

/// Whether a key is one of the named keys but tab, and which id it has.
pub open spec fn has_id(key: Seq<char>, id: int) -> bool {
    ||| key == seq!['e', 'n', 't', 'e', 'r'] && id == KEY_ENTER
    ||| key == seq!['e', 's', 'c', 'a', 'p', 'e'] && id == KEY_ESCAPE
    ||| key == seq!['u', 'p'] && id == KEY_UP
    ||| key == seq!['d', 'o', 'w', 'n'] && id == KEY_DOWN
    ||| key == seq!['l', 'e', 'f', 't'] && id == KEY_LEFT
    ||| key == seq!['r', 'i', 'g', 'h', 't'] && id == KEY_RIGHT
    ||| key == seq!['b', 'a', 'c', 'k', 's', 'p', 'a', 'c', 'e'] && id == KEY_BACKSPACE
    ||| key == seq!['d', 'e', 'l', 'e', 't', 'e'] && id == KEY_DELETE
    ||| key == seq!['h', 'o', 'm', 'e'] && id == KEY_HOME
    ||| key == seq!['e', 'n', 'd'] && id == KEY_END
    ||| key == seq!['p', 'a', 'g', 'e', 'u', 'p'] && id == KEY_PAGEUP
    ||| key == seq!['p', 'a', 'g', 'e', 'd', 'o', 'w', 'n'] && id == KEY_PAGEDOWN
}

proof fn lemma_names()
    ensures
        "enter"@ == seq!['e', 'n', 't', 'e', 'r'],
        "escape"@ == seq!['e', 's', 'c', 'a', 'p', 'e'],
        "up"@ == seq!['u', 'p'],
        "down"@ == seq!['d', 'o', 'w', 'n'],
        "left"@ == seq!['l', 'e', 'f', 't'],
        "right"@ == seq!['r', 'i', 'g', 'h', 't'],
        "tab"@ == seq!['t', 'a', 'b'],
        "backspace"@ == seq!['b', 'a', 'c', 'k', 's', 'p', 'a', 'c', 'e'],
        "delete"@ == seq!['d', 'e', 'l', 'e', 't', 'e'],
        "home"@ == seq!['h', 'o', 'm', 'e'],
        "end"@ == seq!['e', 'n', 'd'],
        "pageup"@ == seq!['p', 'a', 'g', 'e', 'u', 'p'],
        "pagedown"@ == seq!['p', 'a', 'g', 'e', 'd', 'o', 'w', 'n'],
{
    reveal_strlit("enter");
    reveal_strlit("escape");
    reveal_strlit("up");
    reveal_strlit("down");
    reveal_strlit("left");
    reveal_strlit("right");
    reveal_strlit("tab");
    reveal_strlit("backspace");
    reveal_strlit("delete");
    reveal_strlit("home");
    reveal_strlit("end");
    reveal_strlit("pageup");
    reveal_strlit("pagedown");
}

/// Two keys are different when they differ at some character.
proof fn lemma_named_key(key: Seq<char>, id: int)
    requires
        has_id(key, id),
    ensures
        named_key(key) matches Some(n) && n == id,
        key.len() > 1,
        key != seq!['t', 'a', 'b'],
{
    lemma_names();
    let (enter, escape, up) = ("enter"@, "escape"@, "up"@);
    let (down, left, right) = ("down"@, "left"@, "right"@);
    let (backspace, delete, home) = ("backspace"@, "delete"@, "home"@);
    let (end, pageup, pagedown) = ("end"@, "pageup"@, "pagedown"@);
    assert(escape[0] == 'e' && delete[0] == 'd' && pageup[0] == 'p');
    assert(escape.len() == 6 && delete.len() == 6 && pageup.len() == 6);
    assert(enter[0] == 'e' && right[0] == 'r' && enter.len() == 5 && right.len() == 5);
    assert(down[0] == 'd' && left[0] == 'l' && home[0] == 'h');
    assert(down.len() == 4 && left.len() == 4 && home.len() == 4);
    assert(end[0] == 'e' && "tab"@[0] == 't' && end.len() == 3 && "tab"@.len() == 3);
    assert(up.len() == 2 && backspace.len() == 9 && pagedown.len() == 8);
}

/// A named key is sent by its id with the modifiers.
pub proof fn law_named_key_is_sent(
    key: Seq<char>,
    id: int,
    key_char: Option<Seq<char>>,
    modifiers: Modifiers,
    view: usize,
)
    requires
        has_id(key, id),
    ensures
        pressed(key, key_char, modifiers, view) matches KeyAction::Dispatch { key: sent, .. }
            && sent matches Some(e) && sends(e, 4, view, id, modifier_sum(modifiers)),
{
    lemma_named_key(key, id);
    law_tab_moves_focus(key, key_char, modifiers, view);
    lemma_view_slot(view as int);
}

/// A key that is neither one character nor named is not sent; text may still be.
pub proof fn law_unknown_key_is_not_sent(
    key: Seq<char>,
    key_char: Option<Seq<char>>,
    modifiers: Modifiers,
    view: usize,
)
    requires
        key != seq!['t', 'a', 'b'],
        key.len() == 1 ==> key[0] as int == 0,
        forall|id: int| !has_id(key, id),
    ensures
        pressed(key, key_char, modifiers, view) matches KeyAction::Dispatch { key: sent, .. }
            && sent is None,
{
    law_tab_moves_focus(key, key_char, modifiers, view);
    lemma_names();
    assert(!has_id(key, KEY_ENTER as int) && !has_id(key, KEY_ESCAPE as int));
    assert(!has_id(key, KEY_UP as int) && !has_id(key, KEY_DOWN as int));
    assert(!has_id(key, KEY_LEFT as int) && !has_id(key, KEY_RIGHT as int));
    assert(!has_id(key, KEY_BACKSPACE as int) && !has_id(key, KEY_DELETE as int));
    assert(!has_id(key, KEY_HOME as int) && !has_id(key, KEY_END as int));
    assert(!has_id(key, KEY_PAGEUP as int) && !has_id(key, KEY_PAGEDOWN as int));
}

/// A click is sent with the id it is routed to and nothing else; a text is sent
/// with its token and its length.
pub proof fn law_click_and_text_events(view: usize, data_a: i32, data_b: i32)
    ensures
        sends(event(EVENT_CLICK, view, data_a, 0), 1, view, data_a as int, 0),
        sends(event(EVENT_TEXT, view, data_a, data_b), 3, view, data_a as int, data_b as int),
{
    lemma_view_slot(view as int);
}

/// The action that contracts speak of is the one that is taken.
pub proof fn law_action_faithful(action: KeyAction<String>)
    ensures
        match action {
            KeyAction::FocusNext => action.chars() is FocusNext,
            KeyAction::FocusPrev => action.chars() is FocusPrev,
            KeyAction::Dispatch { key, text } => {
                &&& action.chars() matches KeyAction::Dispatch { key: k, text: t }
                &&& k == key
                &&& match text {
                    Some(s) => t == Some(s@),
                    None => t is None,
                }
            },
        },
{
}

proof fn lemma_code_point(c: char)
    ensures
        c as i32 == c as int,
{
}

/// The code point, the id and the text of a keystroke on their own are those
/// that are sent.
pub proof fn law_key_parts(key: Seq<char>, key_char: Option<Seq<char>>)
    ensures
        key.len() == 1 ==> code_of(key) == key[0] as int,
        key.len() != 1 ==> code_of(key) == 0,
        forall|id: int| #[trigger] has_id(key, id) ==> (named_key(key) matches Some(n) && n == id),
        key == seq!['t', 'a', 'b'] ==> named_key(key) == Some(7i32),
        key != seq!['t', 'a', 'b'] && (forall|id: int| !has_id(key, id)) ==> named_key(key) is None,
        key_char matches Some(t) && t.len() > 0 ==> inserted_text(key, key_char) == key_char,
        !(key_char matches Some(t) && t.len() > 0) && key.len() == 1 && typeable(key[0])
            ==> inserted_text(key, key_char) == Some(key),
        !(key_char matches Some(t) && t.len() > 0) && !(key.len() == 1 && typeable(key[0]))
            ==> inserted_text(key, key_char) is None,
{
    lemma_names();
    if key.len() == 1 {
        lemma_code_point(key[0]);
    }
    assert forall|id: int| #[trigger] has_id(key, id) implies (named_key(key) matches Some(n) && n
        == id) by {
        lemma_named_key(key, id);
    }
    if key != seq!['t', 'a', 'b'] && (forall|id: int| !has_id(key, id)) {
        assert(!has_id(key, KEY_ENTER as int) && !has_id(key, KEY_ESCAPE as int));
        assert(!has_id(key, KEY_UP as int) && !has_id(key, KEY_DOWN as int));
        assert(!has_id(key, KEY_LEFT as int) && !has_id(key, KEY_RIGHT as int));
        assert(!has_id(key, KEY_BACKSPACE as int) && !has_id(key, KEY_DELETE as int));
        assert(!has_id(key, KEY_HOME as int) && !has_id(key, KEY_END as int));
        assert(!has_id(key, KEY_PAGEUP as int) && !has_id(key, KEY_PAGEDOWN as int));
    }
    if key == seq!['t', 'a', 'b'] {
        assert("tab"@[0] == 't' && "end"@[0] == 'e');
        assert("tab"@.len() == 3 && "enter"@.len() == 5 && "escape"@.len() == 6);
        assert("up"@.len() == 2 && "down"@.len() == 4 && "left"@.len() == 4);
        assert("right"@.len() == 5);
    }
}

/// The modifiers are sent as their sum, and whether a character is a control
/// character is whether it cannot be typed.
pub proof fn law_modifiers_and_controls(modifiers: Modifiers, c: char)
    ensures
        bits_of(modifiers) == modifier_sum(modifiers),
        is_control_char(c) <==> !typeable(c),
{
}

} // verus!
