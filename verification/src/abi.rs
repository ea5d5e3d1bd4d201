//! The numbers both sides of the C boundary agree on: status codes, command
//! opcodes, style ids, key ids and the event envelope.

use vstd::prelude::*;

verus! {

/// Version of the event envelope; it travels in the first slot of every event.
pub const ABI_VERSION: i32 = 4;

/// Version of the command buffer layout; it follows the magic in the header.
pub const BUFFER_VERSION: i32 = 1;

/// Operation completed successfully.
pub const GPUI_STATUS_OK: i32 = 0;

/// A handle was negative, out of range, duplicated, or could not be allocated.
pub const GPUI_STATUS_INVALID_HANDLE: i32 = -1;

/// The handle refers to the wrong kind of node for the requested operation.
pub const GPUI_STATUS_WRONG_NODE_KIND: i32 = -2;

/// The node was already moved into another node.
pub const GPUI_STATUS_NODE_ABSENT: i32 = -3;

/// An internal panic was caught before it could cross the C boundary.
pub const GPUI_STATUS_INTERNAL_PANIC: i32 = -4;

/// The command buffer header magic or version did not match.
pub const GPUI_STATUS_BAD_BUFFER_VERSION: i32 = -5;

/// The command buffer ended mid-field, or carried a truncated or oversized payload.
pub const GPUI_STATUS_TRUNCATED_BUFFER: i32 = -6;

/// The command buffer named an opcode that is not known.
pub const GPUI_STATUS_UNKNOWN_OPCODE: i32 = -7;

/// The command buffer ended without designating a root.
pub const GPUI_STATUS_NO_ROOT: i32 = -8;

/// Two or more nodes in the committed tree carry the same explicit key.
pub const GPUI_STATUS_DUPLICATE_KEY: i32 = -9;

/// No keyed text node matches in the committed tree of the view, or the view
/// has no tree. Callers fall back to a full rebuild.
pub const GPUI_STATUS_KEY_NOT_FOUND: i32 = -10;

// Event kinds, the second slot of the envelope.
pub const EVENT_CLICK: i32 = 1;

pub const EVENT_KEY: i32 = 2;

pub const EVENT_TEXT: i32 = 3;

pub const EVENT_NAMED_KEY: i32 = 4;

// Modifier bits.
pub const MOD_CTRL: i32 = 1;

pub const MOD_ALT: i32 = 2;

pub const MOD_SHIFT: i32 = 4;

pub const MOD_PLATFORM: i32 = 8;

pub const MOD_FUNCTION: i32 = 16;

// Ids of named keys.
pub const KEY_ENTER: i32 = 1;

pub const KEY_ESCAPE: i32 = 2;

pub const KEY_UP: i32 = 3;

pub const KEY_DOWN: i32 = 4;

pub const KEY_LEFT: i32 = 5;

pub const KEY_RIGHT: i32 = 6;

pub const KEY_TAB: i32 = 7;

pub const KEY_BACKSPACE: i32 = 8;

pub const KEY_DELETE: i32 = 9;

pub const KEY_HOME: i32 = 10;

pub const KEY_END: i32 = 11;

pub const KEY_PAGEUP: i32 = 12;

pub const KEY_PAGEDOWN: i32 = 13;

// Command opcodes.
pub const OP_DIV: i32 = 1;

pub const OP_TEXT: i32 = 2;

pub const OP_SET_SIZE: i32 = 3;

pub const OP_SET_BG: i32 = 4;

pub const OP_SET_FLEX: i32 = 5;

pub const OP_SET_CENTER: i32 = 6;

pub const OP_SET_GAP: i32 = 7;

pub const OP_SET_ROUNDED: i32 = 8;

pub const OP_SET_ON_CLICK: i32 = 9;

pub const OP_SET_KEY: i32 = 10;

pub const OP_ADD_CHILD: i32 = 11;

pub const OP_SET_ROOT: i32 = 12;

pub const OP_SET_PADDING: i32 = 13;

pub const OP_SET_BORDER: i32 = 14;

pub const OP_SET_BG_COLOR: i32 = 15;

pub const OP_SET_MARGIN: i32 = 16;

pub const OP_SET_MIN_SIZE: i32 = 17;

pub const OP_SET_MAX_SIZE: i32 = 18;

pub const OP_SET_FLEX_ITEM: i32 = 19;

pub const OP_SET_ALIGN: i32 = 20;

pub const OP_SET_OVERFLOW: i32 = 21;

pub const OP_SET_OPACITY: i32 = 22;

pub const OP_SET_SHADOW: i32 = 23;

pub const OP_SET_CURSOR: i32 = 24;

pub const OP_SET_POSITION: i32 = 25;

pub const OP_SET_INSET: i32 = 26;

pub const OP_SET_PADDING_SIDES: i32 = 27;

pub const OP_SET_TEXT_SIZE: i32 = 28;

pub const OP_SET_TEXT_COLOR: i32 = 29;

pub const OP_SET_FONT_WEIGHT: i32 = 30;

pub const OP_SET_LINE_HEIGHT: i32 = 31;

pub const OP_SET_TEXT_ALIGN: i32 = 32;

pub const OP_SET_WHITESPACE: i32 = 33;

pub const OP_SET_FONT_FAMILY: i32 = 34;

pub const OP_SET_FOCUSABLE: i32 = 35;

pub const OP_SET_TAB_INDEX: i32 = 36;

pub const OP_SET_TAB_STOP: i32 = 37;

// Cross-axis alignment ids.
pub const ALIGN_DEFAULT: i32 = 0;

pub const ALIGN_START: i32 = 1;

pub const ALIGN_CENTER: i32 = 2;

pub const ALIGN_END: i32 = 3;

pub const ALIGN_STRETCH: i32 = 4;

// Main-axis distribution ids.
pub const JUSTIFY_DEFAULT: i32 = 0;

pub const JUSTIFY_START: i32 = 1;

pub const JUSTIFY_CENTER: i32 = 2;

pub const JUSTIFY_END: i32 = 3;

pub const JUSTIFY_SPACE_BETWEEN: i32 = 4;

pub const JUSTIFY_SPACE_AROUND: i32 = 5;

// Overflow ids.
pub const OVERFLOW_VISIBLE: i32 = 0;

pub const OVERFLOW_HIDDEN: i32 = 1;

pub const OVERFLOW_SCROLL: i32 = 2;

// Cursor ids.
pub const CURSOR_ARROW: i32 = 0;

pub const CURSOR_POINTER: i32 = 1;

pub const CURSOR_TEXT: i32 = 2;

pub const CURSOR_CROSSHAIR: i32 = 3;

pub const CURSOR_GRAB: i32 = 4;

pub const CURSOR_GRABBING: i32 = 5;

pub const CURSOR_NOT_ALLOWED: i32 = 6;

pub const CURSOR_EW_RESIZE: i32 = 7;

pub const CURSOR_NS_RESIZE: i32 = 8;

pub const CURSOR_COL_RESIZE: i32 = 9;

pub const CURSOR_ROW_RESIZE: i32 = 10;

pub const CURSOR_NONE: i32 = 11;

// Position ids.
pub const POSITION_RELATIVE: i32 = 0;

pub const POSITION_ABSOLUTE: i32 = 1;

// Text alignment ids.
pub const TEXT_ALIGN_DEFAULT: i32 = 0;

pub const TEXT_ALIGN_LEFT: i32 = 1;

pub const TEXT_ALIGN_CENTER: i32 = 2;

pub const TEXT_ALIGN_RIGHT: i32 = 3;

pub const TEXT_ALIGN_JUSTIFY: i32 = 4;

// Whitespace ids.
pub const WHITESPACE_DEFAULT: i32 = 0;

pub const WHITESPACE_NORMAL: i32 = 1;

pub const WHITESPACE_NOWRAP: i32 = 2;

pub const WHITESPACE_PRE: i32 = 3;

pub const WHITESPACE_PRE_WRAP: i32 = 4;

} // verus!
