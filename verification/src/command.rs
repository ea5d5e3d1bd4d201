//! The wire layout of commands: one opcode byte, then the operands.

use vstd::prelude::*;

use crate::abi::{
    GPUI_STATUS_TRUNCATED_BUFFER, GPUI_STATUS_UNKNOWN_OPCODE, OP_ADD_CHILD, OP_DIV, OP_SET_ALIGN,
    OP_SET_BG, OP_SET_BG_COLOR, OP_SET_BORDER, OP_SET_CENTER, OP_SET_CURSOR, OP_SET_FLEX,
    OP_SET_FLEX_ITEM, OP_SET_FOCUSABLE, OP_SET_FONT_FAMILY, OP_SET_FONT_WEIGHT, OP_SET_GAP,
    OP_SET_INSET, OP_SET_KEY, OP_SET_LINE_HEIGHT, OP_SET_MARGIN, OP_SET_MAX_SIZE, OP_SET_MIN_SIZE,
    OP_SET_ON_CLICK, OP_SET_OPACITY, OP_SET_OVERFLOW, OP_SET_PADDING, OP_SET_PADDING_SIDES,
    OP_SET_POSITION, OP_SET_ROOT, OP_SET_ROUNDED, OP_SET_SHADOW, OP_SET_SIZE, OP_SET_TAB_INDEX,
    OP_SET_TAB_STOP, OP_SET_TEXT_ALIGN, OP_SET_TEXT_COLOR, OP_SET_TEXT_SIZE, OP_SET_WHITESPACE,
    OP_TEXT,
};
use crate::node::{Command, Setter, Shadow};
use crate::reader::{BufferReader, f32_at, i32_at, pair_at, rgb_at, rgba_at, sides_at, text_at};

verus! {

/// What stands at a position of a buffer.
pub enum Parsed {
    /// The end of the buffer.
    End,
    /// No command; the status says why.
    Fail(i32),
    /// A command, and the position after it.
    Cmd(Command<Seq<char>>, int),
}

/// Whether an opcode names a setter.
pub open spec fn is_setter_op(op: i32) -> bool {
    OP_SET_SIZE <= op <= OP_SET_KEY || OP_SET_PADDING <= op <= OP_SET_TAB_STOP
}

/// A setter whose operands are the `n` bytes from `pos` on.
pub open spec fn fixed(data: Seq<u8>, pos: int, n: int, setter: Setter<Seq<char>>) -> Option<
    (Setter<Seq<char>>, int),
> {
    if pos + n <= data.len() {
        Some((setter, pos + n))
    } else {
        None
    }
}

/// The setter that `op` names with its operands from `pos` on, and the
/// position after them; `None` when the buffer ends before they do.
pub open spec fn setter_at(op: i32, data: Seq<u8>, pos: int) -> Option<(Setter<Seq<char>>, int)> {
    if op == OP_SET_SIZE {
        fixed(data, pos, 8, Setter::Size(f32_at(data, pos), f32_at(data, pos + 4)))
    } else if op == OP_SET_BG {
        fixed(data, pos, 3, Setter::Bg(rgb_at(data, pos)))
    } else if op == OP_SET_FLEX {
        fixed(data, pos, 1, Setter::Flex(data[pos]))
    } else if op == OP_SET_CENTER {
        fixed(data, pos, 0, Setter::Center)
    } else if op == OP_SET_GAP {
        fixed(data, pos, 4, Setter::Gap(f32_at(data, pos)))
    } else if op == OP_SET_ROUNDED {
        fixed(data, pos, 4, Setter::Rounded(f32_at(data, pos)))
    } else if op == OP_SET_ON_CLICK {
        fixed(data, pos, 4, Setter::OnClick(i32_at(data, pos)))
    } else if op == OP_SET_KEY {
        match text_at(data, pos) {
            Some((text, end)) => Some((Setter::Key(text), end)),
            None => None,
        }
    } else if op == OP_SET_PADDING {
        fixed(data, pos, 4, Setter::Padding(f32_at(data, pos)))
    } else if op == OP_SET_BORDER {
        fixed(data, pos, 7, Setter::Border(f32_at(data, pos), rgb_at(data, pos + 4)))
    } else if op == OP_SET_BG_COLOR {
        fixed(data, pos, 4, Setter::BgColor(rgba_at(data, pos)))
    } else if op == OP_SET_MARGIN {
        fixed(data, pos, 16, Setter::Margin(sides_at(data, pos)))
    } else if op == OP_SET_MIN_SIZE {
        fixed(data, pos, 8, Setter::MinSize(pair_at(data, pos)))
    } else if op == OP_SET_MAX_SIZE {
        fixed(data, pos, 8, Setter::MaxSize(pair_at(data, pos)))
    } else if op == OP_SET_FLEX_ITEM {
        fixed(
            data,
            pos,
            12,
            Setter::FlexItem(i32_at(data, pos), i32_at(data, pos + 4), i32_at(data, pos + 8)),
        )
    } else if op == OP_SET_ALIGN {
        fixed(data, pos, 8, Setter::Align(pair_at(data, pos)))
    } else if op == OP_SET_OVERFLOW {
        fixed(data, pos, 8, Setter::Overflow(pair_at(data, pos)))
    } else if op == OP_SET_OPACITY {
        fixed(data, pos, 4, Setter::Opacity(i32_at(data, pos)))
    } else if op == OP_SET_SHADOW {
        let shadow = Shadow {
            x: i32_at(data, pos),
            y: i32_at(data, pos + 4),
            blur: i32_at(data, pos + 8),
            spread: i32_at(data, pos + 12),
            color: rgba_at(data, pos + 16),
        };
        fixed(data, pos, 20, Setter::Shadow(shadow))
    } else if op == OP_SET_CURSOR {
        fixed(data, pos, 4, Setter::Cursor(i32_at(data, pos)))
    } else if op == OP_SET_POSITION {
        fixed(data, pos, 4, Setter::Position(i32_at(data, pos)))
    } else if op == OP_SET_INSET {
        fixed(data, pos, 16, Setter::Inset(sides_at(data, pos)))
    } else if op == OP_SET_PADDING_SIDES {
        fixed(data, pos, 16, Setter::PaddingSides(sides_at(data, pos)))
    } else if op == OP_SET_TEXT_SIZE {
        fixed(data, pos, 4, Setter::TextSize(i32_at(data, pos)))
    } else if op == OP_SET_TEXT_COLOR {
        fixed(data, pos, 4, Setter::TextColor(rgba_at(data, pos)))
    } else if op == OP_SET_FONT_WEIGHT {
        fixed(data, pos, 4, Setter::FontWeight(i32_at(data, pos)))
    } else if op == OP_SET_LINE_HEIGHT {
        fixed(data, pos, 4, Setter::LineHeight(i32_at(data, pos)))
    } else if op == OP_SET_TEXT_ALIGN {
        fixed(data, pos, 4, Setter::TextAlign(i32_at(data, pos)))
    } else if op == OP_SET_WHITESPACE {
        fixed(data, pos, 4, Setter::Whitespace(i32_at(data, pos)))
    } else if op == OP_SET_FONT_FAMILY {
        match text_at(data, pos) {
            Some((text, end)) => Some((Setter::FontFamily(text), end)),
            None => None,
        }
    } else if op == OP_SET_FOCUSABLE {
        fixed(data, pos, 4, Setter::Focusable(i32_at(data, pos)))
    } else if op == OP_SET_TAB_INDEX {
        fixed(data, pos, 4, Setter::TabIndex(i32_at(data, pos)))
    } else if op == OP_SET_TAB_STOP {
        fixed(data, pos, 4, Setter::TabStop(i32_at(data, pos)))
    } else {
        None
    }
}

/// The text command with its operands from `pos` on, and the position after
/// them; `None` when the buffer ends before they do.
pub open spec fn text_command_at(data: Seq<u8>, pos: int) -> Option<(Command<Seq<char>>, int)> {
    match text_at(data, pos) {
        Some((content, p)) => if p + 7 <= data.len() {
            Some(
                (
                    Command::Text { content, color: rgb_at(data, p), size: f32_at(data, p + 3) },
                    p + 7,
                ),
            )
        } else {
            None
        },
        None => None,
    }
}

/// The command at `pos`.
pub open spec fn parse_at(data: Seq<u8>, pos: int) -> Parsed {
    if pos >= data.len() {
        Parsed::End
    } else {
        let op = data[pos] as i32;
        if op == OP_DIV {
            Parsed::Cmd(Command::Div, pos + 1)
        } else if op == OP_TEXT {
            match text_command_at(data, pos + 1) {
                Some((command, end)) => Parsed::Cmd(command, end),
                None => Parsed::Fail(GPUI_STATUS_TRUNCATED_BUFFER),
            }
        } else if op == OP_ADD_CHILD {
            Parsed::Cmd(Command::AddChild, pos + 1)
        } else if op == OP_SET_ROOT {
            Parsed::Cmd(Command::SetRoot, pos + 1)
        } else if is_setter_op(op) {
            match setter_at(op, data, pos + 1) {
                Some((setter, end)) => Parsed::Cmd(Command::Apply(setter), end),
                None => Parsed::Fail(GPUI_STATUS_TRUNCATED_BUFFER),
            }
        } else {
            Parsed::Fail(GPUI_STATUS_UNKNOWN_OPCODE)
        }
    }
}

/// A command takes at least its opcode byte and ends inside the buffer.
pub proof fn lemma_parse_advances(data: Seq<u8>, pos: int)
    ensures
        parse_at(data, pos) matches Parsed::Cmd(_, end) ==> pos < end <= data.len(),
{
}

/// Reads the operands of a setter.
fn read_setter(reader: &mut BufferReader, op: i32) -> (setter: Option<Setter<String>>)
    requires
        old(reader).wf(),
        is_setter_op(op),
    ensures
        final(reader).wf(),
        final(reader).data() == old(reader).data(),
        match setter_at(op, old(reader).data(), old(reader).pos()) {
            Some((s, end)) => {
                &&& setter matches Some(r)
                &&& r.chars() == s
                &&& final(reader).pos() == end
            },
            None => setter is None && old(reader).pos() <= final(reader).pos(),
        },
{
    match op {
        OP_SET_SIZE => match (reader.read_f32(), reader.read_f32()) {
            (Some(w), Some(h)) => Some(Setter::Size(w, h)),
            _ => None,
        },
        OP_SET_BG => Some(Setter::Bg(reader.read_rgb()?)),
        OP_SET_FLEX => Some(Setter::Flex(reader.read_u8()?)),
        OP_SET_CENTER => Some(Setter::Center),
        OP_SET_GAP => Some(Setter::Gap(reader.read_f32()?)),
        OP_SET_ROUNDED => Some(Setter::Rounded(reader.read_f32()?)),
        OP_SET_ON_CLICK => Some(Setter::OnClick(reader.read_i32()?)),
        OP_SET_KEY => Some(Setter::Key(reader.read_string()?)),
        OP_SET_PADDING => Some(Setter::Padding(reader.read_f32()?)),
        OP_SET_BORDER => match (reader.read_f32(), reader.read_rgb()) {
            (Some(width), Some(color)) => Some(Setter::Border(width, color)),
            _ => None,
        },
        OP_SET_BG_COLOR => Some(Setter::BgColor(reader.read_rgba()?)),
        OP_SET_MARGIN => Some(Setter::Margin(reader.read_sides()?)),
        OP_SET_MIN_SIZE => Some(Setter::MinSize(reader.read_pair()?)),
        OP_SET_MAX_SIZE => Some(Setter::MaxSize(reader.read_pair()?)),
        OP_SET_FLEX_ITEM => match (reader.read_i32(), reader.read_i32(), reader.read_i32()) {
            (Some(grow), Some(shrink), Some(basis)) => Some(
                Setter::FlexItem(grow, shrink, basis),
            ),
            _ => None,
        },
        OP_SET_ALIGN => Some(Setter::Align(reader.read_pair()?)),
        OP_SET_OVERFLOW => Some(Setter::Overflow(reader.read_pair()?)),
        OP_SET_OPACITY => Some(Setter::Opacity(reader.read_i32()?)),
        OP_SET_SHADOW => match (reader.read_sides(), reader.read_rgba()) {
            (Some((x, y, blur, spread)), Some(color)) => Some(
                Setter::Shadow(Shadow { x, y, blur, spread, color }),
            ),
            _ => None,
        },
        OP_SET_CURSOR => Some(Setter::Cursor(reader.read_i32()?)),
        OP_SET_POSITION => Some(Setter::Position(reader.read_i32()?)),
        OP_SET_INSET => Some(Setter::Inset(reader.read_sides()?)),
        OP_SET_PADDING_SIDES => Some(Setter::PaddingSides(reader.read_sides()?)),
        OP_SET_TEXT_SIZE => Some(Setter::TextSize(reader.read_i32()?)),
        OP_SET_TEXT_COLOR => Some(Setter::TextColor(reader.read_rgba()?)),
        OP_SET_FONT_WEIGHT => Some(Setter::FontWeight(reader.read_i32()?)),
        OP_SET_LINE_HEIGHT => Some(Setter::LineHeight(reader.read_i32()?)),
        OP_SET_TEXT_ALIGN => Some(Setter::TextAlign(reader.read_i32()?)),
        OP_SET_WHITESPACE => Some(Setter::Whitespace(reader.read_i32()?)),
        OP_SET_FONT_FAMILY => Some(Setter::FontFamily(reader.read_string()?)),
        OP_SET_FOCUSABLE => Some(Setter::Focusable(reader.read_i32()?)),
        OP_SET_TAB_INDEX => Some(Setter::TabIndex(reader.read_i32()?)),
        OP_SET_TAB_STOP => Some(Setter::TabStop(reader.read_i32()?)),
        _ => None,
    }
}

/// Reads the operands of a text command.
fn read_text(reader: &mut BufferReader) -> (command: Option<Command<String>>)
    requires
        old(reader).wf(),
    ensures
        final(reader).wf(),
        final(reader).data() == old(reader).data(),
        match text_command_at(old(reader).data(), old(reader).pos()) {
            Some((c, end)) => {
                &&& command matches Some(r)
                &&& r.chars() == c
                &&& final(reader).pos() == end
            },
            None => command is None && old(reader).pos() <= final(reader).pos(),
        },
{
    let content = reader.read_string()?;
    let color = reader.read_rgb()?;
    let size = reader.read_f32()?;
    Some(Command::Text { content, color, size })
}

/// Reads the next command. `Ok(None)` is the end of the buffer. After a failure
/// the cursor is behind the opcode, somewhere among the operands.
pub fn read_command(reader: &mut BufferReader) -> (result: Result<Option<Command<String>>, i32>)
    requires
        old(reader).wf(),
    ensures
        final(reader).wf(),
        final(reader).data() == old(reader).data(),
        match parse_at(old(reader).data(), old(reader).pos()) {
            Parsed::End => result == Ok::<Option<Command<String>>, i32>(None)
                && final(reader).pos() == old(reader).pos(),
            Parsed::Fail(status) => result == Err::<Option<Command<String>>, i32>(status)
                && old(reader).pos() < final(reader).pos(),
            Parsed::Cmd(c, end) => {
                &&& result matches Ok(Some(r))
                &&& r.chars() == c
                &&& final(reader).pos() == end
            },
        },
{
    let op = match reader.read_u8() {
        Some(byte) => byte as i32,
        None => {
            return Ok(None);
        },
    };
    match op {
        OP_DIV => Ok(Some(Command::Div)),
        OP_TEXT => match read_text(reader) {
            Some(command) => Ok(Some(command)),
            None => Err(GPUI_STATUS_TRUNCATED_BUFFER),
        },
        OP_ADD_CHILD => Ok(Some(Command::AddChild)),
        OP_SET_ROOT => Ok(Some(Command::SetRoot)),
        _ => {
            if (OP_SET_SIZE <= op && op <= OP_SET_KEY) || (OP_SET_PADDING <= op && op
                <= OP_SET_TAB_STOP) {
                match read_setter(reader, op) {
                    Some(setter) => Ok(Some(Command::Apply(setter))),
                    None => Err(GPUI_STATUS_TRUNCATED_BUFFER),
                }
            } else {
                Err(GPUI_STATUS_UNKNOWN_OPCODE)
            }
        },
    }
}

} // verus!
