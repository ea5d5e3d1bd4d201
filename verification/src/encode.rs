//! The wire layout the other way round: the bytes of a command, and that
//! reading them gives the command back.

use vstd::prelude::*;
use vstd::utf8::*;

use crate::abi::{
    BUFFER_VERSION, GPUI_STATUS_TRUNCATED_BUFFER, GPUI_STATUS_UNKNOWN_OPCODE, OP_ADD_CHILD,
    OP_DIV, OP_SET_ALIGN, OP_SET_BG, OP_SET_BG_COLOR, OP_SET_BORDER, OP_SET_CENTER, OP_SET_CURSOR,
    OP_SET_FLEX, OP_SET_FLEX_ITEM, OP_SET_FOCUSABLE, OP_SET_FONT_FAMILY, OP_SET_FONT_WEIGHT,
    OP_SET_GAP, OP_SET_INSET, OP_SET_KEY, OP_SET_LINE_HEIGHT, OP_SET_MARGIN, OP_SET_MAX_SIZE,
    OP_SET_MIN_SIZE, OP_SET_ON_CLICK, OP_SET_OPACITY, OP_SET_OVERFLOW, OP_SET_PADDING,
    OP_SET_PADDING_SIDES, OP_SET_POSITION, OP_SET_ROOT, OP_SET_ROUNDED, OP_SET_SHADOW,
    OP_SET_SIZE, OP_SET_TAB_INDEX, OP_SET_TAB_STOP, OP_SET_TEXT_ALIGN, OP_SET_TEXT_COLOR,
    OP_SET_TEXT_SIZE, OP_SET_WHITESPACE, OP_TEXT,
};
use crate::builder::Staging;
use crate::command::{Parsed, is_setter_op, parse_at, setter_at};
use crate::decode::{HEADER_LEN, decode, execute, finished, has_header, magic};
use crate::node::{Command, Rgb, Rgba, Setter, Sides, Tree};
use crate::reader::{
    Float32, f32_at, i32_at, law_u32_round_trip, pair_at, rgb_at, rgba_at, sides_at, text_at,
    u32_at, u32_bytes,
};
use crate::text::payload_text;

verus! {

/// A signed number as the unsigned one with the same bits.
pub open spec fn unsigned(v: i32) -> u32 {
    if v >= 0 {
        v as u32
    } else {
        (v + 0x1_0000_0000) as u32
    }
}

/// The bytes of a signed number.
pub open spec fn i32_bytes(v: i32) -> Seq<u8> {
    u32_bytes(unsigned(v))
}

/// The bytes of a float.
pub open spec fn f32_bytes(v: Float32) -> Seq<u8> {
    u32_bytes(v.bits)
}

/// The bytes of three color components.
pub open spec fn rgb_bytes(c: Rgb) -> Seq<u8> {
    seq![c.0, c.1, c.2]
}

/// The bytes of three color components and an alpha.
pub open spec fn rgba_bytes(c: Rgba) -> Seq<u8> {
    seq![c.0, c.1, c.2, c.3]
}

/// The bytes of two signed numbers.
pub open spec fn pair_bytes(p: (i32, i32)) -> Seq<u8> {
    i32_bytes(p.0) + i32_bytes(p.1)
}

/// The bytes of four signed numbers.
pub open spec fn sides_bytes(s: Sides) -> Seq<u8> {
    i32_bytes(s.0) + i32_bytes(s.1) + i32_bytes(s.2) + i32_bytes(s.3)
}

/// The bytes of a text: the length of its UTF-8 form, then that form.
pub open spec fn text_bytes(text: Seq<char>) -> Seq<u8> {
    u32_bytes(encode_utf8(text).len() as u32) + encode_utf8(text)
}

/// Whether the length of a text fits its prefix.
pub open spec fn text_fits(text: Seq<char>) -> bool {
    encode_utf8(text).len() <= u32::MAX
}

/// The opcode of a setter.
pub open spec fn setter_op(setter: Setter<Seq<char>>) -> i32 {
    match setter {
        Setter::Size(..) => OP_SET_SIZE,
        Setter::Bg(..) => OP_SET_BG,
        Setter::Flex(..) => OP_SET_FLEX,
        Setter::Center => OP_SET_CENTER,
        Setter::Gap(..) => OP_SET_GAP,
        Setter::Rounded(..) => OP_SET_ROUNDED,
        Setter::OnClick(..) => OP_SET_ON_CLICK,
        Setter::Key(..) => OP_SET_KEY,
        Setter::Padding(..) => OP_SET_PADDING,
        Setter::Border(..) => OP_SET_BORDER,
        Setter::BgColor(..) => OP_SET_BG_COLOR,
        Setter::Margin(..) => OP_SET_MARGIN,
        Setter::MinSize(..) => OP_SET_MIN_SIZE,
        Setter::MaxSize(..) => OP_SET_MAX_SIZE,
        Setter::FlexItem(..) => OP_SET_FLEX_ITEM,
        Setter::Align(..) => OP_SET_ALIGN,
        Setter::Overflow(..) => OP_SET_OVERFLOW,
        Setter::Opacity(..) => OP_SET_OPACITY,
        Setter::Shadow(..) => OP_SET_SHADOW,
        Setter::Cursor(..) => OP_SET_CURSOR,
        Setter::Position(..) => OP_SET_POSITION,
        Setter::Inset(..) => OP_SET_INSET,
        Setter::PaddingSides(..) => OP_SET_PADDING_SIDES,
        Setter::TextSize(..) => OP_SET_TEXT_SIZE,
        Setter::TextColor(..) => OP_SET_TEXT_COLOR,
        Setter::FontWeight(..) => OP_SET_FONT_WEIGHT,
        Setter::LineHeight(..) => OP_SET_LINE_HEIGHT,
        Setter::TextAlign(..) => OP_SET_TEXT_ALIGN,
        Setter::Whitespace(..) => OP_SET_WHITESPACE,
        Setter::FontFamily(..) => OP_SET_FONT_FAMILY,
        Setter::Focusable(..) => OP_SET_FOCUSABLE,
        Setter::TabIndex(..) => OP_SET_TAB_INDEX,
        Setter::TabStop(..) => OP_SET_TAB_STOP,
    }
}

/// The operand bytes of a setter.
pub open spec fn setter_bytes(setter: Setter<Seq<char>>) -> Seq<u8> {
    match setter {
        Setter::Size(w, h) => f32_bytes(w) + f32_bytes(h),
        Setter::Bg(c) => rgb_bytes(c),
        Setter::Flex(col) => seq![col],
        Setter::Center => Seq::empty(),
        Setter::Gap(v) => f32_bytes(v),
        Setter::Rounded(v) => f32_bytes(v),
        Setter::OnClick(id) => i32_bytes(id),
        Setter::Key(k) => text_bytes(k),
        Setter::Padding(v) => f32_bytes(v),
        Setter::Border(w, c) => f32_bytes(w) + rgb_bytes(c),
        Setter::BgColor(c) => rgba_bytes(c),
        Setter::Margin(s) => sides_bytes(s),
        Setter::MinSize(s) => pair_bytes(s),
        Setter::MaxSize(s) => pair_bytes(s),
        Setter::FlexItem(g, s, b) => i32_bytes(g) + i32_bytes(s) + i32_bytes(b),
        Setter::Align(a) => pair_bytes(a),
        Setter::Overflow(o) => pair_bytes(o),
        Setter::Opacity(v) => i32_bytes(v),
        Setter::Shadow(s) => sides_bytes((s.x, s.y, s.blur, s.spread)) + rgba_bytes(s.color),
        Setter::Cursor(id) => i32_bytes(id),
        Setter::Position(id) => i32_bytes(id),
        Setter::Inset(s) => sides_bytes(s),
        Setter::PaddingSides(s) => sides_bytes(s),
        Setter::TextSize(v) => i32_bytes(v),
        Setter::TextColor(c) => rgba_bytes(c),
        Setter::FontWeight(w) => i32_bytes(w),
        Setter::LineHeight(v) => i32_bytes(v),
        Setter::TextAlign(id) => i32_bytes(id),
        Setter::Whitespace(id) => i32_bytes(id),
        Setter::FontFamily(f) => text_bytes(f),
        Setter::Focusable(mode) => i32_bytes(mode),
        Setter::TabIndex(index) => i32_bytes(index),
        Setter::TabStop(mode) => i32_bytes(mode),
    }
}

/// Whether the length of the text in a command, if any, fits its prefix.
pub open spec fn command_fits(command: Command<Seq<char>>) -> bool {
    match command {
        Command::Text { content, .. } => text_fits(content),
        Command::Apply(Setter::Key(k)) => text_fits(k),
        Command::Apply(Setter::FontFamily(f)) => text_fits(f),
        _ => true,
    }
}

/// The opcode of a command.
pub open spec fn command_op(command: Command<Seq<char>>) -> i32 {
    match command {
        Command::Div => OP_DIV,
        Command::Text { .. } => OP_TEXT,
        Command::Apply(setter) => setter_op(setter),
        Command::AddChild => OP_ADD_CHILD,
        Command::SetRoot => OP_SET_ROOT,
    }
}

/// The operand bytes of a command.
pub open spec fn operand_bytes(command: Command<Seq<char>>) -> Seq<u8> {
    match command {
        Command::Text { content, color, size } => text_bytes(content) + rgb_bytes(color)
            + f32_bytes(size),
        Command::Apply(setter) => setter_bytes(setter),
        _ => Seq::empty(),
    }
}

/// The bytes of a command: the opcode, then the operands.
pub open spec fn command_bytes(command: Command<Seq<char>>) -> Seq<u8> {
    seq![command_op(command) as u8] + operand_bytes(command)
}

/// `part` stands in `data` from `pos` on.
pub open spec fn stands_at(data: Seq<u8>, pos: int, part: Seq<u8>) -> bool {
    &&& 0 <= pos
    &&& pos + part.len() <= data.len()
    &&& data.subrange(pos, pos + part.len()) == part
}

/// What stands at a position in two parts.
proof fn lemma_stands_split(data: Seq<u8>, pos: int, a: Seq<u8>, b: Seq<u8>)
    requires
        stands_at(data, pos, a + b),
    ensures
        stands_at(data, pos, a),
        stands_at(data, pos + a.len(), b),
{
    let whole = data.subrange(pos, pos + (a + b).len());
    assert(data.subrange(pos, pos + a.len()) =~= whole.take(a.len() as int));
    assert(whole.take(a.len() as int) =~= a);
    assert(data.subrange(pos + a.len(), pos + a.len() + b.len()) =~= whole.skip(a.len() as int));
    assert(whole.skip(a.len() as int) =~= b);
}

proof fn lemma_u32_stands(data: Seq<u8>, pos: int, v: u32)
    requires
        stands_at(data, pos, u32_bytes(v)),
    ensures
        u32_at(data, pos) == v,
        pos + 4 <= data.len(),
{
    let part = data.subrange(pos, pos + 4);
    assert(u32_bytes(v).len() == 4);
    assert(part[0] == data[pos] && part[1] == data[pos + 1] && part[2] == data[pos + 2] && part[3]
        == data[pos + 3]);
    law_u32_round_trip(Seq::empty(), v, Seq::empty());
    assert(Seq::<u8>::empty() + u32_bytes(v) + Seq::<u8>::empty() =~= u32_bytes(v));
}

proof fn lemma_i32_stands(data: Seq<u8>, pos: int, v: i32)
    requires
        stands_at(data, pos, i32_bytes(v)),
    ensures
        i32_at(data, pos) == v,
        pos + 4 <= data.len(),
{
    lemma_u32_stands(data, pos, unsigned(v));
}

proof fn lemma_f32_stands(data: Seq<u8>, pos: int, v: Float32)
    requires
        stands_at(data, pos, f32_bytes(v)),
    ensures
        f32_at(data, pos) == v,
        pos + 4 <= data.len(),
{
    lemma_u32_stands(data, pos, v.bits);
}

proof fn lemma_rgb_stands(data: Seq<u8>, pos: int, c: Rgb)
    requires
        stands_at(data, pos, rgb_bytes(c)),
    ensures
        rgb_at(data, pos) == c,
        pos + 3 <= data.len(),
{
    let part = data.subrange(pos, pos + 3);
    assert(rgb_bytes(c).len() == 3);
    assert(part[0] == data[pos] && part[1] == data[pos + 1] && part[2] == data[pos + 2]);
}

proof fn lemma_rgba_stands(data: Seq<u8>, pos: int, c: Rgba)
    requires
        stands_at(data, pos, rgba_bytes(c)),
    ensures
        rgba_at(data, pos) == c,
        pos + 4 <= data.len(),
{
    let part = data.subrange(pos, pos + 4);
    assert(rgba_bytes(c).len() == 4);
    assert(part[0] == data[pos] && part[1] == data[pos + 1] && part[2] == data[pos + 2] && part[3]
        == data[pos + 3]);
}

proof fn lemma_pair_stands(data: Seq<u8>, pos: int, p: (i32, i32))
    requires
        stands_at(data, pos, pair_bytes(p)),
    ensures
        pair_at(data, pos) == p,
        pos + 8 <= data.len(),
{
    lemma_stands_split(data, pos, i32_bytes(p.0), i32_bytes(p.1));
    lemma_i32_stands(data, pos, p.0);
    lemma_i32_stands(data, pos + 4, p.1);
}

proof fn lemma_sides_stands(data: Seq<u8>, pos: int, s: Sides)
    requires
        stands_at(data, pos, sides_bytes(s)),
    ensures
        sides_at(data, pos) == s,
        pos + 16 <= data.len(),
{
    let (a, b, c, d) = (i32_bytes(s.0), i32_bytes(s.1), i32_bytes(s.2), i32_bytes(s.3));
    lemma_stands_split(data, pos, a + b + c, d);
    lemma_stands_split(data, pos, a + b, c);
    lemma_stands_split(data, pos, a, b);
    lemma_i32_stands(data, pos, s.0);
    lemma_i32_stands(data, pos + 4, s.1);
    lemma_i32_stands(data, pos + 8, s.2);
    lemma_i32_stands(data, pos + 12, s.3);
}

pub proof fn lemma_text_stands(data: Seq<u8>, pos: int, text: Seq<char>)
    requires
        text_fits(text),
        stands_at(data, pos, text_bytes(text)),
    ensures
        text_at(data, pos) == Some((text, pos + text_bytes(text).len())),
        pos + text_bytes(text).len() <= data.len(),
{
    let utf8 = encode_utf8(text);
    let len = utf8.len() as u32;
    lemma_stands_split(data, pos, u32_bytes(len), utf8);
    lemma_u32_stands(data, pos, len);
    encode_utf8_valid_utf8(text);
    encode_utf8_decode_utf8(text);
    assert(payload_text(utf8) == text);
    assert(data.subrange(pos + 4, pos + 4 + len) == utf8);
}

#[verifier::rlimit(60)]
#[verifier::spinoff_prover]
proof fn lemma_setter_stands(data: Seq<u8>, pos: int, setter: Setter<Seq<char>>)
    requires
        command_fits(Command::Apply(setter)),
        stands_at(data, pos, setter_bytes(setter)),
    ensures
        is_setter_op(setter_op(setter)),
        setter_at(setter_op(setter), data, pos) == Some((setter, pos + setter_bytes(setter).len())),
{
    match setter {
        Setter::Size(w, h) => {
            lemma_stands_split(data, pos, f32_bytes(w), f32_bytes(h));
            lemma_f32_stands(data, pos, w);
            lemma_f32_stands(data, pos + 4, h);
        },
        Setter::Bg(c) => lemma_rgb_stands(data, pos, c),
        Setter::Flex(col) => {
            assert(data.subrange(pos, pos + 1)[0] == data[pos]);
        },
        Setter::Center => {},
        Setter::Gap(v) => lemma_f32_stands(data, pos, v),
        Setter::Rounded(v) => lemma_f32_stands(data, pos, v),
        Setter::OnClick(id) => lemma_i32_stands(data, pos, id),
        Setter::Key(k) => lemma_text_stands(data, pos, k),
        Setter::Padding(v) => lemma_f32_stands(data, pos, v),
        Setter::Border(w, c) => {
            lemma_stands_split(data, pos, f32_bytes(w), rgb_bytes(c));
            lemma_f32_stands(data, pos, w);
            lemma_rgb_stands(data, pos + 4, c);
        },
        Setter::BgColor(c) => lemma_rgba_stands(data, pos, c),
        Setter::Margin(s) => lemma_sides_stands(data, pos, s),
        Setter::MinSize(s) => lemma_pair_stands(data, pos, s),
        Setter::MaxSize(s) => lemma_pair_stands(data, pos, s),
        Setter::FlexItem(g, s, b) => {
            lemma_stands_split(data, pos, i32_bytes(g) + i32_bytes(s), i32_bytes(b));
            lemma_stands_split(data, pos, i32_bytes(g), i32_bytes(s));
            lemma_i32_stands(data, pos, g);
            lemma_i32_stands(data, pos + 4, s);
            lemma_i32_stands(data, pos + 8, b);
        },
        Setter::Align(a) => lemma_pair_stands(data, pos, a),
        Setter::Overflow(o) => lemma_pair_stands(data, pos, o),
        Setter::Opacity(v) => lemma_i32_stands(data, pos, v),
        Setter::Shadow(s) => {
            let sides = (s.x, s.y, s.blur, s.spread);
            lemma_stands_split(data, pos, sides_bytes(sides), rgba_bytes(s.color));
            lemma_sides_stands(data, pos, sides);
            lemma_rgba_stands(data, pos + 16, s.color);
        },
        Setter::Cursor(id) => lemma_i32_stands(data, pos, id),
        Setter::Position(id) => lemma_i32_stands(data, pos, id),
        Setter::Inset(s) => lemma_sides_stands(data, pos, s),
        Setter::PaddingSides(s) => lemma_sides_stands(data, pos, s),
        Setter::TextSize(v) => lemma_i32_stands(data, pos, v),
        Setter::TextColor(c) => lemma_rgba_stands(data, pos, c),
        Setter::FontWeight(w) => lemma_i32_stands(data, pos, w),
        Setter::LineHeight(v) => lemma_i32_stands(data, pos, v),
        Setter::TextAlign(id) => lemma_i32_stands(data, pos, id),
        Setter::Whitespace(id) => lemma_i32_stands(data, pos, id),
        Setter::FontFamily(f) => lemma_text_stands(data, pos, f),
        Setter::Focusable(mode) => lemma_i32_stands(data, pos, mode),
        Setter::TabIndex(index) => lemma_i32_stands(data, pos, index),
        Setter::TabStop(mode) => lemma_i32_stands(data, pos, mode),
    }
}

/// Wherever the bytes of a command stand in a buffer, the command is read
/// there, and the next one is read from where they end.
pub proof fn law_command_round_trip(data: Seq<u8>, pos: int, command: Command<Seq<char>>)
    requires
        command_fits(command),
        stands_at(data, pos, command_bytes(command)),
    ensures
        parse_at(data, pos) == Parsed::Cmd(command, pos + command_bytes(command).len()),
{
    let op = seq![command_op(command) as u8];
    lemma_stands_split(data, pos, op, operand_bytes(command));
    assert(data.subrange(pos, pos + 1)[0] == data[pos]);
    match command {
        Command::Apply(setter) => lemma_setter_stands(data, pos + 1, setter),
        Command::Text { content, color, size } => {
            let (a, b, c) = (text_bytes(content), rgb_bytes(color), f32_bytes(size));
            lemma_stands_split(data, pos + 1, a + b, c);
            lemma_stands_split(data, pos + 1, a, b);
            lemma_text_stands(data, pos + 1, content);
            lemma_rgb_stands(data, pos + 1 + a.len(), color);
            lemma_f32_stands(data, pos + 1 + a.len() + 3, size);
        },
        _ => {},
    }
}

/// The bytes of a list of commands.
pub open spec fn program_bytes(commands: Seq<Command<Seq<char>>>) -> Seq<u8>
    decreases commands.len(),
{
    if commands.len() == 0 {
        Seq::empty()
    } else {
        command_bytes(commands.first()) + program_bytes(commands.drop_first())
    }
}

/// The buffer that carries a list of commands.
pub open spec fn buffer_bytes(commands: Seq<Command<Seq<char>>>) -> Seq<u8> {
    magic() + u32_bytes(BUFFER_VERSION as u32) + program_bytes(commands)
}

/// What is in staging once a list of commands has been executed, or the status
/// of the first one that fails.
pub open spec fn run(commands: Seq<Command<Seq<char>>>, staging: Staging) -> Result<Staging, i32>
    decreases commands.len(),
{
    if commands.len() == 0 {
        Ok(staging)
    } else {
        match staging.step(commands.first()) {
            Ok(next) => run(commands.drop_first(), next),
            Err(status) => Err(status),
        }
    }
}

/// Commands whose bytes stand in a buffer are executed, and execution goes on
/// with what follows them.
proof fn lemma_execute_program(
    data: Seq<u8>,
    pos: int,
    commands: Seq<Command<Seq<char>>>,
    tail: Seq<u8>,
    staging: Staging,
)
    requires
        forall|i: int| 0 <= i < commands.len() ==> command_fits(#[trigger] commands[i]),
        0 <= pos <= data.len(),
        data.skip(pos) == program_bytes(commands) + tail,
    ensures
        execute(data, pos, staging) == match run(commands, staging) {
            Ok(next) => execute(data, data.len() - tail.len(), next),
            Err(status) => Err(status),
        },
    decreases commands.len(),
{
    assert(data.skip(pos).len() == data.len() - pos);
    if commands.len() > 0 {
        let first = command_bytes(commands.first());
        let rest = program_bytes(commands.drop_first());
        assert(command_fits(commands[0]));
        assert(data.skip(pos) =~= first + (rest + tail));
        assert(data.subrange(pos, pos + first.len()) =~= data.skip(pos).take(first.len() as int));
        assert((first + (rest + tail)).take(first.len() as int) =~= first);
        law_command_round_trip(data, pos, commands.first());
        assert(data.skip(pos + first.len()) =~= (first + (rest + tail)).skip(first.len() as int));
        assert((first + (rest + tail)).skip(first.len() as int) =~= rest + tail);
        assert forall|i: int| 0 <= i < commands.drop_first().len() implies command_fits(
            #[trigger] commands.drop_first()[i],
        ) by {
            assert(commands.drop_first()[i] == commands[i + 1]);
        }
        match staging.step(commands.first()) {
            Ok(next) => lemma_execute_program(
                data,
                pos + first.len(),
                commands.drop_first(),
                tail,
                next,
            ),
            Err(_) => {},
        }
    }
}

/// Decoding a buffer that goes on after its commands.
#[verifier::rlimit(40)]
#[verifier::spinoff_prover]
proof fn lemma_decode_with_tail(commands: Seq<Command<Seq<char>>>, tail: Seq<u8>)
    requires
        forall|i: int| 0 <= i < commands.len() ==> command_fits(#[trigger] commands[i]),
    ensures
        has_header(buffer_bytes(commands) + tail),
        execute(buffer_bytes(commands) + tail, HEADER_LEN as int, Staging::empty()) == match run(
            commands,
            Staging::empty(),
        ) {
            Ok(next) => execute(
                buffer_bytes(commands) + tail,
                buffer_bytes(commands).len() as int,
                next,
            ),
            Err(status) => Err(status),
        },
{
    let data = buffer_bytes(commands) + tail;
    let version = u32_bytes(BUFFER_VERSION as u32);
    let after = program_bytes(commands) + tail;
    assert(data =~= magic() + version + after);
    assert(data.take(4) =~= magic());
    law_u32_round_trip(magic(), BUFFER_VERSION as u32, after);
    assert(data.skip(HEADER_LEN as int) =~= after);
    lemma_execute_program(data, HEADER_LEN as int, commands, tail, Staging::empty());
}

/// Decoding the buffer that carries a list of commands is executing them.
pub proof fn law_buffer_round_trip(commands: Seq<Command<Seq<char>>>)
    requires
        forall|i: int| 0 <= i < commands.len() ==> command_fits(#[trigger] commands[i]),
    ensures
        decode(buffer_bytes(commands)) == match run(commands, Staging::empty()) {
            Ok(staging) => finished(staging),
            Err(status) => Err(status),
        },
{
    lemma_decode_with_tail(commands, Seq::empty());
    assert(buffer_bytes(commands) + Seq::<u8>::empty() =~= buffer_bytes(commands));
}

/// A buffer with an opcode that is not known is rejected as such, wherever the
/// opcode stands and whatever follows it, unless a command before it fails.
pub proof fn law_unknown_opcode_rejected(
    commands: Seq<Command<Seq<char>>>,
    op: u8,
    rest: Seq<u8>,
)
    requires
        forall|i: int| 0 <= i < commands.len() ==> command_fits(#[trigger] commands[i]),
        op == 0 || op > OP_SET_TAB_STOP,
    ensures
        decode(buffer_bytes(commands) + (seq![op] + rest)) == match run(
            commands,
            Staging::empty(),
        ) {
            Ok(_) => Err::<Tree, i32>(GPUI_STATUS_UNKNOWN_OPCODE),
            Err(status) => Err(status),
        },
{
    let tail = seq![op] + rest;
    let data = buffer_bytes(commands) + tail;
    lemma_decode_with_tail(commands, tail);
    assert(data[buffer_bytes(commands).len() as int] == op);
}

/// A text that the buffer ends inside of is not read.
proof fn lemma_text_cut(data: Seq<u8>, pos: int, text: Seq<char>, n: int)
    requires
        text_fits(text),
        0 <= pos,
        0 <= n < text_bytes(text).len(),
        data.len() == pos + n,
        data.skip(pos) == text_bytes(text).take(n),
    ensures
        text_at(data, pos) is None,
{
    if n >= 4 {
        let len = encode_utf8(text).len() as u32;
        let prefix = u32_bytes(len);
        assert forall|i: int| 0 <= i < 4 implies #[trigger] data.subrange(pos, pos + 4)[i]
            == prefix[i] by {
            assert(data.skip(pos)[i] == data[pos + i]);
            assert(text_bytes(text).take(n)[i] == text_bytes(text)[i]);
        }
        assert(data.subrange(pos, pos + 4) =~= prefix);
        lemma_u32_stands(data, pos, len);
    }
}

/// A setter that the buffer ends inside of is not read.
#[verifier::rlimit(60)]
#[verifier::spinoff_prover]
proof fn lemma_setter_cut(data: Seq<u8>, pos: int, setter: Setter<Seq<char>>, n: int)
    requires
        command_fits(Command::Apply(setter)),
        0 <= pos,
        0 <= n < setter_bytes(setter).len(),
        data.len() == pos + n,
        data.skip(pos) == setter_bytes(setter).take(n),
    ensures
        is_setter_op(setter_op(setter)),
        setter_at(setter_op(setter), data, pos) is None,
{
    match setter {
        Setter::Key(k) => lemma_text_cut(data, pos, k, n),
        Setter::FontFamily(f) => lemma_text_cut(data, pos, f, n),
        _ => {},
    }
}

/// A command that the buffer ends inside of is reported as cut off.
proof fn lemma_command_cut(data: Seq<u8>, pos: int, command: Command<Seq<char>>, n: int)
    requires
        command_fits(command),
        0 <= pos,
        0 < n < command_bytes(command).len(),
        data.len() == pos + n,
        data.skip(pos) == command_bytes(command).take(n),
    ensures
        parse_at(data, pos) == Parsed::Fail(GPUI_STATUS_TRUNCATED_BUFFER),
{
    let operands = operand_bytes(command);
    assert(data.skip(pos)[0] == data[pos]);
    assert(command_bytes(command).take(n)[0] == command_op(command) as u8);
    assert forall|i: int| 0 <= i < n - 1 implies #[trigger] data.skip(pos + 1)[i]
        == operands.take(n - 1)[i] by {
        assert(data.skip(pos)[i + 1] == data[pos + 1 + i]);
        assert(command_bytes(command).take(n)[i + 1] == operands[i]);
    }
    assert(data.skip(pos + 1) =~= operands.take(n - 1));
    match command {
        Command::Apply(setter) => lemma_setter_cut(data, pos + 1, setter, n - 1),
        Command::Text { content, color, size } => {
            let text = text_bytes(content);
            if n - 1 < text.len() {
                assert(operands.take(n - 1) =~= text.take(n - 1));
                lemma_text_cut(data, pos + 1, content, n - 1);
            } else {
                assert(data.subrange(pos + 1, pos + 1 + text.len()) =~= data.skip(pos + 1).take(
                    text.len() as int,
                ));
                assert(operands.take(n - 1).take(text.len() as int) =~= text);
                lemma_text_stands(data, pos + 1, content);
            }
        },
        _ => {},
    }
}

/// A buffer that ends inside a command is rejected as cut off, unless a command
/// before it fails.
pub proof fn law_cut_command_rejected(
    commands: Seq<Command<Seq<char>>>,
    last: Command<Seq<char>>,
    n: int,
)
    requires
        forall|i: int| 0 <= i < commands.len() ==> command_fits(#[trigger] commands[i]),
        command_fits(last),
        0 < n < command_bytes(last).len(),
    ensures
        decode(buffer_bytes(commands) + command_bytes(last).take(n)) == match run(
            commands,
            Staging::empty(),
        ) {
            Ok(_) => Err::<Tree, i32>(GPUI_STATUS_TRUNCATED_BUFFER),
            Err(status) => Err(status),
        },
{
    let tail = command_bytes(last).take(n);
    let start = buffer_bytes(commands).len() as int;
    let data = buffer_bytes(commands) + tail;
    lemma_decode_with_tail(commands, tail);
    assert(data.skip(start) =~= tail);
    lemma_command_cut(data, start, last, n);
}

} // verus!
