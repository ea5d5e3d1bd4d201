//! The wire format, byte by byte.

use vstd::prelude::*;
use vstd::utf8::*;

use crate::command::{Parsed, parse_at};
use crate::node::{Command, Setter, Shadow, Sides};
use crate::reader::{Float32, f32_at, i32_at, pair_at, sides_at, text_at, u32_at};
use crate::text::utf8_repaired;

verus! {

/// Four bytes with the low one first, as a number.
pub open spec fn le(data: Seq<u8>, p: int) -> int {
    data[p] + 256 * data[p + 1] + 65536 * data[p + 2] + 16777216 * data[p + 3]
}

/// Four bytes with the low one first, in two's complement.
pub open spec fn signed_le(data: Seq<u8>, p: int) -> int {
    if le(data, p) >= 2147483648 {
        le(data, p) - 4294967296
    } else {
        le(data, p)
    }
}

/// Whether `v` is what four bytes say in two's complement.
pub open spec fn reads(data: Seq<u8>, p: int, v: i32) -> bool {
    v == signed_le(data, p)
}

/// Whether these are the four numbers that sixteen bytes say.
pub open spec fn reads_four(data: Seq<u8>, p: int, v: (i32, i32, i32, i32)) -> bool {
    reads(data, p, v.0) && reads(data, p + 4, v.1) && reads(data, p + 8, v.2) && reads(
        data,
        p + 12,
        v.3,
    )
}

/// Whether `v` is the float with the bits that four bytes say.
pub open spec fn reads_float(data: Seq<u8>, p: int, v: Float32) -> bool {
    v.bits == le(data, p)
}

/// Whether a length and that many bytes stand at `p`.
pub open spec fn text_there(data: Seq<u8>, p: int) -> bool {
    p + 4 <= data.len() && p + 4 + le(data, p) <= data.len()
}

/// Whether `text` is what the bytes after a length say: the text they are the
/// UTF-8 form of, or the repaired one where they are malformed.
pub open spec fn reads_text(data: Seq<u8>, p: int, text: Seq<char>) -> bool {
    let bytes = data.subrange(p + 4, p + 4 + le(data, p));
    &&& valid_utf8(bytes) ==> text == decode_utf8(bytes)
    &&& !valid_utf8(bytes) ==> text == utf8_repaired(bytes)
}

/// A record is the command `c` and ends at `end`.
pub open spec fn reads_as(data: Seq<u8>, pos: int, c: Command<Seq<char>>, end: int) -> bool {
    parse_at(data, pos) == Parsed::Cmd(c, end)
}

/// A record is the setter `s` and ends at `end`.
pub open spec fn sets(data: Seq<u8>, pos: int, s: Setter<Seq<char>>, end: int) -> bool {
    parse_at(data, pos) == Parsed::Cmd(Command::Apply(s), end)
}

/// Which bytes make a record: nothing is left at the end of the data; opcodes
/// run from 1 to 37; a record that its operands do not fit into is cut off.
pub proof fn law_records_framed(data: Seq<u8>, pos: int)
    requires
        0 <= pos,
    ensures
        pos >= data.len() <==> parse_at(data, pos) is End,
        pos < data.len() ==> {
            let op = data[pos];
            let left = data.len() - pos - 1;
            let text = text_there(data, pos + 1);
            let whole = match op {
                1u8 | 6u8 | 11u8 | 12u8 => true,
                5u8 => left >= 1,
                4u8 => left >= 3,
                7u8 | 8u8 | 9u8 | 13u8 | 15u8 | 22u8 | 24u8 | 25u8 => left >= 4,
                28u8 | 29u8 | 30u8 | 31u8 | 32u8 | 33u8 | 35u8 | 36u8 | 37u8 => left >= 4,
                14u8 => left >= 7,
                3u8 | 17u8 | 18u8 | 20u8 | 21u8 => left >= 8,
                19u8 => left >= 12,
                16u8 | 26u8 | 27u8 => left >= 16,
                23u8 => left >= 20,
                10u8 | 34u8 => text,
                2u8 => text && left >= 4 + le(data, pos + 1) + 7,
                _ => false,
            };
            if op == 0 || op > 37 {
                parse_at(data, pos) == Parsed::Fail(-7i32)
            } else if whole {
                parse_at(data, pos) is Cmd
            } else {
                parse_at(data, pos) == Parsed::Fail(-6i32)
            }
        },
{
    lemma_le(data, pos + 1);
}

proof fn lemma_le(data: Seq<u8>, p: int)
    ensures
        u32_at(data, p) == le(data, p),
        i32_at(data, p) == signed_le(data, p),
{
}

/// Commands without operands.
pub proof fn law_plain_records(data: Seq<u8>, pos: int)
    requires
        0 <= pos,
        parse_at(data, pos) is Cmd,
    ensures
        ({
            let op = data[pos];
            let p = pos + 1;
            &&& op == 1 ==> reads_as(data, pos, Command::Div, p)
            &&& op == 6 ==> sets(data, pos, Setter::Center, p)
            &&& op == 11 ==> reads_as(data, pos, Command::AddChild, p)
            &&& op == 12 ==> reads_as(data, pos, Command::SetRoot, p)
        }),
{
}

/// Setters of one float.
pub proof fn law_float_records(data: Seq<u8>, pos: int)
    requires
        0 <= pos,
        parse_at(data, pos) is Cmd,
    ensures
        ({
            let op = data[pos];
            let p = pos + 1;
            &&& op == 7 ==> exists|v: Float32|
                reads_float(data, p, v)
                    && #[trigger] sets(data, pos, Setter::Gap(v), p + 4)
            &&& op == 8 ==> exists|v: Float32|
                reads_float(data, p, v)
                    && #[trigger] sets(data, pos, Setter::Rounded(v), p + 4)
            &&& op == 13 ==> exists|v: Float32|
                reads_float(data, p, v)
                    && #[trigger] sets(data, pos, Setter::Padding(v), p + 4)
        }),
{
    lemma_le(data, pos + 1);
    lemma_le(data, pos + 5);
    lemma_le(data, pos + 9);
    lemma_le(data, pos + 13);
    let p = pos + 1;
    match data[pos] {
        7u8 => {
            assert(sets(data, pos, Setter::Gap(f32_at(data, p)), p + 4));
        },
        8u8 => {
            assert(sets(data, pos, Setter::Rounded(f32_at(data, p)), p + 4));
        },
        13u8 => {
            assert(sets(data, pos, Setter::Padding(f32_at(data, p)), p + 4));
        },
        _ => {},
    }
}

/// Setters of one signed number.
pub proof fn law_number_records(data: Seq<u8>, pos: int)
    requires
        0 <= pos,
        parse_at(data, pos) is Cmd,
    ensures
        ({
            let op = data[pos];
            let p = pos + 1;
            &&& op == 9 ==> exists|v: i32|
                reads(data, p, v)
                    && #[trigger] sets(data, pos, Setter::OnClick(v), p + 4)
            &&& op == 22 ==> exists|v: i32|
                reads(data, p, v)
                    && #[trigger] sets(data, pos, Setter::Opacity(v), p + 4)
            &&& op == 24 ==> exists|v: i32|
                reads(data, p, v)
                    && #[trigger] sets(data, pos, Setter::Cursor(v), p + 4)
            &&& op == 25 ==> exists|v: i32|
                reads(data, p, v)
                    && #[trigger] sets(data, pos, Setter::Position(v), p + 4)
            &&& op == 28 ==> exists|v: i32|
                reads(data, p, v)
                    && #[trigger] sets(data, pos, Setter::TextSize(v), p + 4)
            &&& op == 30 ==> exists|v: i32|
                reads(data, p, v)
                    && #[trigger] sets(data, pos, Setter::FontWeight(v), p + 4)
            &&& op == 31 ==> exists|v: i32|
                reads(data, p, v)
                    && #[trigger] sets(data, pos, Setter::LineHeight(v), p + 4)
            &&& op == 32 ==> exists|v: i32|
                reads(data, p, v)
                    && #[trigger] sets(data, pos, Setter::TextAlign(v), p + 4)
            &&& op == 33 ==> exists|v: i32|
                reads(data, p, v)
                    && #[trigger] sets(data, pos, Setter::Whitespace(v), p + 4)
            &&& op == 35 ==> exists|v: i32|
                reads(data, p, v)
                    && #[trigger] sets(data, pos, Setter::Focusable(v), p + 4)
            &&& op == 36 ==> exists|v: i32|
                reads(data, p, v)
                    && #[trigger] sets(data, pos, Setter::TabIndex(v), p + 4)
            &&& op == 37 ==> exists|v: i32|
                reads(data, p, v)
                    && #[trigger] sets(data, pos, Setter::TabStop(v), p + 4)
        }),
{
    lemma_le(data, pos + 1);
    lemma_le(data, pos + 5);
    lemma_le(data, pos + 9);
    lemma_le(data, pos + 13);
    let p = pos + 1;
    match data[pos] {
        9u8 => {
            assert(sets(data, pos, Setter::OnClick(i32_at(data, p)), p + 4));
        },
        22u8 => {
            assert(sets(data, pos, Setter::Opacity(i32_at(data, p)), p + 4));
        },
        24u8 => {
            assert(sets(data, pos, Setter::Cursor(i32_at(data, p)), p + 4));
        },
        25u8 => {
            assert(sets(data, pos, Setter::Position(i32_at(data, p)), p + 4));
        },
        28u8 => {
            assert(sets(data, pos, Setter::TextSize(i32_at(data, p)), p + 4));
        },
        30u8 => {
            assert(sets(data, pos, Setter::FontWeight(i32_at(data, p)), p + 4));
        },
        31u8 => {
            assert(sets(data, pos, Setter::LineHeight(i32_at(data, p)), p + 4));
        },
        32u8 => {
            assert(sets(data, pos, Setter::TextAlign(i32_at(data, p)), p + 4));
        },
        33u8 => {
            assert(sets(data, pos, Setter::Whitespace(i32_at(data, p)), p + 4));
        },
        35u8 => {
            assert(sets(data, pos, Setter::Focusable(i32_at(data, p)), p + 4));
        },
        36u8 => {
            assert(sets(data, pos, Setter::TabIndex(i32_at(data, p)), p + 4));
        },
        37u8 => {
            assert(sets(data, pos, Setter::TabStop(i32_at(data, p)), p + 4));
        },
        _ => {},
    }
}

/// Setters of four signed numbers: top, right, bottom, left.
pub proof fn law_side_records(data: Seq<u8>, pos: int)
    requires
        0 <= pos,
        parse_at(data, pos) is Cmd,
    ensures
        ({
            let op = data[pos];
            let p = pos + 1;
            &&& op == 16 ==> exists|v: Sides|
                reads_four(data, p, v)
                    && #[trigger] sets(data, pos, Setter::Margin(v), p + 16)
            &&& op == 26 ==> exists|v: Sides|
                reads_four(data, p, v)
                    && #[trigger] sets(data, pos, Setter::Inset(v), p + 16)
            &&& op == 27 ==> exists|v: Sides|
                reads_four(data, p, v)
                    && #[trigger] sets(data, pos, Setter::PaddingSides(v), p + 16)
        }),
{
    lemma_le(data, pos + 1);
    lemma_le(data, pos + 5);
    lemma_le(data, pos + 9);
    lemma_le(data, pos + 13);
    let p = pos + 1;
    match data[pos] {
        16u8 => {
            assert(sets(data, pos, Setter::Margin(sides_at(data, p)), p + 16));
        },
        26u8 => {
            assert(sets(data, pos, Setter::Inset(sides_at(data, p)), p + 16));
        },
        27u8 => {
            assert(sets(data, pos, Setter::PaddingSides(sides_at(data, p)), p + 16));
        },
        _ => {},
    }
}

/// Setters of two signed numbers.
pub proof fn law_pair_records(data: Seq<u8>, pos: int)
    requires
        0 <= pos,
        parse_at(data, pos) is Cmd,
    ensures
        ({
            let op = data[pos];
            let p = pos + 1;
            &&& op == 17 ==> exists|v: (i32, i32)|
                reads(data, p, v.0)
                    && reads(data, p + 4, v.1)
                    && #[trigger] sets(data, pos, Setter::MinSize(v), p + 8)
            &&& op == 18 ==> exists|v: (i32, i32)|
                reads(data, p, v.0)
                    && reads(data, p + 4, v.1)
                    && #[trigger] sets(data, pos, Setter::MaxSize(v), p + 8)
            &&& op == 20 ==> exists|v: (i32, i32)|
                reads(data, p, v.0)
                    && reads(data, p + 4, v.1)
                    && #[trigger] sets(data, pos, Setter::Align(v), p + 8)
            &&& op == 21 ==> exists|v: (i32, i32)|
                reads(data, p, v.0)
                    && reads(data, p + 4, v.1)
                    && #[trigger] sets(data, pos, Setter::Overflow(v), p + 8)
        }),
{
    lemma_le(data, pos + 1);
    lemma_le(data, pos + 5);
    lemma_le(data, pos + 9);
    lemma_le(data, pos + 13);
    let p = pos + 1;
    match data[pos] {
        17u8 => {
            assert(sets(data, pos, Setter::MinSize(pair_at(data, p)), p + 8));
        },
        18u8 => {
            assert(sets(data, pos, Setter::MaxSize(pair_at(data, p)), p + 8));
        },
        20u8 => {
            assert(sets(data, pos, Setter::Align(pair_at(data, p)), p + 8));
        },
        21u8 => {
            assert(sets(data, pos, Setter::Overflow(pair_at(data, p)), p + 8));
        },
        _ => {},
    }
}

/// Setters of a color, and of one byte.
pub proof fn law_color_records(data: Seq<u8>, pos: int)
    requires
        0 <= pos,
        parse_at(data, pos) is Cmd,
    ensures
        ({
            let op = data[pos];
            let p = pos + 1;
            &&& op == 4 ==> sets(data, pos, Setter::Bg((data[p], data[p + 1], data[p + 2])), p + 3)
            &&& op == 5 ==> sets(data, pos, Setter::Flex(data[p]), p + 1)
            &&& op == 15 ==> sets(
                data,
                pos,
                Setter::BgColor((data[p], data[p + 1], data[p + 2], data[p + 3])),
                p + 4,
            )
            &&& op == 29 ==> sets(
                data,
                pos,
                Setter::TextColor((data[p], data[p + 1], data[p + 2], data[p + 3])),
                p + 4,
            )
        }),
{
}

/// Setters of a size, a border, a flex item and a shadow.
pub proof fn law_mixed_records(data: Seq<u8>, pos: int)
    requires
        0 <= pos,
        parse_at(data, pos) is Cmd,
    ensures
        ({
            let op = data[pos];
            let p = pos + 1;
            &&& op == 3 ==> exists|w: Float32, h: Float32|
                reads_float(data, p, w)
                    && reads_float(data, p + 4, h)
                    && #[trigger] sets(data, pos, Setter::Size(w, h), p + 8)
            &&& op == 14 ==> exists|w: Float32|
                reads_float(data, p, w)
                    && #[trigger] sets(
                        data,
                        pos,
                        Setter::Border(w, (data[p + 4], data[p + 5], data[p + 6])),
                        p + 7,
                    )
            &&& op == 19 ==> exists|g: i32, s: i32, b: i32|
                reads(data, p, g)
                    && reads(data, p + 4, s)
                    && reads(data, p + 8, b)
                    && #[trigger] sets(data, pos, Setter::FlexItem(g, s, b), p + 12)
            &&& op == 23 ==> exists|s: Shadow|
                reads_four(data, p, (s.x, s.y, s.blur, s.spread))
                    && s.color == (data[p + 16], data[p + 17], data[p + 18], data[p + 19])
                    && #[trigger] sets(data, pos, Setter::Shadow(s), p + 20)
        }),
{
    lemma_le(data, pos + 1);
    lemma_le(data, pos + 5);
    lemma_le(data, pos + 9);
    lemma_le(data, pos + 13);
    let p = pos + 1;
    match data[pos] {
        3u8 => {
            assert(sets(data, pos, Setter::Size(f32_at(data, p), f32_at(data, p + 4)), p + 8));
        },
        14u8 => {
            let color = (data[p + 4], data[p + 5], data[p + 6]);
            assert(sets(data, pos, Setter::Border(f32_at(data, p), color), p + 7));
        },
        19u8 => {
            let (g, s, b) = (i32_at(data, p), i32_at(data, p + 4), i32_at(data, p + 8));
            assert(sets(data, pos, Setter::FlexItem(g, s, b), p + 12));
        },
        23u8 => {
            let shadow = Shadow {
                x: i32_at(data, p),
                y: i32_at(data, p + 4),
                blur: i32_at(data, p + 8),
                spread: i32_at(data, p + 12),
                color: (data[p + 16], data[p + 17], data[p + 18], data[p + 19]),
            };
            assert(sets(data, pos, Setter::Shadow(shadow), p + 20));
        },
        _ => {},
    }
}

/// Keys, font families and texts.
pub proof fn law_text_records(data: Seq<u8>, pos: int)
    requires
        0 <= pos,
        parse_at(data, pos) is Cmd,
    ensures
        ({
            let op = data[pos];
            let p = pos + 1;
            &&& op == 10 ==> exists|t: Seq<char>|
                reads_text(data, p, t)
                    && #[trigger] sets(data, pos, Setter::Key(t), p + 4 + le(data, p))
            &&& op == 34 ==> exists|t: Seq<char>|
                reads_text(data, p, t)
                    && #[trigger] sets(data, pos, Setter::FontFamily(t), p + 4 + le(data, p))
            &&& op == 2 ==> {
                let q = p + 4 + le(data, p);
                exists|t: Seq<char>, size: Float32|
                    reads_text(data, p, t)
                        && reads_float(data, q + 3, size)
                        && #[trigger] reads_as(
                            data,
                            pos,
                            Command::Text {
                                content: t,
                                color: (data[q], data[q + 1], data[q + 2]),
                                size,
                            },
                            q + 7,
                        )
            }
        }),
{
    lemma_le(data, pos + 1);
    let p = pos + 1;
    let q = p + 4 + le(data, p);
    lemma_le(data, q + 3);
    if data[pos] == 10 || data[pos] == 34 || data[pos] == 2 {
        let t = text_at(data, p)->Some_0.0;
        assert(reads_text(data, p, t));
        if data[pos] == 10 {
            assert(sets(data, pos, Setter::Key(t), q));
        } else if data[pos] == 34 {
            assert(sets(data, pos, Setter::FontFamily(t), q));
        } else {
            let size = f32_at(data, q + 3);
            let color = (data[q], data[q + 1], data[q + 2]);
            assert(reads_float(data, q + 3, size));
            assert(reads_as(data, pos, Command::Text { content: t, color, size }, q + 7));
        }
    }
}

} // verus!
