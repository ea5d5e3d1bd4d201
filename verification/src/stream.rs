//! Record streams: what follows the header of a buffer.
//!
//! A stream is read record by record, so streams can be put together and taken
//! apart between records.

use vstd::prelude::*;

use crate::abi::{BUFFER_VERSION, GPUI_STATUS_UNKNOWN_OPCODE};
use crate::builder::Staging;
use crate::command::{Parsed, lemma_parse_advances, parse_at, setter_at};
use crate::decode::{HEADER_LEN, decode, execute, finished, magic};
use crate::encode::{command_bytes, command_fits, law_command_round_trip, run};
use crate::node::Command;
use crate::reader::{f32_at, law_u32_round_trip, rgb_at, text_at, u32_at, u32_bytes};

verus! {

/// The header of every buffer.
pub open spec fn header() -> Seq<u8> {
    magic() + u32_bytes(BUFFER_VERSION as u32)
}

/// The commands from `pos` on; `None` when one of them is cut off or unknown.
pub open spec fn commands_from(data: Seq<u8>, pos: int) -> Option<Seq<Command<Seq<char>>>>
    decreases data.len() - pos,
{
    match parse_at(data, pos) {
        Parsed::End => Some(Seq::empty()),
        Parsed::Fail(_) => None,
        Parsed::Cmd(command, end) => {
            proof {
                lemma_parse_advances(data, pos);
            }
            match commands_from(data, end) {
                Some(rest) => Some(seq![command] + rest),
                None => None,
            }
        },
    }
}

/// The commands of a stream of records that are all there and all known.
pub open spec fn stream(bytes: Seq<u8>) -> Option<Seq<Command<Seq<char>>>> {
    commands_from(bytes, 0)
}

#[verifier::rlimit(40)]
#[verifier::spinoff_prover]
proof fn lemma_setter_shift(op: i32, data: Seq<u8>, d: int, at: int)
    requires
        0 <= d <= data.len(),
        0 <= at,
    ensures
        match setter_at(op, data.skip(d), at) {
            Some((setter, end)) => setter_at(op, data, at + d) == Some((setter, end + d)),
            None => setter_at(op, data, at + d) is None,
        },
{
    lemma_text_shift(data, d, at);
    let part = data.skip(d);
    assert forall|i: int| 0 <= i < part.len() implies #[trigger] part[i] == data[i + d] by {}
}

proof fn lemma_text_shift(data: Seq<u8>, d: int, at: int)
    requires
        0 <= d <= data.len(),
        0 <= at,
    ensures
        match text_at(data.skip(d), at) {
            Some((text, end)) => text_at(data, at + d) == Some((text, end + d)),
            None => text_at(data, at + d) is None,
        },
{
    let part = data.skip(d);
    if at + 4 <= part.len() {
        assert(u32_at(part, at) == u32_at(data, at + d));
        let end = at + 4 + u32_at(part, at);
        if end <= part.len() {
            assert(part.subrange(at + 4, end) =~= data.subrange(at + d + 4, end + d));
        }
    }
}

/// Reading a record depends only on the bytes from its start on.
proof fn lemma_parse_shift(data: Seq<u8>, d: int, at: int)
    requires
        0 <= d <= data.len(),
        0 <= at,
    ensures
        match parse_at(data.skip(d), at) {
            Parsed::End => parse_at(data, at + d) is End,
            Parsed::Fail(status) => parse_at(data, at + d) == Parsed::Fail(status),
            Parsed::Cmd(command, end) => parse_at(data, at + d) == Parsed::Cmd(command, end + d),
        },
{
    let part = data.skip(d);
    if at < part.len() {
        let op = part[at] as i32;
        assert(part[at] == data[at + d]);
        lemma_setter_shift(op, data, d, at + 1);
        lemma_text_shift(data, d, at + 1);
        if let Some((_, p)) = text_at(part, at + 1) {
            if p + 7 <= part.len() {
                assert(rgb_at(part, p) == rgb_at(data, p + d));
                assert(f32_at(part, p + 3) == f32_at(data, p + d + 3));
            }
        }
    }
}

#[verifier::rlimit(40)]
#[verifier::spinoff_prover]
proof fn lemma_setter_extend(op: i32, a: Seq<u8>, b: Seq<u8>, pos: int)
    requires
        0 <= pos,
    ensures
        setter_at(op, a, pos) matches Some((setter, end)) ==> setter_at(op, a + b, pos) == Some(
            (setter, end),
        ),
{
    lemma_text_extend(a, b, pos);
    let all = a + b;
    assert forall|i: int| 0 <= i < a.len() implies #[trigger] all[i] == a[i] by {}
}

proof fn lemma_text_extend(a: Seq<u8>, b: Seq<u8>, pos: int)
    requires
        0 <= pos,
    ensures
        text_at(a, pos) matches Some((text, end)) ==> text_at(a + b, pos) == Some((text, end)),
{
    if let Some((_, end)) = text_at(a, pos) {
        assert(u32_at(a, pos) == u32_at(a + b, pos));
        assert(a.subrange(pos + 4, end) =~= (a + b).subrange(pos + 4, end));
    }
}

/// A record that is there, and an opcode that is not known, are read as such
/// whatever follows.
pub proof fn lemma_parse_extend(a: Seq<u8>, b: Seq<u8>, pos: int)
    requires
        0 <= pos,
    ensures
        parse_at(a, pos) matches Parsed::Cmd(command, end) ==> parse_at(a + b, pos) == Parsed::Cmd(
            command,
            end,
        ),
        parse_at(a, pos) == Parsed::Fail(GPUI_STATUS_UNKNOWN_OPCODE) ==> parse_at(a + b, pos)
            == Parsed::Fail(GPUI_STATUS_UNKNOWN_OPCODE),
{
    if pos < a.len() {
        let op = a[pos] as i32;
        assert((a + b)[pos] == a[pos]);
        lemma_setter_extend(op, a, b, pos + 1);
        lemma_text_extend(a, b, pos + 1);
        if let Some((_, p)) = text_at(a, pos + 1) {
            if p + 7 <= a.len() {
                assert(rgb_at(a, p) == rgb_at(a + b, p));
                assert(f32_at(a, p + 3) == f32_at(a + b, p + 3));
            }
        }
    }
}

/// Executing a buffer from a position on is executing what stands there.
pub proof fn lemma_execute_shift(data: Seq<u8>, d: int, at: int, staging: Staging)
    requires
        0 <= d <= data.len(),
        0 <= at,
    ensures
        execute(data.skip(d), at, staging) == execute(data, at + d, staging),
    decreases data.len() - at,
{
    lemma_parse_shift(data, d, at);
    lemma_parse_advances(data.skip(d), at);
    if let Parsed::Cmd(command, end) = parse_at(data.skip(d), at) {
        if let Ok(next) = staging.step(command) {
            lemma_execute_shift(data, d, end, next);
        }
    }
}

/// The commands from a position on are those of what stands there.
proof fn lemma_commands_shift(data: Seq<u8>, d: int, at: int)
    requires
        0 <= d <= data.len(),
        0 <= at,
    ensures
        commands_from(data.skip(d), at) == commands_from(data, at + d),
    decreases data.len() - at,
{
    lemma_parse_shift(data, d, at);
    lemma_parse_advances(data.skip(d), at);
    if let Parsed::Cmd(_, end) = parse_at(data.skip(d), at) {
        lemma_commands_shift(data, d, end);
    }
}

/// Decoding a buffer is executing what follows its header.
pub proof fn lemma_decode_body(body: Seq<u8>)
    ensures
        decode(header() + body) == match execute(body, 0, Staging::empty()) {
            Ok(staging) => finished(staging),
            Err(status) => Err(status),
        },
{
    let data = header() + body;
    assert(data =~= magic() + u32_bytes(BUFFER_VERSION as u32) + body);
    assert(data.take(4) =~= magic());
    law_u32_round_trip(magic(), BUFFER_VERSION as u32, body);
    assert(data.skip(HEADER_LEN as int) =~= body);
    lemma_execute_shift(data, HEADER_LEN as int, 0, Staging::empty());
}

/// A stream followed by other bytes is executed first, and then the bytes.
proof fn lemma_execute_concat_at(a: Seq<u8>, b: Seq<u8>, pos: int, staging: Staging)
    requires
        0 <= pos <= a.len(),
        commands_from(a, pos) is Some,
    ensures
        execute(a + b, pos, staging) == match run(commands_from(a, pos)->Some_0, staging) {
            Ok(next) => execute(b, 0, next),
            Err(status) => Err(status),
        },
    decreases a.len() - pos,
{
    lemma_parse_extend(a, b, pos);
    lemma_parse_advances(a, pos);
    match parse_at(a, pos) {
        Parsed::Cmd(command, end) => {
            let commands = commands_from(a, pos)->Some_0;
            assert(commands.first() == command);
            assert(commands.drop_first() =~= commands_from(a, end)->Some_0);
            if let Ok(next) = staging.step(command) {
                lemma_execute_concat_at(a, b, end, next);
            }
        },
        _ => {
            assert(pos == a.len());
            assert((a + b).skip(pos) =~= b);
            lemma_execute_shift(a + b, pos, 0, staging);
        },
    }
}

/// A stream followed by other bytes is executed first, and then the bytes.
pub proof fn lemma_execute_concat(a: Seq<u8>, b: Seq<u8>, staging: Staging)
    requires
        stream(a) is Some,
    ensures
        execute(a + b, 0, staging) == match run(stream(a)->Some_0, staging) {
            Ok(next) => execute(b, 0, next),
            Err(status) => Err(status),
        },
{
    lemma_execute_concat_at(a, b, 0, staging);
}

/// Executing a stream is running its commands.
pub proof fn lemma_execute_stream(a: Seq<u8>, staging: Staging)
    requires
        stream(a) is Some,
    ensures
        execute(a, 0, staging) == run(stream(a)->Some_0, staging),
{
    lemma_execute_concat(a, Seq::empty(), staging);
    assert(a + Seq::<u8>::empty() =~= a);
}

proof fn lemma_stream_concat_at(a: Seq<u8>, b: Seq<u8>, pos: int)
    requires
        0 <= pos <= a.len(),
        commands_from(a, pos) is Some,
    ensures
        commands_from(a + b, pos) == match stream(b) {
            Some(rest) => Some(commands_from(a, pos)->Some_0 + rest),
            None => None,
        },
    decreases a.len() - pos,
{
    lemma_parse_extend(a, b, pos);
    lemma_parse_advances(a, pos);
    match parse_at(a, pos) {
        Parsed::Cmd(command, end) => {
            lemma_stream_concat_at(a, b, end);
            if let Some(rest) = stream(b) {
                let tail = commands_from(a, end)->Some_0;
                assert(seq![command] + (tail + rest) =~= (seq![command] + tail) + rest);
            }
        },
        _ => {
            assert(pos == a.len());
            assert((a + b).skip(pos) =~= b);
            lemma_commands_shift(a + b, pos, 0);
            if let Some(rest) = stream(b) {
                assert(Seq::<Command<Seq<char>>>::empty() + rest =~= rest);
            }
        },
    }
}

/// Streams put together have their commands one after the other.
pub proof fn law_streams_concat(a: Seq<u8>, b: Seq<u8>)
    requires
        stream(a) is Some,
    ensures
        stream(a + b) == match stream(b) {
            Some(rest) => Some(stream(a)->Some_0 + rest),
            None => None,
        },
{
    lemma_stream_concat_at(a, b, 0);
}

/// The bytes of one command are a stream of that command.
pub proof fn lemma_stream_one(command: Command<Seq<char>>)
    requires
        command_fits(command),
    ensures
        stream(command_bytes(command)) == Some(seq![command]),
{
    let bytes = command_bytes(command);
    assert(bytes.subrange(0, bytes.len() as int) =~= bytes);
    law_command_round_trip(bytes, 0, command);
    reveal_with_fuel(commands_from, 2);
    assert(seq![command] + Seq::<Command<Seq<char>>>::empty() =~= seq![command]);
}

/// What executes without failing is a stream.
pub proof fn lemma_executed_is_stream(data: Seq<u8>, pos: int, staging: Staging)
    ensures
        execute(data, pos, staging) is Ok ==> commands_from(data, pos) is Some,
    decreases data.len() - pos,
{
    lemma_parse_advances(data, pos);
    if let Parsed::Cmd(command, end) = parse_at(data, pos) {
        if let Ok(next) = staging.step(command) {
            lemma_executed_is_stream(data, end, next);
        }
    }
}

} // verus!
