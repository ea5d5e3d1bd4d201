//! From a command buffer to the tree it describes.
//!
//! A buffer is the magic `GPUI`, the layout version, and commands up to its
//! end. The commands are executed on a stack machine; the node designated as
//! the root last is the tree, provided that no key occurs twice in it.

use vstd::prelude::*;

use crate::abi::{BUFFER_VERSION, GPUI_STATUS_BAD_BUFFER_VERSION, GPUI_STATUS_DUPLICATE_KEY};
use crate::builder::{Builder, Staging};
use crate::command::{Parsed, lemma_parse_advances, parse_at, read_command};
use crate::node::{Tree, UiNode};
use crate::reader::{BufferReader, u32_at};
use crate::text::bytes_eq;
use crate::tree::{has_unique_keys, keys};

verus! {

/// The length of the header: the magic and the version.
pub const HEADER_LEN: usize = 8;

/// The bytes of `GPUI`, which every buffer starts with.
pub open spec fn magic() -> Seq<u8> {
    seq![0x47u8, 0x50u8, 0x55u8, 0x49u8]
}

/// Whether a buffer starts with the magic and the version.
pub open spec fn has_header(data: Seq<u8>) -> bool {
    &&& data.len() >= HEADER_LEN
    &&& data.take(4) == magic()
    &&& u32_at(data, 4) == BUFFER_VERSION
}

/// What is in staging once the commands from `pos` on have been executed, or
/// the status of the first one that is not there, is malformed or fails.
pub open spec fn execute(data: Seq<u8>, pos: int, staging: Staging) -> Result<Staging, i32>
    decreases data.len() - pos,
{
    match parse_at(data, pos) {
        Parsed::End => Ok(staging),
        Parsed::Fail(status) => Err(status),
        Parsed::Cmd(command, end) => {
            proof {
                lemma_parse_advances(data, pos);
            }
            match staging.step(command) {
                Ok(next) => execute(data, end, next),
                Err(status) => Err(status),
            }
        },
    }
}

/// The tree that may be committed from staging.
pub open spec fn finished(staging: Staging) -> Result<Tree, i32> {
    match staging.rooted() {
        Ok(tree) => if keys(tree).no_duplicates() {
            Ok(tree)
        } else {
            Err(GPUI_STATUS_DUPLICATE_KEY)
        },
        Err(status) => Err(status),
    }
}

/// The tree that a buffer describes, or the status it is rejected with.
pub open spec fn decode(data: Seq<u8>) -> Result<Tree, i32> {
    if !has_header(data) {
        Err(GPUI_STATUS_BAD_BUFFER_VERSION)
    } else {
        match execute(data, HEADER_LEN as int, Staging::empty()) {
            Ok(staging) => finished(staging),
            Err(status) => Err(status),
        }
    }
}

/// Reads the header.
fn read_header(reader: &mut BufferReader) -> (ok: bool)
    requires
        old(reader).wf(),
        old(reader).pos() == 0,
    ensures
        final(reader).wf(),
        final(reader).data() == old(reader).data(),
        ok == has_header(old(reader).data()),
        ok ==> final(reader).pos() == HEADER_LEN,
{
    let magic: [u8; 4] = [0x47, 0x50, 0x55, 0x49];
    assert(magic@ =~= crate::decode::magic());
    match reader.read_bytes(4) {
        Some(bytes) => {
            assert(bytes@ =~= old(reader).data().take(4));
            if !bytes_eq(bytes, magic.as_slice()) {
                return false;
            }
        },
        None => {
            return false;
        },
    }
    match reader.read_u32() {
        Some(version) => version == BUFFER_VERSION as u32,
        None => false,
    }
}

/// Decodes a buffer.
pub fn decode_tree(data: &[u8]) -> (result: Result<UiNode, i32>)
    ensures
        match decode(data@) {
            Ok(tree) => result matches Ok(node) && node.tree() == tree,
            Err(status) => result == Err::<UiNode, i32>(status),
        },
{
    let mut reader = BufferReader::new(data);
    if !read_header(&mut reader) {
        return Err(GPUI_STATUS_BAD_BUFFER_VERSION);
    }
    let mut builder = Builder::new();
    loop
        invariant_except_break
            reader.wf(),
            reader.data() == data@,
            execute(data@, reader.pos(), builder.staging()) == execute(
                data@,
                HEADER_LEN as int,
                Staging::empty(),
            ),
            has_header(data@),
            builder.staging().root matches Some(i) ==> i < builder.staging().nodes.len(),
        ensures
            has_header(data@),
            execute(data@, HEADER_LEN as int, Staging::empty()) == Ok::<Staging, i32>(
                builder.staging(),
            ),
            builder.staging().root matches Some(i) ==> i < builder.staging().nodes.len(),
        decreases data@.len() - reader.pos(),
    {
        proof {
            lemma_parse_advances(data@, reader.pos());
        }
        match read_command(&mut reader) {
            Ok(None) => {
                break;
            },
            Ok(Some(command)) => {
                match builder.step(command) {
                    Ok(()) => {},
                    Err(status) => {
                        return Err(status);
                    },
                }
            },
            Err(status) => {
                return Err(status);
            },
        }
    }
    match builder.into_root() {
        Ok(root) => {
            if has_unique_keys(&root) {
                Ok(root)
            } else {
                Err(GPUI_STATUS_DUPLICATE_KEY)
            }
        },
        Err(status) => Err(status),
    }
}

} // verus!
