//! Strings at the byte level: UTF-8 in and out, and comparison.

use vstd::prelude::*;
use vstd::string::*;
use vstd::utf8::*;

verus! {

/// The text that `String::from_utf8_lossy` makes of bytes that are not UTF-8.
pub uninterp spec fn utf8_repaired(bytes: Seq<u8>) -> Seq<char>;

/// The text a length-prefixed payload stands for: the bytes read as UTF-8, or
/// the repaired text when they are malformed.
pub open spec fn payload_text(bytes: Seq<u8>) -> Seq<char> {
    if valid_utf8(bytes) {
        decode_utf8(bytes)
    } else {
        utf8_repaired(bytes)
    }
}

/// Calls `String::from_utf8_lossy`. On valid UTF-8 it is the text the bytes
/// encode; on anything else it is a fixed function of the bytes. Which
/// characters that function puts in place of which malformed bytes is not
/// stated.
#[verifier::external_body]
pub(crate) fn string_from_utf8_lossy(bytes: &[u8]) -> (text: String)
    ensures
        valid_utf8(bytes@) ==> text@ == decode_utf8(bytes@),
        !valid_utf8(bytes@) ==> text@ == utf8_repaired(bytes@),
{
    String::from_utf8_lossy(bytes).into_owned()
}

/// Calls `std::str::from_utf8`. It gives the text the bytes encode exactly
/// when they are valid UTF-8.
#[verifier::external_body]
pub(crate) fn str_from_utf8<'a>(bytes: &'a [u8]) -> (text: Option<&'a str>)
    ensures
        match text {
            Some(s) => valid_utf8(bytes@) && s@ == decode_utf8(bytes@),
            None => !valid_utf8(bytes@),
        },
{
    std::str::from_utf8(bytes).ok()
}

/// Whether two byte slices hold the same bytes.
pub fn bytes_eq(a: &[u8], b: &[u8]) -> (equal: bool)
    ensures
        equal == (a@ == b@),
{
    if a.len() != b.len() {
        return false;
    }
    let mut i: usize = 0;
    while i < a.len()
        invariant
            i <= a@.len(),
            a@.len() == b@.len(),
            forall|j: int| 0 <= j < i ==> a@[j] == b@[j],
        decreases a@.len() - i,
    {
        if a[i] != b[i] {
            return false;
        }
        i += 1;
    }
    assert(a@ =~= b@);
    true
}

/// Whether two strings hold the same characters.
pub fn str_eq(a: &str, b: &str) -> (equal: bool)
    ensures
        equal == (a@ == b@),
{
    proof {
        encode_utf8_decode_utf8(a@);
        encode_utf8_decode_utf8(b@);
    }
    bytes_eq(a.as_bytes(), b.as_bytes())
}

/// Appends `tail` to `out`.
pub fn append_bytes(out: &mut Vec<u8>, tail: &[u8])
    ensures
        final(out)@ == old(out)@ + tail@,
{
    out.extend_from_slice(tail);
    assert(out@ =~= old(out)@ + tail@);
}

/// How many bytes of a payload fit into `room` bytes.
pub open spec fn copied_len(payload: Seq<u8>, room: int) -> int {
    if payload.len() <= room {
        payload.len() as int
    } else {
        room
    }
}

/// A buffer after as much of a payload as fits into its first `room` bytes has
/// been written over them.
pub open spec fn copied(payload: Seq<u8>, before: Seq<u8>, room: int) -> Seq<u8> {
    let n = copied_len(payload, room);
    payload.take(n) + before.skip(n)
}

/// Copies as much of the payload as fits into the first `room` bytes of `buf`
/// and gives the number of bytes copied.
pub fn copy_out(payload: &[u8], buf: &mut [u8], room: usize) -> (n: usize)
    requires
        room <= old(buf)@.len(),
    ensures
        n == copied_len(payload@, room as int),
        final(buf)@ == copied(payload@, old(buf)@, room as int),
{
    let n = if payload.len() <= room {
        payload.len()
    } else {
        room
    };
    let mut i: usize = 0;
    while i < n
        invariant
            i <= n <= payload@.len(),
            n <= old(buf)@.len(),
            buf@ == payload@.take(i as int) + old(buf)@.skip(i as int),
        decreases n - i,
    {
        buf[i] = payload[i];
        i += 1;
        assert(buf@ =~= payload@.take(i as int) + old(buf)@.skip(i as int));
    }
    n
}

} // verus!
