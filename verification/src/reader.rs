//! Little-endian integers, and a cursor that reads them off a command buffer.

use vstd::prelude::*;
use vstd::slice::slice_subrange;

use crate::text::{payload_text, string_from_utf8_lossy};

verus! {

/// A 32-bit IEEE 754 number, kept as its bits.
#[derive(Clone, Copy, Debug, PartialEq, Eq, Structural)]
pub struct Float32 {
    pub bits: u32,
}

/// The bits of positive infinity, the largest bits of a number that is not
/// negative.
pub const FLOAT32_INFINITY: u32 = 0x7F80_0000;

impl Float32 {
    /// Positive zero.
    pub open spec fn zero() -> Float32 {
        Float32 { bits: 0 }
    }

    /// Whether the number is greater than zero. Neither zero, no negative
    /// number and no NaN is.
    pub open spec fn is_positive_spec(self) -> bool {
        0 < self.bits <= FLOAT32_INFINITY
    }

    /// Whether the number is greater than zero.
    pub fn is_positive(self) -> (positive: bool)
        ensures
            positive == self.is_positive_spec(),
    {
        0 < self.bits && self.bits <= FLOAT32_INFINITY
    }
}

/// An unsigned 32-bit number read in two's complement.
pub open spec fn signed(v: u32) -> i32 {
    if v < 0x8000_0000 {
        v as i32
    } else {
        (v - 0x1_0000_0000) as i32
    }
}

/// The unsigned number at `pos`, low byte first.
pub open spec fn u32_at(data: Seq<u8>, pos: int) -> u32 {
    (data[pos] + 0x100 * data[pos + 1] + 0x1_0000 * data[pos + 2] + 0x100_0000 * data[pos
        + 3]) as u32
}

/// The signed number at `pos`.
pub open spec fn i32_at(data: Seq<u8>, pos: int) -> i32 {
    signed(u32_at(data, pos))
}

/// The float at `pos`.
pub open spec fn f32_at(data: Seq<u8>, pos: int) -> Float32 {
    Float32 { bits: u32_at(data, pos) }
}

/// The three color components at `pos`.
pub open spec fn rgb_at(data: Seq<u8>, pos: int) -> (u8, u8, u8) {
    (data[pos], data[pos + 1], data[pos + 2])
}

/// The three color components and the alpha at `pos`.
pub open spec fn rgba_at(data: Seq<u8>, pos: int) -> (u8, u8, u8, u8) {
    (data[pos], data[pos + 1], data[pos + 2], data[pos + 3])
}

/// The two signed numbers at `pos`.
pub open spec fn pair_at(data: Seq<u8>, pos: int) -> (i32, i32) {
    (i32_at(data, pos), i32_at(data, pos + 4))
}

/// The four signed numbers at `pos`: top, right, bottom, left.
pub open spec fn sides_at(data: Seq<u8>, pos: int) -> (i32, i32, i32, i32) {
    (i32_at(data, pos), i32_at(data, pos + 4), i32_at(data, pos + 8), i32_at(data, pos + 12))
}

/// The length-prefixed text at `pos` and the position after it, or `None` when
/// the buffer ends inside the length or inside the bytes it announces.
pub open spec fn text_at(data: Seq<u8>, pos: int) -> Option<(Seq<char>, int)> {
    if pos + 4 > data.len() {
        None
    } else {
        let end = pos + 4 + u32_at(data, pos);
        if end > data.len() {
            None
        } else {
            Some((payload_text(data.subrange(pos + 4, end)), end))
        }
    }
}

/// The four bytes of `v`, low byte first.
pub open spec fn u32_bytes(v: u32) -> Seq<u8> {
    seq![
        (v % 0x100) as u8,
        (v / 0x100 % 0x100) as u8,
        (v / 0x1_0000 % 0x100) as u8,
        (v / 0x100_0000) as u8,
    ]
}

/// Reading back the four bytes of a number gives the number, wherever they stand.
pub proof fn law_u32_round_trip(before: Seq<u8>, v: u32, after: Seq<u8>)
    ensures
        u32_at(before + u32_bytes(v) + after, before.len() as int) == v,
{
    let data = before + u32_bytes(v) + after;
    let p = before.len() as int;
    assert(data[p] == u32_bytes(v)[0]);
    assert(data[p + 1] == u32_bytes(v)[1]);
    assert(data[p + 2] == u32_bytes(v)[2]);
    assert(data[p + 3] == u32_bytes(v)[3]);
}

/// The signed reading of a number, as code.
fn to_signed(v: u32) -> (r: i32)
    ensures
        r == signed(v),
{
    assert(v < 0x8000_0000 ==> (v as i32) as int == v as int) by (bit_vector);
    assert(v >= 0x8000_0000 ==> (v as i32) as int == v as int - 0x1_0000_0000) by (bit_vector);
    v as i32
}

/// The low 32 bits of a number, read in two's complement.
pub open spec fn wrapped(n: int) -> i32 {
    signed((n % 0x1_0000_0000) as u32)
}

/// The low 32 bits of a size.
pub fn low_u32(n: usize) -> (low: u32)
    ensures
        low == n as int % 0x1_0000_0000,
{
    let wide = n as u64;
    let low = wide % 0x1_0000_0000;
    low as u32
}

/// A size as a signed number of 32 bits; what does not fit wraps around.
pub fn wrap_i32(n: usize) -> (r: i32)
    ensures
        r == wrapped(n as int),
        n <= i32::MAX ==> r == n,
{
    to_signed(low_u32(n))
}

/// Appends the four bytes of `v`, low byte first.
pub fn push_u32(out: &mut Vec<u8>, v: u32)
    ensures
        final(out)@ == old(out)@ + u32_bytes(v),
{
    out.push((v % 0x100) as u8);
    out.push((v / 0x100 % 0x100) as u8);
    out.push((v / 0x1_0000 % 0x100) as u8);
    out.push((v / 0x100_0000) as u8);
    assert(out@ =~= old(out)@ + u32_bytes(v));
}

/// A cursor over a command buffer. Every reader gives `None` when the buffer
/// ends before the field does.
pub struct BufferReader<'a> {
    data: &'a [u8],
    pos: usize,
}

impl<'a> BufferReader<'a> {
    /// The whole buffer.
    pub closed spec fn data(self) -> Seq<u8> {
        self.data@
    }

    /// Where the next field starts.
    pub closed spec fn pos(self) -> int {
        self.pos as int
    }

    /// The cursor stands inside the buffer or at its end.
    pub open spec fn wf(self) -> bool {
        0 <= self.pos() <= self.data().len()
    }

    /// Whether `n` more bytes are there.
    pub open spec fn has(self, n: int) -> bool {
        self.pos() + n <= self.data().len()
    }

    /// What a reader of an `n`-byte field does to the cursor: it moves past
    /// the field if the field is there and stays where it was if not.
    pub open spec fn moved(self, before: Self, n: int) -> bool {
        &&& self.wf()
        &&& self.data() == before.data()
        &&& self.pos() == if before.has(n) {
            before.pos() + n
        } else {
            before.pos()
        }
    }

    /// A cursor at the start of `data`.
    pub fn new(data: &'a [u8]) -> (reader: Self)
        ensures
            reader.wf(),
            reader.data() == data@,
            reader.pos() == 0,
    {
        Self { data, pos: 0 }
    }

    /// Reads one byte.
    pub fn read_u8(&mut self) -> (byte: Option<u8>)
        requires
            old(self).wf(),
        ensures
            final(self).moved(*old(self), 1),
            byte == if old(self).has(1) {
                Some(old(self).data()[old(self).pos()])
            } else {
                None
            },
    {
        if self.pos >= self.data.len() {
            return None;
        }
        let byte = self.data[self.pos];
        self.pos += 1;
        Some(byte)
    }

    /// Reads an unsigned number.
    pub fn read_u32(&mut self) -> (value: Option<u32>)
        requires
            old(self).wf(),
        ensures
            final(self).moved(*old(self), 4),
            value == if old(self).has(4) {
                Some(u32_at(old(self).data(), old(self).pos()))
            } else {
                None
            },
    {
        if self.data.len() - self.pos < 4 {
            return None;
        }
        let b0 = self.data[self.pos] as u32;
        let b1 = self.data[self.pos + 1] as u32;
        let b2 = self.data[self.pos + 2] as u32;
        let b3 = self.data[self.pos + 3] as u32;
        self.pos += 4;
        Some(b0 + 0x100 * b1 + 0x1_0000 * b2 + 0x100_0000 * b3)
    }

    /// Reads a signed number.
    pub fn read_i32(&mut self) -> (value: Option<i32>)
        requires
            old(self).wf(),
        ensures
            final(self).moved(*old(self), 4),
            value == if old(self).has(4) {
                Some(i32_at(old(self).data(), old(self).pos()))
            } else {
                None
            },
    {
        match self.read_u32() {
            Some(v) => Some(to_signed(v)),
            None => None,
        }
    }

    /// Reads a float.
    pub fn read_f32(&mut self) -> (value: Option<Float32>)
        requires
            old(self).wf(),
        ensures
            final(self).moved(*old(self), 4),
            value == if old(self).has(4) {
                Some(f32_at(old(self).data(), old(self).pos()))
            } else {
                None
            },
    {
        match self.read_u32() {
            Some(bits) => Some(Float32 { bits }),
            None => None,
        }
    }

    /// Borrows `len` bytes without copying them.
    pub fn read_bytes(&mut self, len: usize) -> (bytes: Option<&'a [u8]>)
        requires
            old(self).wf(),
        ensures
            final(self).moved(*old(self), len as int),
            bytes is Some <==> old(self).has(len as int),
            bytes matches Some(b) ==> b@ == old(self).data().subrange(
                old(self).pos(),
                old(self).pos() + len,
            ),
    {
        if self.data.len() - self.pos < len {
            return None;
        }
        let bytes = slice_subrange(self.data, self.pos, self.pos + len);
        self.pos += len;
        Some(bytes)
    }

    /// Reads three color components.
    pub fn read_rgb(&mut self) -> (value: Option<(u8, u8, u8)>)
        requires
            old(self).wf(),
        ensures
            final(self).moved(*old(self), 3),
            value == if old(self).has(3) {
                Some(rgb_at(old(self).data(), old(self).pos()))
            } else {
                None
            },
    {
        if self.data.len() - self.pos < 3 {
            return None;
        }
        let p = self.pos;
        self.pos += 3;
        Some((self.data[p], self.data[p + 1], self.data[p + 2]))
    }

    /// Reads three color components and an alpha.
    pub fn read_rgba(&mut self) -> (value: Option<(u8, u8, u8, u8)>)
        requires
            old(self).wf(),
        ensures
            final(self).moved(*old(self), 4),
            value == if old(self).has(4) {
                Some(rgba_at(old(self).data(), old(self).pos()))
            } else {
                None
            },
    {
        if self.data.len() - self.pos < 4 {
            return None;
        }
        let p = self.pos;
        self.pos += 4;
        Some((self.data[p], self.data[p + 1], self.data[p + 2], self.data[p + 3]))
    }

    /// Reads two signed numbers.
    pub fn read_pair(&mut self) -> (value: Option<(i32, i32)>)
        requires
            old(self).wf(),
        ensures
            final(self).moved(*old(self), 8),
            value == if old(self).has(8) {
                Some(pair_at(old(self).data(), old(self).pos()))
            } else {
                None
            },
    {
        if self.data.len() - self.pos < 8 {
            return None;
        }
        match (self.read_i32(), self.read_i32()) {
            (Some(a), Some(b)) => Some((a, b)),
            _ => None,
        }
    }

    /// Reads four signed numbers: top, right, bottom, left.
    pub fn read_sides(&mut self) -> (value: Option<(i32, i32, i32, i32)>)
        requires
            old(self).wf(),
        ensures
            final(self).moved(*old(self), 16),
            value == if old(self).has(16) {
                Some(sides_at(old(self).data(), old(self).pos()))
            } else {
                None
            },
    {
        if self.data.len() - self.pos < 16 {
            return None;
        }
        match (self.read_pair(), self.read_pair()) {
            (Some((top, right)), Some((bottom, left))) => Some((top, right, bottom, left)),
            _ => None,
        }
    }

    /// Reads a length-prefixed string. Bytes that are not UTF-8 are repaired,
    /// not refused. Where the bytes run short, the length alone has been read.
    pub fn read_string(&mut self) -> (value: Option<String>)
        requires
            old(self).wf(),
        ensures
            final(self).wf(),
            final(self).data() == old(self).data(),
            match text_at(old(self).data(), old(self).pos()) {
                Some((text, end)) => {
                    &&& value matches Some(s)
                    &&& s@ == text
                    &&& final(self).pos() == end
                },
                None => {
                    &&& value is None
                    &&& final(self).moved(*old(self), 4)
                },
            },
    {
        let len = match self.read_u32() {
            Some(len) => len as usize,
            None => {
                return None;
            },
        };
        match self.read_bytes(len) {
            Some(bytes) => Some(string_from_utf8_lossy(bytes)),
            None => None,
        }
    }
}

} // verus!
