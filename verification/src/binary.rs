//! The byte layout of a document.
//!
//! ```text
//! Array  := Tag(1) Size(4) Count(2) Entry[Count] Data
//! Object := Tag(1) Size(4) Count(2) KeyOffset[Count] Entry[Count] Data
//! Entry  := Tag(1) OffsetOrInline(4)
//! Key    := Length(2) Bytes
//! String := Length(1 to 4) Bytes
//! Number := Length(1) Bytes
//! ```
//!
//! Every multi-byte field is little-endian. `Size` is a signed 32-bit integer
//! and counts the bytes from the first byte of `Count` to the end of the node.
//! Offsets are unsigned 32-bit integers and are measured from the first byte
//! of the `Count` field of the node whose table holds them. The length of a
//! string is written seven bits to a byte, low bits first, with the high bit
//! of a byte set when another byte follows.

use vstd::prelude::*;

verus! {

/// Width of a type tag.
pub const DATA_TYPE_SIZE: usize = 1;

/// Width of the size field of an array.
pub const ARRAY_SIZE: usize = 4;

/// Width of the size field of an object.
pub const OBJECT_SIZE: usize = 4;

/// Width of the element count of a node.
pub const ELEMENT_COUNT_SIZE: usize = 2;

/// Width of what stands before the element count of a node: its tag and its
/// size.
pub const NODE_PREFIX_SIZE: usize = DATA_TYPE_SIZE + ARRAY_SIZE;

/// Width of one value entry: a type tag and an offset or inline value.
pub const VALUE_ENTRY_SIZE: usize = 5;

/// Width of one key offset in the table of an object.
pub const KEY_OFFSET_SIZE: usize = 4;

/// Width of the length that precedes the bytes of a key.
pub const KEY_LENGTH_SIZE: usize = 2;

/// Largest width of the length that precedes the bytes of a string.
pub const MAX_DATA_LENGTH_SIZE: usize = 4;

/// Width of the length that precedes the bytes of a number.
pub const NUMBER_LENGTH_SIZE: usize = 1;

/// Longest string, in bytes, whose length fits in `MAX_DATA_LENGTH_SIZE` bytes.
pub const MAX_STRING_LENGTH: usize = 0x0fff_ffff;

/// Longest key, in bytes, whose length fits in `KEY_LENGTH_SIZE` bytes.
pub const MAX_KEY_LENGTH: usize = 0xffff;

/// The kind of a value, as its type tag records it.
#[derive(Clone, Copy, Debug, PartialEq, Eq, Structural)]
pub enum DataType {
    Object,
    Array,
    String,
    Number,
    Bool,
    Null,
}

impl DataType {
    /// The byte that stands for this kind in a document.
    pub open spec fn spec_tag(self) -> u8 {
        match self {
            DataType::Object => 1,
            DataType::Array => 2,
            DataType::String => 3,
            DataType::Number => 4,
            DataType::Bool => 5,
            DataType::Null => 6,
        }
    }

    /// The byte that stands for this kind in a document.
    #[verifier::when_used_as_spec(spec_tag)]
    pub fn tag(self) -> (t: u8)
        ensures
            t == self.spec_tag(),
    {
        match self {
            DataType::Object => 1,
            DataType::Array => 2,
            DataType::String => 3,
            DataType::Number => 4,
            DataType::Bool => 5,
            DataType::Null => 6,
        }
    }

    /// Whether a value of this kind lives in its entry alone, with no bytes in
    /// the data region.
    pub open spec fn spec_is_inline(self) -> bool {
        self == DataType::Bool || self == DataType::Null
    }

    /// Whether a value of this kind lives in its entry alone, with no bytes in
    /// the data region.
    #[verifier::when_used_as_spec(spec_is_inline)]
    pub fn is_inline(self) -> (b: bool)
        ensures
            b == self.spec_is_inline(),
    {
        match self {
            DataType::Bool => true,
            DataType::Null => true,
            _ => false,
        }
    }
}

/// `n` zero bytes.
pub open spec fn zeros(n: nat) -> Seq<u8> {
    Seq::new(n, |i: int| 0u8)
}

/// The two bytes of `v`, low byte first.
pub open spec fn u16_le(v: u16) -> Seq<u8> {
    seq![(v % 256) as u8, (v / 256) as u8]
}

/// The four bytes of `v`, low byte first.
pub open spec fn u32_le(v: u32) -> Seq<u8> {
    seq![
        (v % 256) as u8,
        (v / 256 % 256) as u8,
        (v / 65536 % 256) as u8,
        (v / 16777216) as u8,
    ]
}

/// The number that the two bytes at `pos` spell, low byte first.
pub open spec fn read_u16(buf: Seq<u8>, pos: int) -> int {
    buf[pos] + 256 * buf[pos + 1]
}

/// The number that the four bytes at `pos` spell, low byte first.
pub open spec fn read_u32(buf: Seq<u8>, pos: int) -> int {
    buf[pos] + 256 * buf[pos + 1] + 65536 * buf[pos + 2] + 16777216 * buf[pos + 3]
}

/// The number that the four bytes at `pos` spell as a signed integer in two's
/// complement, low byte first.
pub open spec fn read_i32(buf: Seq<u8>, pos: int) -> int {
    let u = read_u32(buf, pos);
    if u < 0x8000_0000 {
        u
    } else {
        u - 0x1_0000_0000
    }
}

/// `buf` with the bytes from `pos` on replaced by those of `patch`.
pub open spec fn overwrite(buf: Seq<u8>, pos: int, patch: Seq<u8>) -> Seq<u8> {
    Seq::new(
        buf.len(),
        |i: int|
            if pos <= i < pos + patch.len() {
                patch[i - pos]
            } else {
                buf[i]
            },
    )
}

/// The length prefix of a string of `len` bytes: seven bits to a byte, low
/// bits first, every byte but the last with its high bit set.
pub open spec fn data_length(len: nat) -> Seq<u8>
    decreases len,
{
    if len < 128 {
        seq![len as u8]
    } else {
        seq![(len % 128 + 128) as u8] + data_length(len / 128)
    }
}

/// The length that a prefix written by `data_length` spells when it starts at
/// `pos`, and the number of bytes that the prefix takes, if the prefix ends
/// within `limit` bytes and within `buf`.
pub open spec fn read_data_length(buf: Seq<u8>, pos: int, limit: nat) -> Option<(nat, nat)>
    decreases limit,
{
    if limit == 0 || pos < 0 || pos >= buf.len() {
        None
    } else if buf[pos] < 128 {
        Some((buf[pos] as nat, 1))
    } else {
        match read_data_length(buf, pos + 1, (limit - 1) as nat) {
            Some((rest, width)) => Some((((buf[pos] - 128) + 128 * rest) as nat, width + 1)),
            None => None,
        }
    }
}

/// The bytes that stand for a key in a document: its length in two bytes, then
/// its bytes.
pub open spec fn key_data(key: Seq<u8>) -> Seq<u8> {
    u16_le(key.len() as u16) + key
}

/// The bytes with which an array of `count` elements begins: its tag, the
/// bytes kept for its size, its element count, and one empty entry for each
/// element.
pub open spec fn array_header(count: u16) -> Seq<u8> {
    seq![DataType::Array.tag()] + zeros(ARRAY_SIZE as nat) + u16_le(count) + zeros(
        (VALUE_ENTRY_SIZE * count) as nat,
    )
}

/// The bytes with which an object of `count` elements begins: its tag, the
/// bytes kept for its size, its element count, and one empty key offset and one
/// empty entry for each element.
pub open spec fn object_header(count: u16) -> Seq<u8> {
    seq![DataType::Object.tag()] + zeros(OBJECT_SIZE as nat) + u16_le(count) + zeros(
        (KEY_OFFSET_SIZE * count) as nat,
    ) + zeros((VALUE_ENTRY_SIZE * count) as nat)
}

/// Whether key `a` comes before key `b`: at the first byte in which they
/// differ `a` has the smaller one, or `a` ends first.
pub open spec fn key_precedes(a: Seq<u8>, b: Seq<u8>) -> bool
    decreases a.len(),
{
    if a.len() == 0 {
        b.len() > 0
    } else if b.len() == 0 {
        false
    } else if a[0] == b[0] {
        key_precedes(a.drop_first(), b.drop_first())
    } else {
        a[0] < b[0]
    }
}

/// Reading back the bytes of `u16_le` gives the number again.
pub proof fn lemma_read_u16_le(buf: Seq<u8>, pos: int, v: u16)
    requires
        0 <= pos,
        pos + 2 <= buf.len(),
        buf.subrange(pos, pos + 2) == u16_le(v),
    ensures
        read_u16(buf, pos) == v,
{
    let s = buf.subrange(pos, pos + 2);
    assert(s[0] == buf[pos] && s[1] == buf[pos + 1]);
    assert(s[0] == (v % 256) as u8 && s[1] == (v / 256) as u8);
}

/// Reading back the bytes of `u32_le` gives the number again.
pub proof fn lemma_read_u32_le(buf: Seq<u8>, pos: int, v: u32)
    requires
        0 <= pos,
        pos + 4 <= buf.len(),
        buf.subrange(pos, pos + 4) == u32_le(v),
    ensures
        read_u32(buf, pos) == v,
{
    let s = buf.subrange(pos, pos + 4);
    assert(s[0] == buf[pos] && s[1] == buf[pos + 1] && s[2] == buf[pos + 2] && s[3] == buf[pos
        + 3]);
    assert(s[0] == (v % 256) as u8);
    assert(s[1] == (v / 256 % 256) as u8);
    assert(s[2] == (v / 65536 % 256) as u8);
    assert(s[3] == (v / 16777216) as u8);
}

/// A length of at most `MAX_STRING_LENGTH` takes between one and
/// `MAX_DATA_LENGTH_SIZE` bytes.
pub proof fn lemma_data_length_width(len: nat)
    requires
        len <= MAX_STRING_LENGTH,
    ensures
        1 <= data_length(len).len() <= MAX_DATA_LENGTH_SIZE,
{
    reveal_with_fuel(data_length, 5);
}

/// Reading back a length prefix gives the length and the width of the prefix.
pub proof fn lemma_read_data_length(buf: Seq<u8>, pos: int, len: nat, limit: nat)
    requires
        0 <= pos,
        pos + data_length(len).len() <= buf.len(),
        buf.subrange(pos, pos + data_length(len).len()) == data_length(len),
        limit >= data_length(len).len(),
    ensures
        read_data_length(buf, pos, limit) == Some((len, data_length(len).len())),
    decreases len,
{
    let enc = data_length(len);
    let s = buf.subrange(pos, pos + enc.len());
    assert(s[0] == buf[pos]);
    if len >= 128 {
        let rest = data_length(len / 128);
        assert(enc == seq![(len % 128 + 128) as u8] + rest);
        assert(buf.subrange(pos + 1, pos + 1 + rest.len()) =~= rest) by {
            assert forall|i: int| 0 <= i < rest.len() implies buf[pos + 1 + i] == rest[i] by {
                assert(s[i + 1] == buf[pos + 1 + i]);
                assert(enc[i + 1] == rest[i]);
            }
        }
        lemma_read_data_length(buf, pos + 1, len / 128, (limit - 1) as nat);
    }
}

} // verus!
