//! The buffer that the builders of one document share, and the writes that
//! they make to it.

use crate::binary::{
    data_length, key_data, key_precedes, overwrite, u16_le, u32_le, zeros, DataType,
    MAX_KEY_LENGTH,
};
use crate::number::Number;
use std::collections::TryReserveError;
use vstd::prelude::*;
use vstd::string::*;

verus! {

/// The room that a builder asks for when it makes a buffer of its own.
pub const DEFAULT_SIZE: usize = 128;

/// The bytes of a document under construction together with the number of
/// nodes that are open in it.
///
/// Every builder that writes to the buffer remembers the depth at which it was
/// opened. It may write only while the depth is still that one, which is to
/// say while no builder that was opened after it is unfinished.
#[derive(Debug)]
pub struct BytesWrapper {
    bytes: Vec<u8>,
    depth: usize,
}

/// What a [`BytesWrapper`] holds.
pub struct Buffer {
    /// The bytes written so far.
    pub bytes: Seq<u8>,
    /// The number of open nodes.
    pub depth: nat,
}

impl Buffer {
    /// Every open node has written at least one byte, and the bytes are no
    /// more than a machine can hold.
    pub open spec fn wf(self) -> bool {
        self.depth <= self.bytes.len() <= usize::MAX
    }

    /// This buffer with `data` written behind its bytes.
    pub open spec fn append(self, data: Seq<u8>) -> Buffer {
        Buffer { bytes: self.bytes + data, ..self }
    }

    /// This buffer with the bytes from `pos` on replaced by those of `patch`.
    pub open spec fn patch(self, pos: int, patch: Seq<u8>) -> Buffer {
        Buffer { bytes: overwrite(self.bytes, pos, patch), ..self }
    }
}

impl View for BytesWrapper {
    type V = Buffer;

    closed spec fn view(&self) -> Buffer {
        Buffer { bytes: self.bytes@, depth: self.depth as nat }
    }
}

impl BytesWrapper {
    /// Wraps `bytes`, behind which a document is to be written, with no node
    /// open.
    pub fn new(bytes: Vec<u8>) -> (r: BytesWrapper)
        ensures
            r@ == (Buffer { bytes: bytes@, depth: 0 }),
            r@.wf(),
    {
        let wrapper = BytesWrapper { bytes, depth: 0 };
        proof {
            wrapper.lemma_len_fits();
        }
        wrapper
    }

    /// The bytes of a buffer are no more than a machine can hold.
    pub proof fn lemma_len_fits(&self)
        ensures
            self@.bytes.len() <= usize::MAX,
    {
        assert(self.bytes.len() == self.bytes@.len());
    }

    /// The number of bytes in the buffer.
    pub fn len(&self) -> (n: usize)
        ensures
            n == self@.bytes.len(),
    {
        self.bytes.len()
    }

    /// The number of open nodes.
    pub fn depth(&self) -> (d: usize)
        ensures
            d == self@.depth,
    {
        self.depth
    }

    /// The bytes in the buffer.
    pub fn as_bytes(&self) -> (b: &[u8])
        ensures
            b@ == self@.bytes,
    {
        self.bytes.as_slice()
    }

    /// Gives up the bytes in the buffer.
    pub fn into_bytes(self) -> (b: Vec<u8>)
        ensures
            b@ == self@.bytes,
    {
        self.bytes
    }

    /// Asks the buffer for room for `additional` more bytes. Whatever the
    /// answer, the bytes and the depth stay as they are. Room for no bytes is
    /// not asked for, and the answer is `Ok`.
    pub fn try_reserve(&mut self, additional: usize) -> (r: Result<(), TryReserveError>)
        ensures
            final(self)@ == old(self)@,
            additional == 0 ==> r is Ok,
    {
        if additional == 0 {
            Ok(())
        } else {
            self.bytes.try_reserve(additional)
        }
    }

    /// Counts one more open node.
    pub(crate) fn enter(&mut self)
        requires
            old(self)@.depth < old(self)@.bytes.len(),
        ensures
            final(self)@ == (Buffer { depth: old(self)@.depth + 1, ..old(self)@ }),
    {
        assert(self.bytes.len() == self.bytes@.len());
        self.depth = self.depth + 1;
    }

    /// Counts one open node less.
    pub(crate) fn leave(&mut self)
        requires
            old(self)@.depth > 0,
        ensures
            final(self)@ == (Buffer { depth: (old(self)@.depth - 1) as nat, ..old(self)@ }),
    {
        self.depth = self.depth - 1;
    }

    /// Appends one byte.
    pub(crate) fn push_u8(&mut self, b: u8)
        ensures
            final(self)@ == old(self)@.append(seq![b]),
    {
        self.bytes.push(b);
        assert(self.bytes@ =~= old(self).bytes@ + seq![b]);
    }

    /// Appends `n` zero bytes.
    pub(crate) fn push_zeros(&mut self, n: usize)
        ensures
            final(self)@ == old(self)@.append(zeros(n as nat)),
    {
        let mut i: usize = 0;
        while i < n
            invariant
                i <= n,
                self.depth == old(self).depth,
                self.bytes@ == old(self).bytes@ + zeros(i as nat),
            decreases n - i,
        {
            self.bytes.push(0u8);
            i = i + 1;
            assert(self.bytes@ =~= old(self).bytes@ + zeros(i as nat));
        }
    }

    /// Appends the tag of `data_type`.
    pub(crate) fn push_data_type(&mut self, data_type: DataType)
        ensures
            final(self)@ == old(self)@.append(seq![data_type.tag()]),
    {
        self.push_u8(data_type.tag());
    }

    /// Appends `v`, low byte first.
    pub(crate) fn push_u16(&mut self, v: u16)
        ensures
            final(self)@ == old(self)@.append(u16_le(v)),
    {
        self.bytes.push((v % 256) as u8);
        self.bytes.push((v / 256) as u8);
        assert(self.bytes@ =~= old(self).bytes@ + u16_le(v));
    }

    /// Replaces the byte at `pos` by the tag of `data_type`.
    pub(crate) fn write_data_type_by_pos(&mut self, data_type: DataType, pos: usize)
        requires
            pos < old(self)@.bytes.len(),
        ensures
            final(self)@ == old(self)@.patch(pos as int, seq![data_type.tag()]),
    {
        self.bytes.set(pos, data_type.tag());
        assert(self.bytes@ =~= overwrite(old(self).bytes@, pos as int, seq![data_type.tag()]));
    }

    /// Replaces the four bytes at `pos` by `v`, low byte first.
    pub(crate) fn write_u32(&mut self, v: u32, pos: usize)
        requires
            pos + 4 <= old(self)@.bytes.len(),
        ensures
            final(self)@ == old(self)@.patch(pos as int, u32_le(v)),
    {
        assert(self.bytes.len() == self.bytes@.len());
        self.bytes.set(pos, (v % 256) as u8);
        self.bytes.set(pos + 1, (v / 256 % 256) as u8);
        self.bytes.set(pos + 2, (v / 65536 % 256) as u8);
        self.bytes.set(pos + 3, (v / 16777216) as u8);
        assert(self.bytes@ =~= overwrite(old(self).bytes@, pos as int, u32_le(v)));
    }

    /// Appends the length prefix of a string of `len` bytes.
    pub(crate) fn push_data_length(&mut self, len: usize)
        ensures
            final(self)@ == old(self)@.append(data_length(len as nat)),
    {
        let mut rest: usize = len;
        while rest >= 128
            invariant
                self.depth == old(self).depth,
                self.bytes@ + data_length(rest as nat) == old(self).bytes@ + data_length(
                    len as nat,
                ),
            decreases rest,
        {
            let ghost before = self.bytes@;
            self.bytes.push((rest % 128 + 128) as u8);
            assert(self.bytes@ + data_length((rest / 128) as nat) =~= before + data_length(
                rest as nat,
            ));
            rest = rest / 128;
        }
        let ghost before = self.bytes@;
        self.bytes.push(rest as u8);
        assert(self.bytes@ =~= before + data_length(rest as nat));
    }

    /// Appends a string: the prefix that gives its length, then its bytes.
    pub(crate) fn push_string(&mut self, value: &str)
        ensures
            final(self)@ == old(self)@.append(
                data_length(value.spec_bytes().len()) + value.spec_bytes(),
            ),
    {
        let bytes = value.as_bytes();
        self.push_data_length(bytes.len());
        let ghost before = self.bytes@;
        self.bytes.extend_from_slice(bytes);
        assert(self.bytes@ =~= before + value.spec_bytes());
        assert(self.bytes@ =~= old(self).bytes@ + (data_length(value.spec_bytes().len())
            + value.spec_bytes()));
    }

    /// Appends a key: its length in two bytes, then its bytes.
    pub(crate) fn push_key(&mut self, key: &str)
        requires
            key.spec_bytes().len() <= MAX_KEY_LENGTH,
        ensures
            final(self)@ == old(self)@.append(key_data(key.spec_bytes())),
    {
        let bytes = key.as_bytes();
        self.push_u16(bytes.len() as u16);
        let ghost before = self.bytes@;
        self.bytes.extend_from_slice(bytes);
        assert(self.bytes@ =~= before + key.spec_bytes());
        assert(self.bytes@ =~= old(self).bytes@ + key_data(key.spec_bytes()));
    }

    /// Whether the `len` bytes at `pos`, taken as a key, come before `key`.
    pub(crate) fn precedes(&self, pos: usize, len: usize, key: &[u8]) -> (r: bool)
        requires
            pos + len <= self@.bytes.len(),
        ensures
            r == key_precedes(self@.bytes.subrange(pos as int, pos + len), key@),
    {
        let ghost a = self.bytes@.subrange(pos as int, pos + len);
        proof {
            assert(a.skip(0) =~= a);
            assert(key@.skip(0) =~= key@);
            assert(self.bytes.len() == self.bytes@.len());
        }
        let mut i: usize = 0;
        while i < len && i < key.len()
            invariant
                i <= len,
                i <= key.len(),
                pos + len <= self.bytes@.len() <= usize::MAX,
                a == self.bytes@.subrange(pos as int, pos + len),
                key_precedes(a, key@) == key_precedes(a.skip(i as int), key@.skip(i as int)),
            decreases len - i,
        {
            let x = self.bytes[pos + i];
            let y = key[i];
            proof {
                let ai = a.skip(i as int);
                let bi = key@.skip(i as int);
                assert(ai[0] == x && bi[0] == y);
                assert(ai.drop_first() =~= a.skip(i + 1));
                assert(bi.drop_first() =~= key@.skip(i + 1));
            }
            if x != y {
                return x < y;
            }
            i = i + 1;
        }
        len < key.len()
    }

    /// Appends a number: the length of its encoding in one byte, then the
    /// encoding.
    pub(crate) fn push_number(&mut self, value: Number)
        ensures
            final(self)@ == old(self)@.append(value@.data()),
    {
        let encoding = value.encode();
        self.bytes.push(encoding.len() as u8);
        let ghost before = self.bytes@;
        self.bytes.extend_from_slice(encoding.as_slice());
        assert(self.bytes@ =~= before + encoding@);
        assert(self.bytes@ =~= old(self).bytes@ + value@.data());
    }
}

} // verus!
