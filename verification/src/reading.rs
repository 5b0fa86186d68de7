//! What a reader finds in the bytes that the builders have written.
//!
//! A reader goes by the layout alone: it takes the tag of an entry from the
//! entry table, the offset or the inline value from the four bytes behind the
//! tag, and the data of the value from the place that the offset names. The
//! proofs here hold the buffers that the builders leave to that reading.

use crate::array::ArrayCursor;
use crate::object::ObjectCursor;
use crate::binary::{
    array_header, data_length, lemma_data_length_width, lemma_read_data_length,
    lemma_read_u16_le, lemma_read_u32_le, object_header, overwrite, read_data_length, read_i32,
    key_data, read_u16, read_u32, u16_le, u32_le, DataType, KEY_LENGTH_SIZE, KEY_OFFSET_SIZE,
    MAX_DATA_LENGTH_SIZE, MAX_KEY_LENGTH, MAX_STRING_LENGTH, NODE_PREFIX_SIZE, VALUE_ENTRY_SIZE,
};
use crate::buffer::Buffer;
use crate::value::ValueView;
use vstd::prelude::*;

verus! {

/// The tag of the entry at `entry_pos`.
pub open spec fn tag_at(bytes: Seq<u8>, entry_pos: int) -> u8 {
    bytes[entry_pos]
}

/// The offset or inline value of the entry at `entry_pos`.
pub open spec fn field_at(bytes: Seq<u8>, entry_pos: int) -> int {
    read_u32(bytes, entry_pos + 1)
}

/// The element count of the node whose count is at `start`.
pub open spec fn count_at(bytes: Seq<u8>, start: int) -> int {
    read_u16(bytes, start)
}

/// The size of the node whose count is at `start`, as its header gives it.
pub open spec fn size_at(bytes: Seq<u8>, start: int) -> int {
    read_i32(bytes, start - 4)
}

/// Whether an entry with this tag holds the offset of data: the entry of an
/// object, an array, a string or a number does, that of a boolean or null does
/// not.
pub open spec fn holds_offset(tag: u8) -> bool {
    1 <= tag <= 4
}

impl ArrayCursor {
    /// The place in the buffer that entry `i` of the array names.
    pub open spec fn data_pos(self, bytes: Seq<u8>, i: int) -> int {
        self.start + field_at(bytes, self.entry_pos(i))
    }

    /// Whether entry `i` of the array names a place in the buffer.
    pub open spec fn has_data(self, bytes: Seq<u8>, i: int) -> bool {
        holds_offset(tag_at(bytes, self.entry_pos(i)))
    }

    /// The entries filled in so far that name a place name one behind the entry
    /// table and within the buffer, and a later entry names a later place.
    pub open spec fn ordered(self, bytes: Seq<u8>) -> bool {
        &&& forall|i: int|
            0 <= i < self.pushed && #[trigger] self.has_data(bytes, i) ==> self.entry_pos(
                self.declared as int,
            ) <= self.data_pos(bytes, i) < bytes.len()
        &&& forall|i: int, j: int|
            0 <= i < j < self.pushed && #[trigger] self.has_data(bytes, i)
                && #[trigger] self.has_data(bytes, j) ==> self.data_pos(bytes, i) < self.data_pos(
                bytes,
                j,
            )
    }
}

/// An array that has just been opened is read as an array with the declared
/// element count, a size not yet given, and all entries empty. Nothing before
/// it in the buffer has changed.
pub proof fn lemma_opened_array(buffer: Buffer, count: u16)
    ensures
        ({
            let bytes = buffer.bytes + array_header(count);
            let cursor = ArrayCursor::opened(buffer, count);
            &&& bytes[cursor.start - 5] == DataType::Array.tag()
            &&& size_at(bytes, cursor.start as int) == 0
            &&& count_at(bytes, cursor.start as int) == count
            &&& bytes.len() == cursor.entry_pos(count as int)
            &&& forall|k: int| cursor.entry_pos(0) <= k < bytes.len() ==> bytes[k] == 0
            &&& bytes.subrange(0, buffer.bytes.len() as int) == buffer.bytes
            &&& cursor.ordered(bytes)
        }),
{
    let bytes = buffer.bytes + array_header(count);
    let cursor = ArrayCursor::opened(buffer, count);
    let at = buffer.bytes.len() as int;
    assert(bytes.subrange(at + 5, at + 7) =~= u16_le(count));
    lemma_read_u16_le(bytes, at + 5, count);
    assert(bytes.subrange(0, at) =~= buffer.bytes);
}

/// Size correctness. In the buffer that `finish` leaves, the size read from
/// the header of the array is the number of bytes from the element count of
/// the array to the end of the buffer, as long as that number is one that the
/// size field can hold. No other byte of the buffer has changed.
pub proof fn lemma_finish_size(cursor: ArrayCursor, buffer: Buffer)
    requires
        cursor.wf(buffer),
        buffer.bytes.len() - cursor.start <= i32::MAX,
    ensures
        ({
            let after = cursor.finish_buffer(buffer).bytes;
            &&& after.len() == buffer.bytes.len()
            &&& size_at(after, cursor.start as int) == buffer.bytes.len() - cursor.start
            &&& forall|k: int|
                0 <= k < after.len() && !(cursor.start - 4 <= k < cursor.start) ==> after[k]
                    == buffer.bytes[k]
        }),
{
    let after = cursor.finish_buffer(buffer).bytes;
    let size = cursor.offset(buffer);
    assert(after.subrange(cursor.start - 4, cursor.start as int) =~= u32_le(size));
    lemma_read_u32_le(after, cursor.start - 4, size);
}

/// Size correctness, for the nodes within. The size read from the header of a
/// node that lies in the data region of an array is changed neither by a push
/// to the array nor by `finish`.
pub proof fn lemma_size_kept(cursor: ArrayCursor, buffer: Buffer, value: ValueView, node: int)
    requires
        cursor.wf(buffer),
        cursor.pushed < cursor.declared,
        cursor.entry_pos(cursor.declared as int) + NODE_PREFIX_SIZE <= node <= buffer.bytes.len(),
    ensures
        size_at(cursor.push_buffer(buffer, value).bytes, node) == size_at(buffer.bytes, node),
        size_at(cursor.finish_buffer(buffer).bytes, node) == size_at(buffer.bytes, node),
{
}

/// Inline values. A push of a boolean or of null changes the five bytes of
/// its entry at most and adds nothing to the buffer; the entry then reads as
/// the value.
pub proof fn lemma_push_inline(cursor: ArrayCursor, buffer: Buffer, value: ValueView)
    requires
        cursor.wf(buffer),
        cursor.pushed < cursor.declared,
        value.data_type().is_inline(),
    ensures
        ({
            let after = cursor.push_buffer(buffer, value).bytes;
            let entry = cursor.entry_pos(cursor.pushed as int);
            &&& after.len() == buffer.bytes.len()
            &&& forall|k: int|
                0 <= k < after.len() && !(entry <= k < entry + 5) ==> after[k] == buffer.bytes[k]
            &&& tag_at(after, entry) == value.data_type().tag()
            &&& !holds_offset(tag_at(after, entry))
            &&& value matches ValueView::Bool(b) ==> field_at(after, entry) == (if b {
                1int
            } else {
                0int
            })
        }),
{
    let after = cursor.push_buffer(buffer, value).bytes;
    let entry = cursor.entry_pos(cursor.pushed as int);
    assert(value.data() =~= Seq::<u8>::empty());
    if let ValueView::Bool(b) = value {
        let field: u32 = if b {
            1
        } else {
            0
        };
        assert(after.subrange(entry + 1, entry + 5) =~= u32_le(field));
        lemma_read_u32_le(after, entry + 1, field);
    }
}

/// Values with data. After a push of an object, an array, a string or a
/// number, the entry reads as the kind of the value and names the place where
/// the buffer ended before the push; the data of the value stands there and
/// is not empty; and of the bytes that were there before, only the five of the
/// entry have changed. This holds as long as the place is one that an offset
/// can name.
pub proof fn lemma_push_data(cursor: ArrayCursor, buffer: Buffer, value: ValueView)
    requires
        cursor.wf(buffer),
        cursor.pushed < cursor.declared,
        !value.data_type().is_inline(),
        buffer.bytes.len() - cursor.start <= u32::MAX,
    ensures
        ({
            let after = cursor.push_buffer(buffer, value).bytes;
            let entry = cursor.entry_pos(cursor.pushed as int);
            let end = buffer.bytes.len() as int;
            &&& after.len() == end + value.data().len()
            &&& value.data().len() > 0
            &&& forall|k: int| 0 <= k < end && !(entry <= k < entry + 5) ==> after[k] == buffer.bytes[k]
            &&& tag_at(after, entry) == value.data_type().tag()
            &&& cursor.has_data(after, cursor.pushed as int)
            &&& cursor.data_pos(after, cursor.pushed as int) == end
            &&& after.subrange(end, after.len() as int) == value.data()
        }),
{
    let after = cursor.push_buffer(buffer, value).bytes;
    let entry = cursor.entry_pos(cursor.pushed as int);
    let end = buffer.bytes.len() as int;
    let offset = cursor.offset(buffer);
    assert(after.subrange(entry + 1, entry + 5) =~= u32_le(offset));
    lemma_read_u32_le(after, entry + 1, offset);
    assert(after.subrange(end, after.len() as int) =~= value.data());
    match value {
        ValueView::String(bytes) => {
            reveal_with_fuel(data_length, 1);
        },
        _ => {},
    }
}

/// Entry ordering. If the entries of an array are ordered, they are ordered
/// after a push, as long as the end of the buffer is a place that an offset
/// can name.
pub proof fn lemma_push_keeps_order(cursor: ArrayCursor, buffer: Buffer, value: ValueView)
    requires
        cursor.wf(buffer),
        cursor.pushed < cursor.declared,
        buffer.bytes.len() - cursor.start <= u32::MAX,
        cursor.ordered(buffer.bytes),
    ensures
        cursor.advanced().ordered(cursor.push_buffer(buffer, value).bytes),
{
    let after = cursor.push_buffer(buffer, value).bytes;
    let next = cursor.advanced();
    let last = cursor.pushed as int;
    if value.data_type().is_inline() {
        lemma_push_inline(cursor, buffer, value);
    } else {
        lemma_push_data(cursor, buffer, value);
    }
    assert forall|i: int| 0 <= i < last implies next.has_data(after, i) == cursor.has_data(
        buffer.bytes,
        i,
    ) && next.data_pos(after, i) == cursor.data_pos(buffer.bytes, i) by {
        lemma_entry_kept(cursor, buffer.bytes, after, i);
    }
    assert forall|i: int| 0 <= i < next.pushed && #[trigger] next.has_data(after, i) implies next.entry_pos(
        next.declared as int,
    ) <= next.data_pos(after, i) < after.len() by {
        if i < last {
            assert(cursor.has_data(buffer.bytes, i));
        }
    }
    assert forall|i: int, j: int|
        0 <= i < j < next.pushed && #[trigger] next.has_data(after, i) && #[trigger] next.has_data(
            after,
            j,
        ) implies next.data_pos(after, i) < next.data_pos(after, j) by {
        assert(cursor.has_data(buffer.bytes, i));
        if j < last {
            assert(cursor.has_data(buffer.bytes, j));
        }
    }
}

/// An entry reads the same in two buffers that agree on its five bytes.
pub proof fn lemma_entry_kept(cursor: ArrayCursor, before: Seq<u8>, after: Seq<u8>, i: int)
    requires
        0 <= i,
        cursor.entry_pos(i) + 5 <= before.len() <= after.len(),
        forall|k: int| cursor.entry_pos(i) <= k < cursor.entry_pos(i) + 5 ==> after[k] == before[k],
    ensures
        cursor.has_data(after, i) == cursor.has_data(before, i),
        cursor.data_pos(after, i) == cursor.data_pos(before, i),
{
}

/// Entry ordering, across the work of nested builders. If the entries of an
/// array are ordered in one buffer, they are ordered in any buffer that is at
/// least as long and has the same entry table.
pub proof fn lemma_order_kept(cursor: ArrayCursor, before: Seq<u8>, after: Seq<u8>)
    requires
        cursor.entry_pos(cursor.declared as int) <= before.len() <= after.len(),
        cursor.pushed <= cursor.declared,
        forall|k: int|
            cursor.entry_pos(0) <= k < cursor.entry_pos(cursor.declared as int) ==> after[k]
                == before[k],
        cursor.ordered(before),
    ensures
        cursor.ordered(after),
{
    assert forall|i: int| 0 <= i < cursor.pushed implies cursor.has_data(after, i)
        == cursor.has_data(before, i) && cursor.data_pos(after, i) == cursor.data_pos(
        before,
        i,
    ) by {
        lemma_entry_kept(cursor, before, after, i);
    }
    assert forall|i: int| 0 <= i < cursor.pushed && #[trigger] cursor.has_data(after, i) implies cursor.entry_pos(
        cursor.declared as int,
    ) <= cursor.data_pos(after, i) < after.len() by {
        assert(cursor.has_data(before, i));
    }
    assert forall|i: int, j: int|
        0 <= i < j < cursor.pushed && #[trigger] cursor.has_data(after, i)
            && #[trigger] cursor.has_data(after, j) implies cursor.data_pos(after, i)
        < cursor.data_pos(after, j) by {
        assert(cursor.has_data(before, i));
        assert(cursor.has_data(before, j));
    }
}

/// Entry ordering, across `finish`. If the entries of an array are ordered,
/// they are ordered in the buffer that `finish` leaves.
pub proof fn lemma_finish_keeps_order(cursor: ArrayCursor, buffer: Buffer)
    requires
        cursor.wf(buffer),
        cursor.ordered(buffer.bytes),
    ensures
        cursor.ordered(cursor.finish_buffer(buffer).bytes),
{
    lemma_order_kept(cursor, buffer.bytes, cursor.finish_buffer(buffer).bytes);
}

/// Entry ordering, by data. The data of a value pushed later begins where the
/// data of a value pushed before it has ended, or behind: if `first` is pushed
/// when the buffer is `buffer`, and `second` is the next value pushed, when the
/// buffer has become `later`, then the place that the entry of `second` names
/// is not before the end of the data of `first`.
pub proof fn lemma_data_follows(
    cursor: ArrayCursor,
    buffer: Buffer,
    first: ValueView,
    later: Buffer,
    second: ValueView,
)
    requires
        cursor.wf(buffer),
        cursor.pushed + 1 < cursor.declared,
        !first.data_type().is_inline(),
        !second.data_type().is_inline(),
        cursor.advanced().wf(later),
        later.bytes.len() >= cursor.push_buffer(buffer, first).bytes.len(),
        later.bytes.len() - cursor.start <= u32::MAX,
    ensures
        ({
            let after = cursor.advanced().push_buffer(later, second).bytes;
            cursor.data_pos(after, cursor.pushed + 1) >= buffer.bytes.len() + first.data().len()
        }),
{
    lemma_push_data(cursor, buffer, first);
    lemma_push_data(cursor.advanced(), later, second);
}

/// Reading a string back. Where the data of a string has been written, a
/// reader that may look at `limit` bytes, which are enough, finds the length
/// of the string in at most four bytes and, behind them, the bytes of the
/// string.
pub proof fn lemma_read_string(bytes: Seq<u8>, pos: int, string: Seq<u8>, limit: nat)
    requires
        0 <= pos,
        string.len() <= MAX_STRING_LENGTH,
        limit >= data_length(string.len()).len(),
        pos + ValueView::String(string).data().len() <= bytes.len(),
        bytes.subrange(pos, pos + ValueView::String(string).data().len()) == ValueView::String(
            string,
        ).data(),
    ensures
        read_data_length(bytes, pos, limit) == Some(
            (string.len(), data_length(string.len()).len()),
        ),
        1 <= data_length(string.len()).len() <= MAX_DATA_LENGTH_SIZE,
        bytes.subrange(
            pos + data_length(string.len()).len(),
            pos + data_length(string.len()).len() + string.len(),
        ) == string,
{
    let data = ValueView::String(string).data();
    let prefix = data_length(string.len());
    let part = bytes.subrange(pos, pos + data.len());
    lemma_data_length_width(string.len());
    assert(bytes.subrange(pos, pos + prefix.len()) =~= prefix) by {
        assert forall|i: int| 0 <= i < prefix.len() implies bytes[pos + i] == prefix[i] by {
            assert(part[i] == bytes[pos + i]);
            assert(data[i] == prefix[i]);
        }
    }
    lemma_read_data_length(bytes, pos, string.len(), limit);
    assert(bytes.subrange(pos + prefix.len(), pos + prefix.len() + string.len()) =~= string) by {
        assert forall|i: int| 0 <= i < string.len() implies bytes[pos + prefix.len() + i]
            == string[i] by {
            assert(part[prefix.len() + i] == bytes[pos + prefix.len() + i]);
            assert(data[prefix.len() + i] == string[i]);
        }
    }
}

/// Reading a number back. Where the data of a number has been written, which
/// is the length of its encoding in one byte and then the encoding, a reader
/// finds the length and, behind it, the encoding, as long as the length is one
/// that a byte can hold.
pub proof fn lemma_read_number(bytes: Seq<u8>, pos: int, encoding: Seq<u8>)
    requires
        0 <= pos,
        pos + 1 + encoding.len() <= bytes.len(),
        encoding.len() <= u8::MAX,
        bytes.subrange(pos, pos + 1 + encoding.len()) == seq![encoding.len() as u8] + encoding,
    ensures
        bytes[pos] == encoding.len(),
        bytes.subrange(pos + 1, pos + 1 + bytes[pos]) == encoding,
{
    let data = seq![encoding.len() as u8] + encoding;
    let part = bytes.subrange(pos, pos + 1 + encoding.len());
    assert(part[0] == bytes[pos]);
    assert(data[0] == encoding.len() as u8);
    assert(bytes.subrange(pos + 1, pos + 1 + encoding.len()) =~= encoding) by {
        assert forall|i: int| 0 <= i < encoding.len() implies bytes[pos + 1 + i] == encoding[i] by {
            assert(part[1 + i] == bytes[pos + 1 + i]);
            assert(data[1 + i] == encoding[i]);
        }
    }
}

/// Size correctness, for objects. In the buffer that `finish` leaves, the size
/// read from the header of the object is the number of bytes from the element
/// count of the object to the end of the buffer, as long as that number is one
/// that the size field can hold. No other byte of the buffer has changed.
pub proof fn lemma_object_finish_size(cursor: ObjectCursor, buffer: Buffer)
    requires
        cursor.wf(buffer),
        buffer.bytes.len() - cursor.start <= i32::MAX,
    ensures
        ({
            let after = cursor.finish_buffer(buffer).bytes;
            &&& after.len() == buffer.bytes.len()
            &&& size_at(after, cursor.start as int) == buffer.bytes.len() - cursor.start
            &&& forall|k: int|
                0 <= k < after.len() && !(cursor.start - 4 <= k < cursor.start) ==> after[k]
                    == buffer.bytes[k]
        }),
{
    let after = cursor.finish_buffer(buffer).bytes;
    let size = cursor.offset(buffer.bytes.len() as int);
    assert(after.subrange(cursor.start - 4, cursor.start as int) =~= u32_le(size));
    lemma_read_u32_le(after, cursor.start - 4, size);
}

/// Size correctness, for the nodes within an object. The size read from the
/// header of a node that lies in the data region of an object is changed
/// neither by a push to the object nor by `finish`.
pub proof fn lemma_object_size_kept(
    cursor: ObjectCursor,
    buffer: Buffer,
    key: Seq<u8>,
    value: ValueView,
    node: int,
)
    requires
        cursor.wf(buffer),
        cursor.pushed < cursor.declared,
        cursor.entry_pos(cursor.declared as int) + NODE_PREFIX_SIZE <= node <= buffer.bytes.len(),
    ensures
        size_at(cursor.push_buffer(buffer, key, value).bytes, node) == size_at(buffer.bytes, node),
        size_at(cursor.finish_buffer(buffer).bytes, node) == size_at(buffer.bytes, node),
{
}

/// An object that has just been opened is read as an object with the declared
/// element count, a size not yet given, and all key offsets and entries
/// empty. Nothing before it in the buffer has changed.
pub proof fn lemma_opened_object(buffer: Buffer, count: u16, sorted: bool)
    ensures
        ({
            let bytes = buffer.bytes + object_header(count);
            let cursor = ObjectCursor::opened(buffer, count, sorted);
            &&& bytes[cursor.start - 5] == DataType::Object.tag()
            &&& size_at(bytes, cursor.start as int) == 0
            &&& count_at(bytes, cursor.start as int) == count
            &&& bytes.len() == cursor.entry_pos(count as int)
            &&& forall|k: int| cursor.key_offset_pos(0) <= k < bytes.len() ==> bytes[k] == 0
            &&& bytes.subrange(0, buffer.bytes.len() as int) == buffer.bytes
        }),
{
    let bytes = buffer.bytes + object_header(count);
    let at = buffer.bytes.len() as int;
    assert(bytes.subrange(at + 5, at + 7) =~= u16_le(count));
    lemma_read_u16_le(bytes, at + 5, count);
    assert(bytes.subrange(0, at) =~= buffer.bytes);
}

/// Elements of objects, the bytes. A push of a value under a key adds the key
/// and the data of the value to the buffer, and of the bytes that were there
/// before it changes only those of the next key offset and of the next entry.
#[verifier::rlimit(50)]
pub proof fn lemma_object_push_frame(
    cursor: ObjectCursor,
    buffer: Buffer,
    key: Seq<u8>,
    value: ValueView,
)
    requires
        cursor.wf(buffer),
        cursor.pushed < cursor.declared,
    ensures
        ({
            let after = cursor.push_buffer(buffer, key, value).bytes;
            let key_offset = cursor.key_offset_pos(cursor.pushed as int);
            let entry = cursor.entry_pos(cursor.pushed as int);
            let end = buffer.bytes.len() as int;
            &&& after.len() == end + KEY_LENGTH_SIZE + key.len() + value.data().len()
            &&& forall|k: int|
                0 <= k < end && !(key_offset <= k < key_offset + KEY_OFFSET_SIZE) && !(entry <= k
                    < entry + VALUE_ENTRY_SIZE) ==> after[k] == buffer.bytes[k]
            &&& after.subrange(key_offset, key_offset + KEY_OFFSET_SIZE) == u32_le(
                cursor.offset(end),
            )
            &&& after.subrange(entry, entry + value.entry(0).len()) == value.entry(
                cursor.offset(end + KEY_LENGTH_SIZE + key.len()),
            )
            &&& after.subrange(end, end + KEY_LENGTH_SIZE + key.len()) == key_data(key)
            &&& after.subrange(end + KEY_LENGTH_SIZE + key.len(), after.len() as int)
                == value.data()
        }),
{
    let after = cursor.push_buffer(buffer, key, value).bytes;
    let key_offset = cursor.key_offset_pos(cursor.pushed as int);
    let entry = cursor.entry_pos(cursor.pushed as int);
    let end = buffer.bytes.len() as int;
    let patched = overwrite(buffer.bytes, key_offset, u32_le(cursor.offset(end)));
    let field = value.entry(cursor.offset(end + KEY_LENGTH_SIZE + key.len()));
    let tabled = overwrite(patched, entry, field);
    assert(after == tabled + key_data(key) + value.data());
    assert(field.len() == value.entry(0).len());
    assert(after.subrange(key_offset, key_offset + KEY_OFFSET_SIZE) =~= u32_le(cursor.offset(end)));
    assert(after.subrange(entry, entry + field.len()) =~= field);
    assert(after.subrange(end, end + KEY_LENGTH_SIZE + key.len()) =~= key_data(key));
    assert(after.subrange(end + KEY_LENGTH_SIZE + key.len(), after.len() as int) =~= value.data());
}

/// Elements of objects, the key. After a push of a value under a key that is
/// not too long, the next key offset names the place where the buffer ended
/// before the push, and the key stands there: its length in two bytes, then
/// its bytes. The key is then the last key of the object. This holds as long
/// as the place is one that an offset can name.
pub proof fn lemma_object_push_key(
    cursor: ObjectCursor,
    buffer: Buffer,
    key: Seq<u8>,
    value: ValueView,
)
    requires
        cursor.wf(buffer),
        cursor.pushed < cursor.declared,
        key.len() <= MAX_KEY_LENGTH,
        buffer.bytes.len() - cursor.start <= u32::MAX,
    ensures
        ({
            let after = cursor.push_buffer(buffer, key, value);
            let key_offset = cursor.key_offset_pos(cursor.pushed as int);
            let end = buffer.bytes.len() as int;
            &&& cursor.start + read_u32(after.bytes, key_offset) == end
            &&& read_u16(after.bytes, end) == key.len()
            &&& after.bytes.subrange(end + KEY_LENGTH_SIZE, end + KEY_LENGTH_SIZE + key.len())
                == key
            &&& cursor.advanced(buffer, key).last_key(after) == key
        }),
{
    let after = cursor.push_buffer(buffer, key, value);
    let key_offset = cursor.key_offset_pos(cursor.pushed as int);
    let end = buffer.bytes.len() as int;
    let written = after.bytes.subrange(end, end + KEY_LENGTH_SIZE + key.len());
    lemma_object_push_frame(cursor, buffer, key, value);
    lemma_read_u32_le(after.bytes, key_offset, cursor.offset(end));
    assert(after.bytes.subrange(end, end + 2) =~= u16_le(key.len() as u16)) by {
        assert(written[0] == after.bytes[end] && written[1] == after.bytes[end + 1]);
        assert(key_data(key)[0] == u16_le(key.len() as u16)[0]);
        assert(key_data(key)[1] == u16_le(key.len() as u16)[1]);
    }
    lemma_read_u16_le(after.bytes, end, key.len() as u16);
    assert(after.bytes.subrange(end + 2, end + 2 + key.len()) =~= key) by {
        assert forall|i: int| 0 <= i < key.len() implies after.bytes[end + 2 + i] == key[i] by {
            assert(written[2 + i] == after.bytes[end + 2 + i]);
            assert(key_data(key)[2 + i] == key[i]);
        }
    }
}

/// Elements of objects, the value. After a push of a value under a key, the
/// next entry reads as the kind of the value. Unless the value is a boolean or
/// null, the entry names the place behind the key, and the data of the value
/// stands there; a boolean stands in the entry itself. This holds as long as
/// the place is one that an offset can name.
#[verifier::rlimit(50)]
pub proof fn lemma_object_push_value(
    cursor: ObjectCursor,
    buffer: Buffer,
    key: Seq<u8>,
    value: ValueView,
)
    requires
        cursor.wf(buffer),
        cursor.pushed < cursor.declared,
        buffer.bytes.len() + KEY_LENGTH_SIZE + key.len() - cursor.start <= u32::MAX,
    ensures
        ({
            let after = cursor.push_buffer(buffer, key, value).bytes;
            let entry = cursor.entry_pos(cursor.pushed as int);
            let place = buffer.bytes.len() + KEY_LENGTH_SIZE + key.len();
            &&& tag_at(after, entry) == value.data_type().tag()
            &&& !value.data_type().is_inline() ==> cursor.start + field_at(after, entry) == place
            &&& value matches ValueView::Bool(b) ==> field_at(after, entry) == (if b {
                1int
            } else {
                0int
            })
            &&& after.subrange(place, after.len() as int) == value.data()
        }),
{
    let after = cursor.push_buffer(buffer, key, value).bytes;
    let entry = cursor.entry_pos(cursor.pushed as int);
    let place = buffer.bytes.len() + KEY_LENGTH_SIZE + key.len();
    let written = after.subrange(entry, entry + value.entry(0).len());
    lemma_object_push_frame(cursor, buffer, key, value);
    assert(written[0] == after[entry]);
    match value {
        ValueView::Null => {},
        ValueView::Bool(b) => {
            let field: u32 = if b {
                1
            } else {
                0
            };
            assert(after.subrange(entry + 1, entry + 5) =~= u32_le(field)) by {
                assert forall|i: int| 0 <= i < 4 implies after[entry + 1 + i] == u32_le(field)[i] by {
                    assert(written[1 + i] == after[entry + 1 + i]);
                }
            }
            lemma_read_u32_le(after, entry + 1, field);
        },
        _ => {
            let field = cursor.offset(place);
            assert(after.subrange(entry + 1, entry + 5) =~= u32_le(field)) by {
                assert forall|i: int| 0 <= i < 4 implies after[entry + 1 + i] == u32_le(field)[i] by {
                    assert(written[1 + i] == after[entry + 1 + i]);
                }
            }
            lemma_read_u32_le(after, entry + 1, field);
        },
    }
}

} // verus!
