//! Whole documents.
//!
//! [`read_node`] is a reader of documents, written as a specification: it goes
//! by the layout alone, looks at no byte outside the node that it reads, and
//! checks every size and every offset on its way. [`build`] is the run of the
//! builders on a value that is known as a whole. The proofs here show that the
//! reader finds in the document of a value the value that the builders were
//! given.

use crate::array::ArrayCursor;
use crate::binary::{
    array_header, key_data, key_precedes, lemma_data_length_width, lemma_read_u16_le,
    object_header, read_data_length, read_u16, read_u32, u16_le, DataType, ELEMENT_COUNT_SIZE,
    KEY_LENGTH_SIZE, KEY_OFFSET_SIZE, MAX_DATA_LENGTH_SIZE, MAX_KEY_LENGTH, MAX_STRING_LENGTH,
    NODE_PREFIX_SIZE, VALUE_ENTRY_SIZE,
};
use crate::buffer::Buffer;
use crate::number::NumberView;
use crate::object::ObjectCursor;
use crate::reading::{
    count_at, field_at, lemma_finish_size, lemma_object_finish_size, lemma_object_push_frame,
    lemma_object_push_key, lemma_object_push_value, lemma_push_data, lemma_push_inline,
    lemma_read_string, size_at, tag_at,
};
use crate::value::ValueView;
use vstd::prelude::*;

verus! {

/// A value as a reader finds it. A number is found as the bytes of its
/// encoding, an element of an object as its key and its value.
#[verifier::ext_equal]
pub enum Found {
    Object(Seq<(Seq<u8>, Found)>),
    Array(Seq<Found>),
    String(Seq<u8>),
    Number(Seq<u8>),
    Bool(bool),
    Null,
}

/// The place behind the entry table of the array of `count` elements whose
/// element count is at `start`.
pub open spec fn array_data_pos(start: int, count: int) -> int {
    start + ELEMENT_COUNT_SIZE + VALUE_ENTRY_SIZE * count
}

/// The place behind the tables of the object of `count` elements whose
/// element count is at `start`.
pub open spec fn object_data_pos(start: int, count: int) -> int {
    start + ELEMENT_COUNT_SIZE + (KEY_OFFSET_SIZE + VALUE_ENTRY_SIZE) * count
}

/// What a reader finds in the node whose tag is at `at`, if it is an array or
/// an object in good order, and the place where the node ends.
pub open spec fn read_node(bytes: Seq<u8>, at: int) -> Option<(Found, int)>
    decreases bytes.len() - at, 2int, 0int,
{
    let start = at + NODE_PREFIX_SIZE;
    if 0 <= at && start + ELEMENT_COUNT_SIZE <= bytes.len() {
        let count = count_at(bytes, start);
        let end = start + size_at(bytes, start);
        if bytes[at] == DataType::Array.tag() && array_data_pos(start, count) <= end
            <= bytes.len() {
            match read_entries(bytes, start, count, end, count) {
                Some(items) => Some((Found::Array(items), end)),
                None => None,
            }
        } else if bytes[at] == DataType::Object.tag() && object_data_pos(start, count) <= end
            <= bytes.len() {
            match read_members(bytes, start, count, end, count) {
                Some(members) => Some((Found::Object(members), end)),
                None => None,
            }
        } else {
            None
        }
    } else {
        None
    }
}

/// What a reader finds in the first `n` entries of the array of `count`
/// elements whose element count is at `start` and which ends at `end`.
pub open spec fn read_entries(bytes: Seq<u8>, start: int, count: int, end: int, n: int) -> Option<
    Seq<Found>,
>
    decreases bytes.len() - (start - NODE_PREFIX_SIZE), 1int, n,
{
    if n <= 0 {
        Some(Seq::empty())
    } else {
        match (
            read_entries(bytes, start, count, end, n - 1),
            read_value(
                bytes,
                start,
                array_data_pos(start, count),
                end,
                array_data_pos(start, n - 1),
            ),
        ) {
            (Some(items), Some(item)) => Some(items.push(item)),
            _ => None,
        }
    }
}

/// What a reader finds in the first `n` elements of the object of `count`
/// elements whose element count is at `start` and which ends at `end`.
pub open spec fn read_members(bytes: Seq<u8>, start: int, count: int, end: int, n: int) -> Option<
    Seq<(Seq<u8>, Found)>,
>
    decreases bytes.len() - (start - NODE_PREFIX_SIZE), 1int, n,
{
    if n <= 0 {
        Some(Seq::empty())
    } else {
        match (
            read_members(bytes, start, count, end, n - 1),
            read_key(bytes, start, count, end, n - 1),
            read_value(
                bytes,
                start,
                object_data_pos(start, count),
                end,
                start + ELEMENT_COUNT_SIZE + KEY_OFFSET_SIZE * count + VALUE_ENTRY_SIZE * (n - 1),
            ),
        ) {
            (Some(members), Some(key), Some(value)) => Some(members.push((key, value))),
            _ => None,
        }
    }
}

/// The key that a reader finds for element `i` of the object of `count`
/// elements whose element count is at `start` and which ends at `end`. The key
/// must lie behind the tables and before the end of the object.
pub open spec fn read_key(bytes: Seq<u8>, start: int, count: int, end: int, i: int) -> Option<
    Seq<u8>,
> {
    let pos = start + read_u32(bytes, start + ELEMENT_COUNT_SIZE + KEY_OFFSET_SIZE * i);
    if object_data_pos(start, count) <= pos && pos + KEY_LENGTH_SIZE <= end <= bytes.len() {
        let len = read_u16(bytes, pos);
        if pos + KEY_LENGTH_SIZE + len <= end {
            Some(bytes.subrange(pos + KEY_LENGTH_SIZE, pos + KEY_LENGTH_SIZE + len))
        } else {
            None
        }
    } else {
        None
    }
}

/// What a reader finds in the entry at `entry` of the node whose element
/// count is at `start`, whose data region begins at `data_pos` and which ends
/// at `end`. The data of a value must lie in the data region.
pub open spec fn read_value(bytes: Seq<u8>, start: int, data_pos: int, end: int, entry: int) -> Option<
    Found,
>
    decreases bytes.len() - (start - NODE_PREFIX_SIZE), 0int, 0int,
{
    let tag = tag_at(bytes, entry);
    let field = field_at(bytes, entry);
    let pos = start + field;
    if tag == DataType::Null.tag() {
        Some(Found::Null)
    } else if tag == DataType::Bool.tag() {
        if field == 0 {
            Some(Found::Bool(false))
        } else if field == 1 {
            Some(Found::Bool(true))
        } else {
            None
        }
    } else if !(start <= data_pos <= pos < end <= bytes.len()) {
        None
    } else if tag == DataType::String.tag() {
        read_string(bytes, pos, end)
    } else if tag == DataType::Number.tag() {
        read_number(bytes, pos, end)
    } else if tag == DataType::Array.tag() || tag == DataType::Object.tag() {
        match read_node(bytes, pos) {
            Some((found, node_end)) if node_end <= end && bytes[pos] == tag => Some(found),
            _ => None,
        }
    } else {
        None
    }
}

/// The string that a reader finds at `pos`, if its length and its bytes lie
/// before `end`.
pub open spec fn read_string(bytes: Seq<u8>, pos: int, end: int) -> Option<Found> {
    let limit = if end - pos < MAX_DATA_LENGTH_SIZE {
        (end - pos) as nat
    } else {
        MAX_DATA_LENGTH_SIZE as nat
    };
    match read_data_length(bytes, pos, limit) {
        Some((len, width)) if pos + width + len <= end => Some(
            Found::String(bytes.subrange(pos + width, pos + width + len)),
        ),
        _ => None,
    }
}

/// The number that a reader finds at `pos`, if its length and its encoding
/// lie before `end`.
pub open spec fn read_number(bytes: Seq<u8>, pos: int, end: int) -> Option<Found> {
    let len = bytes[pos];
    if pos + 1 + len <= end {
        Some(Found::Number(bytes.subrange(pos + 1, pos + 1 + len)))
    } else {
        None
    }
}

/// A value as the builders are given it, with all that it holds. An object is
/// given with its elements, each a key and a value, and with the word whether
/// it is sorted by key.
pub enum Given {
    Object(Seq<(Seq<u8>, Given)>, bool),
    Array(Seq<Given>),
    String(Seq<u8>),
    Number(NumberView),
    Bool(bool),
    Null,
}

impl Given {
    /// The value as one push takes it: an object or an array goes in empty,
    /// with the number of its elements.
    pub open spec fn value(self) -> ValueView {
        match self {
            Given::Object(members, _) => ValueView::Object(members.len() as u16),
            Given::Array(items) => ValueView::Array(items.len() as u16),
            Given::String(bytes) => ValueView::String(bytes),
            Given::Number(n) => ValueView::Number(n),
            Given::Bool(b) => ValueView::Bool(b),
            Given::Null => ValueView::Null,
        }
    }

    /// Whether the builders take the value: no node in it has more elements
    /// than an element count can hold, no string and no key in it is too long,
    /// and the keys of an object that is said to be sorted come one after the
    /// other.
    pub open spec fn fits(self) -> bool
        decreases self,
    {
        match self {
            Given::Object(members, sorted) => {
                &&& members.len() <= u16::MAX
                &&& forall|i: int|
                    0 <= i < members.len() ==> (#[trigger] members[i]).0.len() <= MAX_KEY_LENGTH
                        && members[i].1.fits()
                &&& sorted ==> forall|i: int|
                    0 < i < members.len() ==> key_precedes(
                        members[i - 1].0,
                        (#[trigger] members[i]).0,
                    )
            },
            Given::Array(items) => items.len() <= u16::MAX && forall|i: int|
                0 <= i < items.len() ==> (#[trigger] items[i]).fits(),
            Given::String(bytes) => bytes.len() <= MAX_STRING_LENGTH,
            _ => true,
        }
    }

    /// What a reader is to find: the value itself, and for a number the bytes
    /// of its data that its length byte covers, which are its encoding.
    pub open spec fn found(self) -> Found
        decreases self,
    {
        match self {
            Given::Object(members, _) => Found::Object(
                Seq::new(
                    members.len(),
                    |i: int|
                        if 0 <= i < members.len() {
                            (members[i].0, members[i].1.found())
                        } else {
                            (Seq::empty(), Found::Null)
                        },
                ),
            ),
            Given::Array(items) => Found::Array(
                Seq::new(
                    items.len(),
                    |i: int|
                        if 0 <= i < items.len() {
                            items[i].found()
                        } else {
                            Found::Null
                        },
                ),
            ),
            Given::String(bytes) => Found::String(bytes),
            Given::Number(n) => Found::Number(n.data().subrange(1, 1 + n.data()[0])),
            Given::Bool(b) => Found::Bool(b),
            Given::Null => Found::Null,
        }
    }
}

/// The buffer after all that `given` holds has been pushed and, if it is a
/// node, the node has been finished. The push of `given` itself has made
/// `pushed` of a buffer in which the data of `given` begins where `base` ends.
pub open spec fn complete(given: Given, base: Buffer, pushed: Buffer) -> Buffer
    decreases given, 0nat,
{
    match given {
        Given::Object(members, sorted) => {
            let nested = ObjectCursor::opened(base, members.len() as u16, sorted);
            nested.finish_buffer(push_members(nested, pushed, members, members.len()).1)
        },
        Given::Array(items) => {
            let nested = ArrayCursor::opened(base, items.len() as u16);
            nested.finish_buffer(push_items(nested, pushed, items, items.len()))
        },
        _ => pushed,
    }
}

/// The buffer after the first `n` of `items` have been pushed, one after the
/// other and each with all that it holds, to the array of `cursor`.
pub open spec fn push_items(cursor: ArrayCursor, buffer: Buffer, items: Seq<Given>, n: nat) -> Buffer
    decreases items, n,
{
    if n == 0 || n > items.len() {
        buffer
    } else {
        let before = push_items(cursor, buffer, items, (n - 1) as nat);
        let now = ArrayCursor { pushed: (n - 1) as u16, ..cursor };
        complete(items[n - 1], before, now.push_buffer(before, items[n - 1].value()))
    }
}

/// The cursor and the buffer after the first `n` of `members` have been
/// pushed, one after the other and each with all that it holds, to the object
/// of `cursor`.
pub open spec fn push_members(
    cursor: ObjectCursor,
    buffer: Buffer,
    members: Seq<(Seq<u8>, Given)>,
    n: nat,
) -> (ObjectCursor, Buffer)
    decreases members, n,
{
    if n == 0 || n > members.len() {
        (cursor, buffer)
    } else {
        let (now, before) = push_members(cursor, buffer, members, (n - 1) as nat);
        let (key, given) = members[n - 1];
        (
            now.advanced(before, key),
            complete(
                given,
                before.append(key_data(key)),
                now.push_buffer(before, key, given.value()),
            ),
        )
    }
}

/// The document of an object or an array: what a builder of its own buffer
/// hands over when all that the node holds has been pushed.
pub open spec fn build(given: Given) -> Seq<u8> {
    let empty = Buffer { bytes: Seq::empty(), depth: 0 };
    complete(given, empty, Buffer { bytes: given.value().data(), depth: 1 }).bytes
}

/// Whether `a` and `b` hold the same bytes from `from` up to `to`.
pub open spec fn agree(a: Seq<u8>, b: Seq<u8>, from: int, to: int) -> bool {
    forall|k: int| from <= k < to ==> a[k] == b[k]
}

/// The length of a string is read from the bytes of its prefix alone.
pub proof fn lemma_length_kept(a: Seq<u8>, b: Seq<u8>, pos: int, limit: nat, more: nat)
    requires
        limit <= more,
        read_data_length(a, pos, limit) matches Some((len, width)) && pos + width <= b.len()
            && agree(a, b, pos, pos + width),
    ensures
        read_data_length(b, pos, more) == read_data_length(a, pos, limit),
        read_data_length(a, pos, limit) matches Some((len, width)) && 1 <= width <= limit && pos
            + width <= a.len(),
    decreases limit,
{
    if a[pos] >= 128 {
        lemma_length_kept(a, b, pos + 1, (limit - 1) as nat, (more - 1) as nat);
    }
}

/// A string is read from its own bytes alone, and it is read the same when
/// the node that holds it ends later.
pub proof fn lemma_string_kept(a: Seq<u8>, b: Seq<u8>, pos: int, end: int, later: int)
    requires
        read_string(a, pos, end) is Some,
        0 <= pos < end <= a.len(),
        end <= later <= b.len(),
        agree(a, b, pos, end),
    ensures
        read_string(b, pos, later) == read_string(a, pos, end),
{
    let limit = if end - pos < MAX_DATA_LENGTH_SIZE {
        (end - pos) as nat
    } else {
        MAX_DATA_LENGTH_SIZE as nat
    };
    let more = if later - pos < MAX_DATA_LENGTH_SIZE {
        (later - pos) as nat
    } else {
        MAX_DATA_LENGTH_SIZE as nat
    };
    let (len, width) = read_data_length(a, pos, limit).unwrap();
    lemma_length_kept(a, b, pos, limit, more);
    assert(a.subrange(pos + width, pos + width + len) =~= b.subrange(
        pos + width,
        pos + width + len,
    ));
}

/// A number is read from its own bytes alone, and it is read the same when
/// the node that holds it ends later.
pub proof fn lemma_number_kept(a: Seq<u8>, b: Seq<u8>, pos: int, end: int, later: int)
    requires
        read_number(a, pos, end) is Some,
        0 <= pos < end <= a.len(),
        end <= later <= b.len(),
        agree(a, b, pos, end),
    ensures
        read_number(b, pos, later) == read_number(a, pos, end),
{
    let len = a[pos];
    assert(a.subrange(pos + 1, pos + 1 + len) =~= b.subrange(pos + 1, pos + 1 + len));
}

/// A key is read from its own four bytes in the table and from the data
/// region of its object alone, and it is read the same when the object ends
/// later.
pub proof fn lemma_key_kept(
    a: Seq<u8>,
    b: Seq<u8>,
    start: int,
    count: int,
    end: int,
    later: int,
    i: int,
)
    requires
        read_key(a, start, count, end, i) is Some,
        NODE_PREFIX_SIZE <= start,
        0 <= i < count,
        end <= later <= b.len(),
        agree(
            a,
            b,
            start + ELEMENT_COUNT_SIZE + KEY_OFFSET_SIZE * i,
            start + ELEMENT_COUNT_SIZE + KEY_OFFSET_SIZE * i + KEY_OFFSET_SIZE,
        ),
        agree(a, b, object_data_pos(start, count), end),
    ensures
        read_key(b, start, count, later, i) == read_key(a, start, count, end, i),
{
    let pos = start + read_u32(a, start + ELEMENT_COUNT_SIZE + KEY_OFFSET_SIZE * i);
    let len = read_u16(a, pos);
    assert(a.subrange(pos + KEY_LENGTH_SIZE, pos + KEY_LENGTH_SIZE + len) =~= b.subrange(
        pos + KEY_LENGTH_SIZE,
        pos + KEY_LENGTH_SIZE + len,
    ));
}

/// A node is read from its own bytes alone: what a reader finds in a node, it
/// finds in any buffer that holds the same bytes from the tag of the node to
/// its end.
pub proof fn lemma_node_kept(a: Seq<u8>, b: Seq<u8>, at: int)
    requires
        read_node(a, at) matches Some((found, end)) && end <= b.len() && agree(a, b, at, end),
    ensures
        read_node(b, at) == read_node(a, at),
    decreases a.len() - at, 2int, 0int,
{
    let start = at + NODE_PREFIX_SIZE;
    let count = count_at(a, start);
    let end = start + size_at(a, start);
    if a[at] == DataType::Array.tag() {
        lemma_entries_kept(a, b, start, count, end, end, count);
    } else {
        lemma_members_kept(a, b, start, count, end, end, count);
    }
}

/// The entries of an array are read from the entry table and the data region
/// of the array alone, and they are read the same when the array ends later.
pub proof fn lemma_entries_kept(
    a: Seq<u8>,
    b: Seq<u8>,
    start: int,
    count: int,
    end: int,
    later: int,
    n: int,
)
    requires
        read_entries(a, start, count, end, n) is Some,
        NODE_PREFIX_SIZE <= start,
        n <= count,
        array_data_pos(start, count) <= end <= a.len(),
        end <= later <= b.len(),
        agree(a, b, start + ELEMENT_COUNT_SIZE, end),
    ensures
        read_entries(b, start, count, later, n) == read_entries(a, start, count, end, n),
    decreases a.len() - (start - NODE_PREFIX_SIZE), 1int, n,
{
    if n > 0 {
        lemma_entries_kept(a, b, start, count, end, later, n - 1);
        lemma_value_kept(
            a,
            b,
            start,
            array_data_pos(start, count),
            end,
            later,
            array_data_pos(start, n - 1),
        );
    }
}

/// The elements of an object are read from the tables and the data region of
/// the object alone, and they are read the same when the object ends later.
pub proof fn lemma_members_kept(
    a: Seq<u8>,
    b: Seq<u8>,
    start: int,
    count: int,
    end: int,
    later: int,
    n: int,
)
    requires
        read_members(a, start, count, end, n) is Some,
        NODE_PREFIX_SIZE <= start,
        n <= count,
        object_data_pos(start, count) <= end <= a.len(),
        end <= later <= b.len(),
        agree(a, b, start + ELEMENT_COUNT_SIZE, end),
    ensures
        read_members(b, start, count, later, n) == read_members(a, start, count, end, n),
    decreases a.len() - (start - NODE_PREFIX_SIZE), 1int, n,
{
    if n > 0 {
        lemma_members_kept(a, b, start, count, end, later, n - 1);
        lemma_key_kept(a, b, start, count, end, later, n - 1);
        lemma_value_kept(
            a,
            b,
            start,
            object_data_pos(start, count),
            end,
            later,
            start + ELEMENT_COUNT_SIZE + KEY_OFFSET_SIZE * count + VALUE_ENTRY_SIZE * (n - 1),
        );
    }
}

/// An entry is read from its own five bytes and from the data region of its
/// node alone, and it is read the same when the node ends later.
pub proof fn lemma_value_kept(
    a: Seq<u8>,
    b: Seq<u8>,
    start: int,
    data_pos: int,
    end: int,
    later: int,
    entry: int,
)
    requires
        read_value(a, start, data_pos, end, entry) is Some,
        NODE_PREFIX_SIZE <= start <= entry,
        entry + VALUE_ENTRY_SIZE <= data_pos <= end <= a.len(),
        end <= later <= b.len(),
        agree(a, b, entry, entry + VALUE_ENTRY_SIZE),
        agree(a, b, data_pos, end),
    ensures
        read_value(b, start, data_pos, later, entry) == read_value(a, start, data_pos, end, entry),
    decreases a.len() - (start - NODE_PREFIX_SIZE), 0int, 0int,
{
    let tag = tag_at(a, entry);
    let field = field_at(a, entry);
    let pos = start + field;
    assert(tag_at(b, entry) == tag);
    assert(field_at(b, entry) == field);
    if tag == DataType::Null.tag() || tag == DataType::Bool.tag() {
    } else if tag == DataType::String.tag() {
        lemma_string_kept(a, b, pos, end, later);
    } else if tag == DataType::Number.tag() {
        lemma_number_kept(a, b, pos, end, later);
    } else {
        lemma_node_kept(a, b, pos);
    }
}

/// What a reader is to find of an array is the array of what it is to find of
/// the elements.
pub proof fn lemma_found_array(items: Seq<Given>, founds: Seq<Found>)
    requires
        founds.len() == items.len(),
        forall|i: int| 0 <= i < items.len() ==> #[trigger] founds[i] == items[i].found(),
    ensures
        Given::Array(items).found() == Found::Array(founds),
{
    let inner = Given::Array(items).found()->Array_0;
    assert forall|i: int| 0 <= i < items.len() implies inner[i] == items[i].found() by {}
    assert(inner =~= founds);
}

/// What a reader is to find of an object is the object of the keys and of
/// what it is to find of the values.
pub proof fn lemma_found_object(
    members: Seq<(Seq<u8>, Given)>,
    sorted: bool,
    founds: Seq<(Seq<u8>, Found)>,
)
    requires
        founds.len() == members.len(),
        forall|i: int|
            0 <= i < members.len() ==> #[trigger] founds[i] == (
                members[i].0,
                members[i].1.found(),
            ),
    ensures
        Given::Object(members, sorted).found() == Found::Object(founds),
{
    let inner = Given::Object(members, sorted).found()->Object_0;
    assert forall|i: int| 0 <= i < members.len() implies inner[i] == (
        members[i].0,
        members[i].1.found(),
    ) by {}
    assert(inner =~= founds);
}

/// Round trip, for a value without elements. An entry that holds the tag of
/// a string, a number, a boolean or null, and with it the boolean itself or
/// the place of the data of the string or number, is read as the value.
pub proof fn lemma_leaf_reads(
    bytes: Seq<u8>,
    start: int,
    data_pos: int,
    end: int,
    entry: int,
    given: Given,
    place: int,
)
    requires
        !given.value().is_node(),
        given.fits(),
        tag_at(bytes, entry) == given.value().data_type().tag(),
        given matches Given::Bool(b) ==> field_at(bytes, entry) == (if b {
            1int
        } else {
            0int
        }),
        !given.value().data_type().is_inline() ==> {
            &&& start + field_at(bytes, entry) == place
            &&& 0 <= start <= data_pos <= place
            &&& place + given.value().data().len() <= end <= bytes.len()
            &&& bytes.subrange(place, place + given.value().data().len())
                == given.value().data()
        },
    ensures
        read_value(bytes, start, data_pos, end, entry) == Some(given.found()),
{
    let data = given.value().data();
    match given {
        Given::String(string) => {
            let limit = if end - place < MAX_DATA_LENGTH_SIZE {
                (end - place) as nat
            } else {
                MAX_DATA_LENGTH_SIZE as nat
            };
            lemma_data_length_width(string.len());
            lemma_read_string(bytes, place, string, limit);
        },
        Given::Number(n) => {
            let part = bytes.subrange(place, place + data.len());
            let found = bytes.subrange(place + 1, place + 1 + data[0]);
            assert(part[0] == bytes[place]);
            assert(found =~= data.subrange(1, 1 + data[0])) by {
                assert forall|i: int| 0 <= i < data[0] implies #[trigger] found[i] == data[1
                    + i] by {
                    assert(part[1 + i] == bytes[place + 1 + i]);
                }
            }
        },
        _ => {},
    }
}

/// Pushing all that a value holds makes the buffer no shorter, and it leaves
/// the depth as it was before the value was pushed.
pub proof fn lemma_complete_grows(given: Given, base: Buffer, pushed: Buffer)
    ensures
        complete(given, base, pushed).bytes.len() >= pushed.bytes.len(),
        complete(given, base, pushed).depth == (if given.value().is_node() {
            (pushed.depth - 1) as nat
        } else {
            pushed.depth
        }),
    decreases given, 0nat,
{
    match given {
        Given::Object(members, sorted) => {
            let nested = ObjectCursor::opened(base, members.len() as u16, sorted);
            lemma_members_grow(nested, pushed, members, members.len());
        },
        Given::Array(items) => {
            let nested = ArrayCursor::opened(base, items.len() as u16);
            lemma_items_grow(nested, pushed, items, items.len());
        },
        _ => {},
    }
}

/// Pushes of values to an array, each with all that it holds, make the buffer
/// no shorter and leave the depth as it was.
pub proof fn lemma_items_grow(cursor: ArrayCursor, buffer: Buffer, items: Seq<Given>, n: nat)
    ensures
        push_items(cursor, buffer, items, n).bytes.len() >= buffer.bytes.len(),
        push_items(cursor, buffer, items, n).depth == buffer.depth,
    decreases items, n,
{
    if n == 0 || n > items.len() {
    } else {
        let before = push_items(cursor, buffer, items, (n - 1) as nat);
        let now = ArrayCursor { pushed: (n - 1) as u16, ..cursor };
        lemma_items_grow(cursor, buffer, items, (n - 1) as nat);
        lemma_complete_grows(items[n - 1], before, now.push_buffer(before, items[n - 1].value()));
    }
}

/// Pushes of elements to an object, each with all that it holds, make the
/// buffer no shorter and leave the depth as it was.
pub proof fn lemma_members_grow(
    cursor: ObjectCursor,
    buffer: Buffer,
    members: Seq<(Seq<u8>, Given)>,
    n: nat,
)
    ensures
        push_members(cursor, buffer, members, n).1.bytes.len() >= buffer.bytes.len(),
        push_members(cursor, buffer, members, n).1.depth == buffer.depth,
    decreases members, n,
{
    if n == 0 || n > members.len() {
    } else {
        let (now, before) = push_members(cursor, buffer, members, (n - 1) as nat);
        let (key, given) = members[n - 1];
        lemma_members_grow(cursor, buffer, members, (n - 1) as nat);
        lemma_complete_grows(
            given,
            before.append(key_data(key)),
            now.push_buffer(before, key, given.value()),
        );
    }
}

/// Whether entry `i` of the array of `cursor` is read in `bytes` as `items[i]`.
pub open spec fn item_reads(cursor: ArrayCursor, bytes: Seq<u8>, items: Seq<Given>, i: int) -> bool {
    read_value(
        bytes,
        cursor.start as int,
        cursor.entry_pos(cursor.declared as int),
        bytes.len() as int,
        cursor.entry_pos(i),
    ) == Some(items[i].found())
}

/// Whether element `i` of the object of `cursor` is read in `bytes` as
/// `members[i]`.
pub open spec fn member_reads(
    cursor: ObjectCursor,
    bytes: Seq<u8>,
    members: Seq<(Seq<u8>, Given)>,
    i: int,
) -> bool {
    &&& read_key(bytes, cursor.start as int, cursor.declared as int, bytes.len() as int, i)
        == Some(members[i].0)
    &&& read_value(
        bytes,
        cursor.start as int,
        cursor.entry_pos(cursor.declared as int),
        bytes.len() as int,
        cursor.entry_pos(i),
    ) == Some(members[i].1.found())
}

/// Whether `after` holds the bytes of `before` but for those from `a` up to
/// `a_end` and from `b` up to `b_end`.
pub open spec fn kept_but(
    before: Seq<u8>,
    after: Seq<u8>,
    a: int,
    a_end: int,
    b: int,
    b_end: int,
) -> bool {
    &&& before.len() <= after.len()
    &&& forall|k: int|
        0 <= k < before.len() && !(a <= k < a_end) && !(b <= k < b_end) ==> after[k] == before[k]
}

/// Whether the bytes from `a` up to `a_end` lie apart from the five bytes at
/// `entry` and before `data_pos`.
pub open spec fn apart(a: int, a_end: int, entry: int, data_pos: int) -> bool {
    a >= a_end || a_end <= entry || (entry + VALUE_ENTRY_SIZE <= a && a_end <= data_pos)
}

/// An entry of an array that is read is read the same in a buffer that is no
/// shorter and holds the same bytes in the entry and behind the entry table.
pub proof fn lemma_item_kept(
    cursor: ArrayCursor,
    before: Seq<u8>,
    after: Seq<u8>,
    items: Seq<Given>,
    i: int,
    a: int,
    a_end: int,
)
    requires
        0 <= i < cursor.declared,
        NODE_PREFIX_SIZE <= cursor.start,
        cursor.entry_pos(cursor.declared as int) <= before.len(),
        kept_but(before, after, a, a_end, 0, 0),
        apart(a, a_end, cursor.entry_pos(i), cursor.entry_pos(cursor.declared as int)),
        item_reads(cursor, before, items, i),
    ensures
        item_reads(cursor, after, items, i),
{
    lemma_value_kept(
        before,
        after,
        cursor.start as int,
        cursor.entry_pos(cursor.declared as int),
        before.len() as int,
        after.len() as int,
        cursor.entry_pos(i),
    );
}

/// An element of an object that is read is read the same in a buffer that is
/// no shorter and holds the same bytes in the key offset and the entry of the
/// element and behind the tables.
pub proof fn lemma_member_kept(
    cursor: ObjectCursor,
    before: Seq<u8>,
    after: Seq<u8>,
    members: Seq<(Seq<u8>, Given)>,
    i: int,
    a: int,
    a_end: int,
    b: int,
    b_end: int,
)
    requires
        0 <= i < cursor.declared,
        NODE_PREFIX_SIZE <= cursor.start,
        cursor.entry_pos(cursor.declared as int) <= before.len(),
        kept_but(before, after, a, a_end, b, b_end),
        apart(a, a_end, cursor.entry_pos(i), cursor.entry_pos(cursor.declared as int)),
        apart(b, b_end, cursor.entry_pos(i), cursor.entry_pos(cursor.declared as int)),
        a >= a_end || a_end <= cursor.key_offset_pos(i) || cursor.key_offset_pos(i + 1) <= a,
        b >= b_end || b_end <= cursor.key_offset_pos(i) || cursor.key_offset_pos(i + 1) <= b,
        member_reads(cursor, before, members, i),
    ensures
        member_reads(cursor, after, members, i),
{
    lemma_key_kept(
        before,
        after,
        cursor.start as int,
        cursor.declared as int,
        before.len() as int,
        after.len() as int,
        i,
    );
    lemma_value_kept(
        before,
        after,
        cursor.start as int,
        cursor.entry_pos(cursor.declared as int),
        before.len() as int,
        after.len() as int,
        cursor.entry_pos(i),
    );
}

/// The entries of an array that are each read as one of `items` are read
/// together as what a reader is to find of the first `n` of `items`.
pub proof fn lemma_items_read(cursor: ArrayCursor, bytes: Seq<u8>, items: Seq<Given>, n: int)
    requires
        0 <= n <= items.len(),
        forall|i: int| 0 <= i < n ==> #[trigger] item_reads(cursor, bytes, items, i),
    ensures
        read_entries(
            bytes,
            cursor.start as int,
            cursor.declared as int,
            bytes.len() as int,
            n,
        ) matches Some(founds) && founds.len() == n && forall|i: int|
            0 <= i < n ==> #[trigger] founds[i] == items[i].found(),
    decreases n,
{
    if n > 0 {
        lemma_items_read(cursor, bytes, items, n - 1);
        assert(item_reads(cursor, bytes, items, n - 1));
    }
}

/// The elements of an object that are each read as one of `members` are read
/// together as what a reader is to find of the first `n` of `members`.
pub proof fn lemma_members_read(
    cursor: ObjectCursor,
    bytes: Seq<u8>,
    members: Seq<(Seq<u8>, Given)>,
    n: int,
)
    requires
        0 <= n <= members.len(),
        forall|i: int| 0 <= i < n ==> #[trigger] member_reads(cursor, bytes, members, i),
    ensures
        read_members(
            bytes,
            cursor.start as int,
            cursor.declared as int,
            bytes.len() as int,
            n,
        ) matches Some(founds) && founds.len() == n && forall|i: int|
            0 <= i < n ==> #[trigger] founds[i] == (members[i].0, members[i].1.found()),
    decreases n,
{
    if n > 0 {
        lemma_members_read(cursor, bytes, members, n - 1);
        assert(member_reads(cursor, bytes, members, n - 1));
    }
}

/// A finished array is read whole. If the header of a full array is in place
/// and each of its entries is read as one of `items`, then in the buffer that
/// `finish` leaves the array is read as the array of `items`, and it ends
/// where the buffer ends. This holds as long as the size of the array is one
/// that the size field can hold.
#[verifier::rlimit(50)]
pub proof fn lemma_finished_array_reads(cursor: ArrayCursor, buffer: Buffer, items: Seq<Given>)
    requires
        cursor.wf(buffer),
        buffer.bytes.len() - cursor.start <= i32::MAX,
        buffer.bytes[cursor.start - NODE_PREFIX_SIZE] == DataType::Array.tag(),
        count_at(buffer.bytes, cursor.start as int) == cursor.declared,
        items.len() == cursor.declared,
        forall|i: int|
            0 <= i < items.len() ==> #[trigger] item_reads(cursor, buffer.bytes, items, i),
    ensures
        read_node(cursor.finish_buffer(buffer).bytes, cursor.start - NODE_PREFIX_SIZE) == Some(
            (Given::Array(items).found(), buffer.bytes.len() as int),
        ),
{
    let after = cursor.finish_buffer(buffer).bytes;
    lemma_finish_size(cursor, buffer);
    assert(count_at(after, cursor.start as int) == cursor.declared);
    assert(kept_but(buffer.bytes, after, cursor.start - 4, cursor.start as int, 0, 0));
    assert forall|i: int| 0 <= i < items.len() implies #[trigger] item_reads(
        cursor,
        after,
        items,
        i,
    ) by {
        lemma_item_kept(cursor, buffer.bytes, after, items, i, cursor.start - 4, cursor.start as int);
    }
    lemma_items_read(cursor, after, items, items.len() as int);
    let founds = read_entries(
        after,
        cursor.start as int,
        cursor.declared as int,
        after.len() as int,
        items.len() as int,
    ).unwrap();
    lemma_found_array(items, founds);
}

/// A finished object is read whole. If the header of a full object is in
/// place and each of its elements is read as one of `members`, then in the
/// buffer that `finish` leaves the object is read as the object of `members`,
/// and it ends where the buffer ends. This holds as long as the size of the
/// object is one that the size field can hold.
#[verifier::rlimit(50)]
pub proof fn lemma_finished_object_reads(
    cursor: ObjectCursor,
    buffer: Buffer,
    members: Seq<(Seq<u8>, Given)>,
    sorted: bool,
)
    requires
        cursor.wf(buffer),
        buffer.bytes.len() - cursor.start <= i32::MAX,
        buffer.bytes[cursor.start - NODE_PREFIX_SIZE] == DataType::Object.tag(),
        count_at(buffer.bytes, cursor.start as int) == cursor.declared,
        members.len() == cursor.declared,
        forall|i: int|
            0 <= i < members.len() ==> #[trigger] member_reads(cursor, buffer.bytes, members, i),
    ensures
        read_node(cursor.finish_buffer(buffer).bytes, cursor.start - NODE_PREFIX_SIZE) == Some(
            (Given::Object(members, sorted).found(), buffer.bytes.len() as int),
        ),
{
    let after = cursor.finish_buffer(buffer).bytes;
    lemma_object_finish_size(cursor, buffer);
    assert(count_at(after, cursor.start as int) == cursor.declared);
    assert(kept_but(buffer.bytes, after, cursor.start - 4, cursor.start as int, 0, 0));
    assert forall|i: int| 0 <= i < members.len() implies #[trigger] member_reads(
        cursor,
        after,
        members,
        i,
    ) by {
        lemma_member_kept(
            cursor,
            buffer.bytes,
            after,
            members,
            i,
            cursor.start - 4,
            cursor.start as int,
            0,
            0,
        );
    }
    lemma_members_read(cursor, after, members, members.len() as int);
    let founds = read_members(
        after,
        cursor.start as int,
        cursor.declared as int,
        after.len() as int,
        members.len() as int,
    ).unwrap();
    lemma_found_object(members, sorted, founds);
}

/// Round trip, for an array and its elements. If the header of an array of
/// `items` stands where `base` ended, the array is full in `filled`, each of
/// its entries is read there as one of `items`, and nothing but the entries
/// has changed since the header was written, then in the buffer that `finish`
/// leaves a reader finds the array of `items` where `base` ended, and finds it
/// to end where the buffer ends.
#[verifier::rlimit(50)]
pub proof fn lemma_array_closed(
    base: Buffer,
    pushed: Buffer,
    filled: Buffer,
    full: ArrayCursor,
    items: Seq<Given>,
)
    requires
        items.len() <= u16::MAX,
        filled.bytes.len() <= i32::MAX,
        pushed.bytes.len() == base.bytes.len() + array_header(items.len() as u16).len(),
        pushed.bytes.subrange(base.bytes.len() as int, pushed.bytes.len() as int) == array_header(
            items.len() as u16,
        ),
        full.start == base.bytes.len() + NODE_PREFIX_SIZE,
        full.declared == items.len(),
        full.wf(filled),
        kept_but(
            pushed.bytes,
            filled.bytes,
            full.entry_pos(0),
            full.entry_pos(items.len() as int),
            0,
            0,
        ),
        forall|i: int| 0 <= i < items.len() ==> #[trigger] item_reads(full, filled.bytes, items, i),
    ensures
        ({
            let after = full.finish_buffer(filled);
            let at = base.bytes.len() as int;
            &&& after.bytes.len() == filled.bytes.len()
            &&& agree(pushed.bytes, after.bytes, 0, at)
            &&& after.bytes[at] == DataType::Array.tag()
            &&& read_node(after.bytes, at) == Some(
                (Given::Array(items).found(), after.bytes.len() as int),
            )
        }),
{
    let count = items.len() as u16;
    let at = base.bytes.len() as int;
    let part = pushed.bytes.subrange(at, pushed.bytes.len() as int);
    let data = array_header(count);
    assert(part[0] == pushed.bytes[at]);
    assert(pushed.bytes.subrange(at + 5, at + 7) =~= u16_le(count)) by {
        assert(part[5] == pushed.bytes[at + 5] && part[6] == pushed.bytes[at + 6]);
        assert(data[5] == u16_le(count)[0] && data[6] == u16_le(count)[1]);
    }
    assert(filled.bytes.subrange(at + 5, at + 7) =~= u16_le(count));
    lemma_read_u16_le(filled.bytes, at + 5, count);
    lemma_finished_array_reads(full, filled, items);
    lemma_finish_size(full, filled);
}

/// Round trip, for an object and its elements. If the header of an object of
/// `members` stands where `base` ended, the object is full in `filled`, each
/// of its elements is read there as one of `members`, and nothing but the key
/// offsets and the entries has changed since the header was written, then in
/// the buffer that `finish` leaves a reader finds the object of `members`
/// where `base` ended, and finds it to end where the buffer ends.
#[verifier::rlimit(50)]
pub proof fn lemma_object_closed(
    base: Buffer,
    pushed: Buffer,
    filled: Buffer,
    full: ObjectCursor,
    members: Seq<(Seq<u8>, Given)>,
    sorted: bool,
)
    requires
        members.len() <= u16::MAX,
        filled.bytes.len() <= i32::MAX,
        pushed.bytes.len() == base.bytes.len() + object_header(members.len() as u16).len(),
        pushed.bytes.subrange(base.bytes.len() as int, pushed.bytes.len() as int)
            == object_header(members.len() as u16),
        full.start == base.bytes.len() + NODE_PREFIX_SIZE,
        full.declared == members.len(),
        full.wf(filled),
        kept_but(
            pushed.bytes,
            filled.bytes,
            full.key_offset_pos(0),
            full.key_offset_pos(members.len() as int),
            full.entry_pos(0),
            full.entry_pos(members.len() as int),
        ),
        forall|i: int|
            0 <= i < members.len() ==> #[trigger] member_reads(full, filled.bytes, members, i),
    ensures
        ({
            let after = full.finish_buffer(filled);
            let at = base.bytes.len() as int;
            &&& after.bytes.len() == filled.bytes.len()
            &&& agree(pushed.bytes, after.bytes, 0, at)
            &&& after.bytes[at] == DataType::Object.tag()
            &&& read_node(after.bytes, at) == Some(
                (Given::Object(members, sorted).found(), after.bytes.len() as int),
            )
        }),
{
    let count = members.len() as u16;
    let at = base.bytes.len() as int;
    let part = pushed.bytes.subrange(at, pushed.bytes.len() as int);
    let data = object_header(count);
    assert(part[0] == pushed.bytes[at]);
    assert(pushed.bytes.subrange(at + 5, at + 7) =~= u16_le(count)) by {
        assert(part[5] == pushed.bytes[at + 5] && part[6] == pushed.bytes[at + 6]);
        assert(data[5] == u16_le(count)[0] && data[6] == u16_le(count)[1]);
    }
    assert(filled.bytes.subrange(at + 5, at + 7) =~= u16_le(count));
    lemma_read_u16_le(filled.bytes, at + 5, count);
    lemma_finished_object_reads(full, filled, members, sorted);
    lemma_object_finish_size(full, filled);
}

/// Round trip, for an array. When an array of `items` that fit has been
/// pushed, so that its header stands where `base` ended, and then the items
/// are pushed and the array is finished, a reader finds the array where `base`
/// ended, and finds it to end where the buffer ends. Nothing has changed in
/// the buffer before the array.
#[verifier::rlimit(50)]
pub proof fn lemma_array_built(items: Seq<Given>, base: Buffer, pushed: Buffer)
    requires
        items.len() <= u16::MAX,
        forall|i: int| 0 <= i < items.len() ==> (#[trigger] items[i]).fits(),
        base.wf(),
        pushed.depth == base.depth + 1,
        pushed.bytes.len() == base.bytes.len() + array_header(items.len() as u16).len(),
        pushed.bytes.subrange(base.bytes.len() as int, pushed.bytes.len() as int) == array_header(
            items.len() as u16,
        ),
        push_items(
            ArrayCursor::opened(base, items.len() as u16),
            pushed,
            items,
            items.len(),
        ).bytes.len() <= i32::MAX,
    ensures
        ({
            let nested = ArrayCursor::opened(base, items.len() as u16);
            let after = nested.finish_buffer(push_items(nested, pushed, items, items.len()));
            let at = base.bytes.len() as int;
            &&& agree(pushed.bytes, after.bytes, 0, at)
            &&& after.bytes[at] == DataType::Array.tag()
            &&& read_node(after.bytes, at) == Some(
                (Given::Array(items).found(), after.bytes.len() as int),
            )
        }),
    decreases items, items.len() + 1,
{
    let nested = ArrayCursor::opened(base, items.len() as u16);
    let full = ArrayCursor { pushed: nested.declared, ..nested };
    let filled = push_items(nested, pushed, items, items.len());
    lemma_items_grow(nested, pushed, items, items.len());
    assert(array_header(items.len() as u16).len() == 7 + 5 * items.len());
    assert(nested.wf(pushed));
    lemma_items_pushed(nested, pushed, items, items.len());
    assert forall|i: int| 0 <= i < items.len() implies #[trigger] item_reads(
        full,
        filled.bytes,
        items,
        i,
    ) by {
        assert(item_reads(nested, filled.bytes, items, i));
    }
    assert(nested.finish_buffer(filled) == full.finish_buffer(filled));
    lemma_array_closed(base, pushed, filled, full, items);
}

/// Round trip, for an object. When an object of `members` that fit has been
/// pushed, so that its header stands where `base` ended, and then the members
/// are pushed and the object is finished, a reader finds the object where
/// `base` ended, and finds it to end where the buffer ends. Nothing has
/// changed in the buffer before the object.
#[verifier::rlimit(50)]
pub proof fn lemma_object_built(
    members: Seq<(Seq<u8>, Given)>,
    sorted: bool,
    base: Buffer,
    pushed: Buffer,
)
    requires
        Given::Object(members, sorted).fits(),
        base.wf(),
        pushed.depth == base.depth + 1,
        pushed.bytes.len() == base.bytes.len() + object_header(members.len() as u16).len(),
        pushed.bytes.subrange(base.bytes.len() as int, pushed.bytes.len() as int)
            == object_header(members.len() as u16),
        push_members(
            ObjectCursor::opened(base, members.len() as u16, sorted),
            pushed,
            members,
            members.len(),
        ).1.bytes.len() <= i32::MAX,
    ensures
        ({
            let nested = ObjectCursor::opened(base, members.len() as u16, sorted);
            let after = nested.finish_buffer(
                push_members(nested, pushed, members, members.len()).1,
            );
            let at = base.bytes.len() as int;
            &&& agree(pushed.bytes, after.bytes, 0, at)
            &&& after.bytes[at] == DataType::Object.tag()
            &&& read_node(after.bytes, at) == Some(
                (Given::Object(members, sorted).found(), after.bytes.len() as int),
            )
        }),
    decreases members, members.len() + 1,
{
    let nested = ObjectCursor::opened(base, members.len() as u16, sorted);
    let (full, filled) = push_members(nested, pushed, members, members.len());
    lemma_members_grow(nested, pushed, members, members.len());
    assert(object_header(members.len() as u16).len() == 7 + 9 * members.len());
    assert(nested.wf(pushed));
    lemma_members_pushed(nested, pushed, members, members.len());
    assert(nested.finish_buffer(filled) == full.finish_buffer(filled));
    lemma_object_closed(base, pushed, filled, full, members, sorted);
}

/// Round trip, for a node. When an object or an array that fits has been
/// pushed, so that its header stands where `base` ended, and then all that it
/// holds is pushed and it is finished, a reader finds the node where `base`
/// ended, with all that it holds, and finds it to end where the buffer ends.
/// Nothing has changed in the buffer before the node, and the depth is that
/// of `base` again. This holds as long as the buffer stays within what a size
/// field can count.
pub proof fn lemma_complete_reads(given: Given, base: Buffer, pushed: Buffer)
    requires
        given.value().is_node(),
        given.fits(),
        base.wf(),
        pushed.depth == base.depth + 1,
        pushed.bytes.len() == base.bytes.len() + given.value().data().len(),
        pushed.bytes.subrange(base.bytes.len() as int, pushed.bytes.len() as int)
            == given.value().data(),
        complete(given, base, pushed).bytes.len() <= i32::MAX,
    ensures
        ({
            let after = complete(given, base, pushed);
            let at = base.bytes.len() as int;
            &&& after.wf()
            &&& after.depth == base.depth
            &&& after.bytes.len() >= pushed.bytes.len()
            &&& agree(pushed.bytes, after.bytes, 0, at)
            &&& after.bytes[at] == given.value().data_type().tag()
            &&& read_node(after.bytes, at) == Some((given.found(), after.bytes.len() as int))
        }),
    decreases given, 0nat,
{
    lemma_complete_grows(given, base, pushed);
    match given {
        Given::Object(members, sorted) => {
            lemma_object_built(members, sorted, base, pushed);
        },
        Given::Array(items) => {
            lemma_array_built(items, base, pushed);
        },
        _ => {},
    }
}

/// Round trip, for one element of an array. When a value that fits is pushed
/// to an array with all that it holds, the push is not refused, and the entry
/// of the value is then read as the value. Of the bytes that were in the
/// buffer before, only the five of the entry have changed. This holds as long
/// as the buffer stays within what a size field can count.
#[verifier::rlimit(50)]
pub proof fn lemma_item_reads(cursor: ArrayCursor, buffer: Buffer, items: Seq<Given>)
    requires
        cursor.wf(buffer),
        cursor.is_active(buffer),
        cursor.pushed < cursor.declared,
        cursor.pushed < items.len(),
        items[cursor.pushed as int].fits(),
        complete(
            items[cursor.pushed as int],
            buffer,
            cursor.push_buffer(buffer, items[cursor.pushed as int].value()),
        ).bytes.len() <= i32::MAX,
    ensures
        ({
            let given = items[cursor.pushed as int];
            let after = complete(given, buffer, cursor.push_buffer(buffer, given.value()));
            &&& cursor.push_refusal(buffer, given.value()) is None
            &&& cursor.advanced().wf(after)
            &&& cursor.advanced().is_active(after)
            &&& kept_but(
                buffer.bytes,
                after.bytes,
                cursor.entry_pos(cursor.pushed as int),
                cursor.entry_pos(cursor.pushed + 1),
                0,
                0,
            )
            &&& item_reads(cursor, after.bytes, items, cursor.pushed as int)
        }),
    decreases items[cursor.pushed as int], 1nat,
{
    let given = items[cursor.pushed as int];
    let value = given.value();
    let pushed = cursor.push_buffer(buffer, value);
    let after = complete(given, buffer, pushed);
    let entry = cursor.entry_pos(cursor.pushed as int);
    let end = buffer.bytes.len() as int;
    lemma_complete_grows(given, buffer, pushed);
    if value.data_type().is_inline() {
        lemma_push_inline(cursor, buffer, value);
        lemma_leaf_reads(
            after.bytes,
            cursor.start as int,
            cursor.entry_pos(cursor.declared as int),
            after.bytes.len() as int,
            entry,
            given,
            0,
        );
    } else {
        lemma_push_data(cursor, buffer, value);
        if value.is_node() {
            lemma_complete_reads(given, buffer, pushed);
            assert(tag_at(after.bytes, entry) == tag_at(pushed.bytes, entry));
            assert(field_at(after.bytes, entry) == field_at(pushed.bytes, entry));
        } else {
            lemma_leaf_reads(
                after.bytes,
                cursor.start as int,
                cursor.entry_pos(cursor.declared as int),
                after.bytes.len() as int,
                entry,
                given,
                end,
            );
        }
    }
}

/// Round trip, for the elements of an array. When values that fit are pushed
/// to an empty array one after the other, each with all that it holds, the
/// entries of the array are read as the values, in their order. Of the bytes
/// that were in the buffer before, only those of the entries have changed.
/// This holds as long as the buffer stays within what a size field can count.
#[verifier::rlimit(50)]
pub proof fn lemma_items_pushed(cursor: ArrayCursor, buffer: Buffer, items: Seq<Given>, n: nat)
    requires
        cursor.wf(buffer),
        cursor.is_active(buffer),
        cursor.pushed == 0,
        cursor.declared == items.len(),
        n <= items.len(),
        forall|i: int| 0 <= i < items.len() ==> (#[trigger] items[i]).fits(),
        push_items(cursor, buffer, items, n).bytes.len() <= i32::MAX,
    ensures
        ({
            let after = push_items(cursor, buffer, items, n);
            let now = ArrayCursor { pushed: n as u16, ..cursor };
            &&& now.wf(after)
            &&& now.is_active(after)
            &&& kept_but(
                buffer.bytes,
                after.bytes,
                cursor.entry_pos(0),
                cursor.entry_pos(n as int),
                0,
                0,
            )
            &&& forall|i: int| 0 <= i < n ==> #[trigger] item_reads(cursor, after.bytes, items, i)
        }),
    decreases items, n,
{
    if n > 0 {
        let before = push_items(cursor, buffer, items, (n - 1) as nat);
        let last = ArrayCursor { pushed: (n - 1) as u16, ..cursor };
        let after = push_items(cursor, buffer, items, n);
        lemma_complete_grows(items[n - 1], before, last.push_buffer(before, items[n - 1].value()));
        lemma_items_pushed(cursor, buffer, items, (n - 1) as nat);
        lemma_item_reads(last, before, items);
        assert(item_reads(cursor, after.bytes, items, n - 1)) by {
            assert(item_reads(last, after.bytes, items, n - 1));
        }
        assert forall|i: int| 0 <= i < n implies #[trigger] item_reads(
            cursor,
            after.bytes,
            items,
            i,
        ) by {
            if i < n - 1 {
                assert(item_reads(cursor, before.bytes, items, i));
                lemma_item_kept(
                    cursor,
                    before.bytes,
                    after.bytes,
                    items,
                    i,
                    cursor.entry_pos(n - 1),
                    cursor.entry_pos(n as int),
                );
            }
        }
    }
}

/// Round trip, for one element of an object. When a value that fits is pushed
/// to an object under a key that the object takes, with all that the value
/// holds, the push is not refused; the key and the value of the element are
/// then read as they were given, and the key is the last key of the object.
/// Of the bytes that were in the buffer before, only those of the key offset
/// and of the entry have changed. This holds as long as the buffer stays
/// within what a size field can count.
#[verifier::rlimit(50)]
pub proof fn lemma_member_reads(
    cursor: ObjectCursor,
    buffer: Buffer,
    members: Seq<(Seq<u8>, Given)>,
)
    requires
        cursor.wf(buffer),
        cursor.is_active(buffer),
        cursor.pushed < cursor.declared,
        cursor.pushed < members.len(),
        members[cursor.pushed as int].0.len() <= MAX_KEY_LENGTH,
        cursor.sorted && cursor.pushed > 0 ==> key_precedes(
            cursor.last_key(buffer),
            members[cursor.pushed as int].0,
        ),
        members[cursor.pushed as int].1.fits(),
        complete(
            members[cursor.pushed as int].1,
            buffer.append(key_data(members[cursor.pushed as int].0)),
            cursor.push_buffer(
                buffer,
                members[cursor.pushed as int].0,
                members[cursor.pushed as int].1.value(),
            ),
        ).bytes.len() <= i32::MAX,
    ensures
        ({
            let (key, given) = members[cursor.pushed as int];
            let after = complete(
                given,
                buffer.append(key_data(key)),
                cursor.push_buffer(buffer, key, given.value()),
            );
            let next = cursor.advanced(buffer, key);
            &&& cursor.push_refusal(buffer, key, given.value()) is None
            &&& next.wf(after)
            &&& next.is_active(after)
            &&& next.last_key(after) == key
            &&& kept_but(
                buffer.bytes,
                after.bytes,
                cursor.key_offset_pos(cursor.pushed as int),
                cursor.key_offset_pos(cursor.pushed + 1),
                cursor.entry_pos(cursor.pushed as int),
                cursor.entry_pos(cursor.pushed + 1),
            )
            &&& member_reads(cursor, after.bytes, members, cursor.pushed as int)
        }),
    decreases members[cursor.pushed as int].1, 1nat,
{
    let (key, given) = members[cursor.pushed as int];
    let value = given.value();
    let base = buffer.append(key_data(key));
    let pushed = cursor.push_buffer(buffer, key, value);
    let after = complete(given, base, pushed);
    let next = cursor.advanced(buffer, key);
    let entry = cursor.entry_pos(cursor.pushed as int);
    let end = buffer.bytes.len() as int;
    let place = end + KEY_LENGTH_SIZE + key.len();
    lemma_complete_grows(given, base, pushed);
    lemma_object_push_frame(cursor, buffer, key, value);
    lemma_object_push_key(cursor, buffer, key, value);
    lemma_object_push_value(cursor, buffer, key, value);
    assert(read_key(
        pushed.bytes,
        cursor.start as int,
        cursor.declared as int,
        pushed.bytes.len() as int,
        cursor.pushed as int,
    ) == Some(key));
    if value.is_node() {
        lemma_complete_reads(given, base, pushed);
        assert(tag_at(after.bytes, entry) == tag_at(pushed.bytes, entry));
        assert(field_at(after.bytes, entry) == field_at(pushed.bytes, entry));
        assert(read_u32(after.bytes, cursor.key_offset_pos(cursor.pushed as int)) == read_u32(
            pushed.bytes,
            cursor.key_offset_pos(cursor.pushed as int),
        ));
        assert(read_u16(after.bytes, end) == read_u16(pushed.bytes, end));
        assert(after.bytes.subrange(end + KEY_LENGTH_SIZE, place) =~= pushed.bytes.subrange(
            end + KEY_LENGTH_SIZE,
            place,
        ));
        assert(next.last_key(after) =~= next.last_key(pushed));
    } else {
        lemma_leaf_reads(
            after.bytes,
            cursor.start as int,
            cursor.entry_pos(cursor.declared as int),
            after.bytes.len() as int,
            entry,
            given,
            place,
        );
    }
}

/// After a push to an object, the element pushed and the elements pushed
/// before it are all read, if the element pushed is read and the push has left
/// the key offsets and the entries of the others and the data behind the
/// tables as they were.
pub proof fn lemma_members_step(
    last: ObjectCursor,
    now: ObjectCursor,
    before: Seq<u8>,
    after: Seq<u8>,
    members: Seq<(Seq<u8>, Given)>,
    n: int,
)
    requires
        0 < n <= last.declared,
        now.start == last.start,
        now.declared == last.declared,
        NODE_PREFIX_SIZE <= last.start,
        last.entry_pos(last.declared as int) <= before.len(),
        kept_but(
            before,
            after,
            last.key_offset_pos(n - 1),
            last.key_offset_pos(n),
            last.entry_pos(n - 1),
            last.entry_pos(n),
        ),
        forall|i: int| 0 <= i < n - 1 ==> #[trigger] member_reads(last, before, members, i),
        member_reads(last, after, members, n - 1),
    ensures
        forall|i: int| 0 <= i < n ==> #[trigger] member_reads(now, after, members, i),
{
    assert forall|i: int| 0 <= i < n implies #[trigger] member_reads(now, after, members, i) by {
        if i < n - 1 {
            assert(member_reads(last, before, members, i));
            lemma_member_kept(
                last,
                before,
                after,
                members,
                i,
                last.key_offset_pos(n - 1),
                last.key_offset_pos(n),
                last.entry_pos(n - 1),
                last.entry_pos(n),
            );
        }
        assert(member_reads(last, after, members, i));
    }
}

/// Round trip, for the elements of an object. When elements that fit are
/// pushed to an empty object one after the other, each with all that its value
/// holds, no push is refused, and the keys and the values of the object are
/// read as they were given, in their order. Of the bytes that were in the
/// buffer before, only those of the key offsets and of the entries have
/// changed. This holds as long as the buffer stays within what a size field
/// can count.
#[verifier::rlimit(50)]
pub proof fn lemma_members_pushed(
    cursor: ObjectCursor,
    buffer: Buffer,
    members: Seq<(Seq<u8>, Given)>,
    n: nat,
)
    requires
        cursor.wf(buffer),
        cursor.is_active(buffer),
        cursor.pushed == 0,
        cursor.declared == members.len(),
        n <= members.len(),
        Given::Object(members, cursor.sorted).fits(),
        push_members(cursor, buffer, members, n).1.bytes.len() <= i32::MAX,
    ensures
        ({
            let (now, after) = push_members(cursor, buffer, members, n);
            &&& now.start == cursor.start
            &&& now.declared == cursor.declared
            &&& now.depth == cursor.depth
            &&& now.sorted == cursor.sorted
            &&& now.pushed == n
            &&& now.wf(after)
            &&& now.is_active(after)
            &&& n > 0 ==> now.last_key(after) == members[n - 1].0
            &&& kept_but(
                buffer.bytes,
                after.bytes,
                cursor.key_offset_pos(0),
                cursor.key_offset_pos(n as int),
                cursor.entry_pos(0),
                cursor.entry_pos(n as int),
            )
            &&& forall|i: int|
                0 <= i < n ==> #[trigger] member_reads(now, after.bytes, members, i)
        }),
    decreases members, n,
{
    if n > 0 {
        let (last, before) = push_members(cursor, buffer, members, (n - 1) as nat);
        let (now, after) = push_members(cursor, buffer, members, n);
        let (key, given) = members[n - 1];
        lemma_complete_grows(
            given,
            before.append(key_data(key)),
            last.push_buffer(before, key, given.value()),
        );
        lemma_members_pushed(cursor, buffer, members, (n - 1) as nat);
        assert(members[n - 1].0.len() <= MAX_KEY_LENGTH && members[n - 1].1.fits());
        if n > 1 {
            assert(cursor.sorted ==> key_precedes(members[n - 2].0, members[n - 1].0));
        }
        lemma_member_reads(last, before, members);
        lemma_members_step(last, now, before.bytes, after.bytes, members, n as int);
    }
}

/// Round trip. In the document of an object or an array that fits, a reader
/// finds the node with all that it holds, and finds it to end where the
/// document ends. This holds as long as the document is one that a size field
/// can count.
pub proof fn lemma_round_trip(given: Given)
    requires
        given.value().is_node(),
        given.fits(),
        build(given).len() <= i32::MAX,
    ensures
        read_node(build(given), 0) == Some((given.found(), build(given).len() as int)),
{
    let empty = Buffer { bytes: Seq::empty(), depth: 0 };
    let pushed = Buffer { bytes: given.value().data(), depth: 1 };
    assert(pushed.bytes.subrange(0, pushed.bytes.len() as int) =~= given.value().data());
    lemma_complete_reads(given, empty, pushed);
}

} // verus!
