//! The values that a builder pushes, and the bytes that stand for each.

use crate::binary::{
    array_header, data_length, object_header, overwrite, u32_le, DataType, ARRAY_SIZE,
    DATA_TYPE_SIZE, ELEMENT_COUNT_SIZE, KEY_OFFSET_SIZE, MAX_DATA_LENGTH_SIZE, MAX_STRING_LENGTH,
    NODE_PREFIX_SIZE, NUMBER_LENGTH_SIZE, OBJECT_SIZE, VALUE_ENTRY_SIZE,
};
use crate::buffer::{Buffer, BytesWrapper};
use crate::error::BuildError;
use crate::number::{Number, NumberView, MAX_BINARY_SIZE};
use vstd::prelude::*;
use vstd::string::*;

verus! {

/// A value as it is handed to a builder. An object or an array is handed over
/// empty, with the number of elements that it will hold; its elements are
/// pushed afterwards through a builder of its own.
#[derive(Clone, Copy, Debug)]
pub enum Value<'a> {
    /// An object of so many elements.
    Object(u16),
    /// An array of so many elements.
    Array(u16),
    String(&'a str),
    Number(Number),
    Bool(bool),
    Null,
}

/// What a [`Value`] holds. A string is held as its bytes in UTF-8.
pub enum ValueView {
    Object(u16),
    Array(u16),
    String(Seq<u8>),
    Number(NumberView),
    Bool(bool),
    Null,
}

impl<'a> View for Value<'a> {
    type V = ValueView;

    open spec fn view(&self) -> ValueView {
        match *self {
            Value::Object(count) => ValueView::Object(count),
            Value::Array(count) => ValueView::Array(count),
            Value::String(s) => ValueView::String(s.spec_bytes()),
            Value::Number(n) => ValueView::Number(n@),
            Value::Bool(b) => ValueView::Bool(b),
            Value::Null => ValueView::Null,
        }
    }
}

impl ValueView {
    /// What a push of the value writes into its entry: the tag, and then the
    /// value itself for a boolean, nothing for null, and for any other value
    /// `offset`, the offset of its data.
    pub open spec fn entry(self, offset: u32) -> Seq<u8> {
        match self {
            ValueView::Null => seq![self.data_type().tag()],
            ValueView::Bool(b) => seq![self.data_type().tag()] + u32_le(
                if b {
                    1
                } else {
                    0
                },
            ),
            _ => seq![self.data_type().tag()] + u32_le(offset),
        }
    }

    /// The kind of the value.
    pub open spec fn data_type(self) -> DataType {
        match self {
            ValueView::Object(..) => DataType::Object,
            ValueView::Array(..) => DataType::Array,
            ValueView::String(..) => DataType::String,
            ValueView::Number(..) => DataType::Number,
            ValueView::Bool(..) => DataType::Bool,
            ValueView::Null => DataType::Null,
        }
    }

    /// Whether pushing the value opens a node.
    pub open spec fn is_node(self) -> bool {
        self is Object || self is Array
    }

    /// The bytes that a push of the value adds to the data region: none for a
    /// boolean or null, the header for an object or an array.
    pub open spec fn data(self) -> Seq<u8> {
        match self {
            ValueView::Object(count) => object_header(count),
            ValueView::Array(count) => array_header(count),
            ValueView::String(bytes) => data_length(bytes.len()) + bytes,
            ValueView::Number(n) => n.data(),
            ValueView::Bool(_) => Seq::empty(),
            ValueView::Null => Seq::empty(),
        }
    }

    /// The error with which the value is refused whatever the builder, if it is:
    /// a string may be too long.
    pub open spec fn refusal(self) -> Option<BuildError> {
        match self {
            ValueView::String(bytes) if bytes.len() > MAX_STRING_LENGTH => Some(
                BuildError::StringTooLong(bytes.len() as usize),
            ),
            _ => None,
        }
    }

    /// The room that is asked of the buffer before the value is written: the
    /// most that its data can take. Nothing is asked for a value that is
    /// refused or that has no data.
    pub open spec fn room(self) -> nat {
        match self {
            ValueView::Object(count) => (NODE_PREFIX_SIZE + ELEMENT_COUNT_SIZE + (KEY_OFFSET_SIZE
                + VALUE_ENTRY_SIZE) * count) as nat,
            ValueView::Array(count) => (NODE_PREFIX_SIZE + ELEMENT_COUNT_SIZE + VALUE_ENTRY_SIZE
                * count) as nat,
            ValueView::String(bytes) => if bytes.len() > MAX_STRING_LENGTH {
                0
            } else {
                MAX_DATA_LENGTH_SIZE as nat + bytes.len()
            },
            ValueView::Number(_) => (NUMBER_LENGTH_SIZE + MAX_BINARY_SIZE) as nat,
            ValueView::Bool(_) => 0,
            ValueView::Null => 0,
        }
    }
}

impl<'a> Value<'a> {
    /// The kind of the value.
    pub fn data_type(&self) -> (t: DataType)
        ensures
            t == self@.data_type(),
    {
        match self {
            Value::Object(..) => DataType::Object,
            Value::Array(..) => DataType::Array,
            Value::String(..) => DataType::String,
            Value::Number(..) => DataType::Number,
            Value::Bool(..) => DataType::Bool,
            Value::Null => DataType::Null,
        }
    }

    /// The room that is asked of the buffer before the value is written.
    pub fn room(&self) -> (n: usize)
        ensures
            n == self@.room(),
    {
        match self {
            Value::Object(count) => NODE_PREFIX_SIZE + ELEMENT_COUNT_SIZE + (KEY_OFFSET_SIZE
                + VALUE_ENTRY_SIZE) * (*count as usize),
            Value::Array(count) => NODE_PREFIX_SIZE + ELEMENT_COUNT_SIZE + VALUE_ENTRY_SIZE * (
            *count as usize),
            Value::String(s) => {
                let len = s.as_bytes().len();
                if len > MAX_STRING_LENGTH {
                    0
                } else {
                    MAX_DATA_LENGTH_SIZE + len
                }
            },
            Value::Number(_) => NUMBER_LENGTH_SIZE + MAX_BINARY_SIZE,
            Value::Bool(_) => 0,
            Value::Null => 0,
        }
    }
}

impl BytesWrapper {
    /// Fills in the entry at `pos` for `value`, whose data is at `offset`.
    pub(crate) fn write_entry(&mut self, pos: usize, value: &Value<'_>, offset: u32)
        requires
            pos + VALUE_ENTRY_SIZE <= old(self)@.bytes.len(),
        ensures
            final(self)@ == old(self)@.patch(pos as int, value@.entry(offset)),
    {
        proof {
            self.lemma_len_fits();
        }
        self.write_data_type_by_pos(value.data_type(), pos);
        match value {
            Value::Null => {},
            Value::Bool(b) => {
                self.write_u32(if *b { 1 } else { 0 }, pos + DATA_TYPE_SIZE);
            },
            _ => {
                self.write_u32(offset, pos + DATA_TYPE_SIZE);
            },
        }
        assert(self@.bytes =~= overwrite(old(self)@.bytes, pos as int, value@.entry(offset)));
    }

    /// Writes the data of `value` at the end of the buffer, and counts the
    /// value among the open nodes if it is one.
    pub(crate) fn push_data(&mut self, value: Value<'_>)
        requires
            old(self)@.wf(),
        ensures
            final(self)@ == (Buffer {
                bytes: old(self)@.bytes + value@.data(),
                depth: if value@.is_node() {
                    old(self)@.depth + 1
                } else {
                    old(self)@.depth
                },
            }),
            final(self)@.wf(),
    {
        match value {
            Value::Object(count) => {
                self.open_object(count);
            },
            Value::Array(count) => {
                self.open_array(count);
            },
            Value::String(s) => {
                self.push_string(s);
            },
            Value::Number(n) => {
                self.push_number(n);
            },
            Value::Bool(_) => {},
            Value::Null => {},
        }
        proof {
            self.lemma_len_fits();
        }
        assert(self@.bytes =~= old(self)@.bytes + value@.data());
    }

    /// Writes the header of an array of `count` elements at the end of the
    /// buffer and counts the array among the open nodes.
    pub(crate) fn open_array(&mut self, count: u16)
        requires
            old(self)@.wf(),
        ensures
            final(self)@ == (Buffer {
                bytes: old(self)@.bytes + array_header(count),
                depth: old(self)@.depth + 1,
            }),
            final(self)@.wf(),
    {
        self.push_data_type(DataType::Array);
        self.push_zeros(ARRAY_SIZE);
        self.push_u16(count);
        self.push_zeros(VALUE_ENTRY_SIZE * (count as usize));
        self.enter();
        proof {
            self.lemma_len_fits();
        }
        assert(self@.bytes =~= old(self)@.bytes + array_header(count));
    }

    /// Writes the header of an object of `count` elements at the end of the
    /// buffer and counts the object among the open nodes.
    pub(crate) fn open_object(&mut self, count: u16)
        requires
            old(self)@.wf(),
        ensures
            final(self)@ == (Buffer {
                bytes: old(self)@.bytes + object_header(count),
                depth: old(self)@.depth + 1,
            }),
            final(self)@.wf(),
    {
        self.push_data_type(DataType::Object);
        self.push_zeros(OBJECT_SIZE);
        self.push_u16(count);
        self.push_zeros(KEY_OFFSET_SIZE * (count as usize));
        self.push_zeros(VALUE_ENTRY_SIZE * (count as usize));
        self.enter();
        proof {
            self.lemma_len_fits();
        }
        assert(self@.bytes =~= old(self)@.bytes + object_header(count));
    }
}

} // verus!
