//! Builders of objects.
//!
//! An object holds its elements in the order in which they are pushed. For
//! each element the header has a key offset and a value entry; the key and
//! then the data of the value stand in the data region.
//!
//! An object may be declared as sorted by key. The builder then holds the
//! caller to it: a key that does not come after the key before it, byte by
//! byte, is refused. Of an object that is not declared so, the keys are taken
//! as they come. The declaration leaves no trace in the document.
//!
//! In all else an object is built as an array is: a push to a full object is
//! refused at once, `finish` refuses an object that is short of elements, and
//! an object refuses every operation while a node that it holds is unfinished.
//! [`InnerObjectBuilder`], [`ObjectRefBuilder`] and [`ObjectBuilder`] are the
//! cursor alone, the cursor with a borrowed buffer, and the cursor with a buffer
//! of its own.

use crate::binary::{
    key_data, key_precedes, object_header, overwrite, u32_le, ELEMENT_COUNT_SIZE, KEY_LENGTH_SIZE,
    KEY_OFFSET_SIZE, MAX_KEY_LENGTH, MAX_STRING_LENGTH, NODE_PREFIX_SIZE, OBJECT_SIZE,
    VALUE_ENTRY_SIZE,
};
use crate::buffer::{Buffer, BytesWrapper, DEFAULT_SIZE};
use crate::array::{ArrayCursor, ArrayRefBuilder, InnerArrayBuilder};
use crate::error::{reservation, BuildError, BuildResult};
use crate::number::Number;
use crate::reading::{lemma_object_finish_size, size_at};
use crate::value::{Value, ValueView};
use crate::yason::YasonBuf;
use std::collections::TryReserveError;
use vstd::prelude::*;
use vstd::slice::slice_subrange;
use vstd::string::*;

verus! {

/// Where an object under construction stands: a cursor into the buffer that it
/// shares with the builders of the nodes around it.
#[derive(Debug)]
pub struct InnerObjectBuilder {
    element_count: u16,
    start_pos: usize,
    value_count: u16,
    depth: usize,
    key_sorted: bool,
    last_key_pos: usize,
    last_key_len: usize,
}

/// What an [`InnerObjectBuilder`] holds.
pub struct ObjectCursor {
    /// The position in the buffer of the element count of the object. The tag
    /// of the object is five bytes before it, its size field four.
    pub start: nat,
    /// The number of elements declared at creation.
    pub declared: u16,
    /// The number of elements pushed so far.
    pub pushed: u16,
    /// The depth of the buffer when the object had just been opened.
    pub depth: nat,
    /// Whether the object was declared as sorted by key.
    pub sorted: bool,
    /// The position in the buffer of the bytes of the key pushed last.
    pub last_key_pos: nat,
    /// The number of bytes of the key pushed last.
    pub last_key_len: nat,
}

impl ObjectCursor {
    /// The cursor of an object that has just been opened at the end of
    /// `buffer`.
    pub open spec fn opened(buffer: Buffer, count: u16, sorted: bool) -> ObjectCursor {
        ObjectCursor {
            start: buffer.bytes.len() + NODE_PREFIX_SIZE as nat,
            declared: count,
            pushed: 0,
            depth: buffer.depth + 1,
            sorted,
            last_key_pos: buffer.bytes.len() + NODE_PREFIX_SIZE as nat,
            last_key_len: 0,
        }
    }

    /// The cursor lies in `buffer`: the header, the tables and the last key of
    /// the object are within its bytes, and the object is among its open nodes.
    pub open spec fn wf(self, buffer: Buffer) -> bool {
        &&& buffer.wf()
        &&& NODE_PREFIX_SIZE <= self.start
        &&& self.entry_pos(self.declared as int) <= buffer.bytes.len()
        &&& self.pushed <= self.declared
        &&& 1 <= self.depth <= buffer.depth
        &&& self.last_key_pos + self.last_key_len <= buffer.bytes.len()
    }

    /// No node that was opened after this object is still open.
    pub open spec fn is_active(self, buffer: Buffer) -> bool {
        buffer.depth == self.depth
    }

    /// The position in the buffer of key offset `i` of the object.
    pub open spec fn key_offset_pos(self, i: int) -> int {
        self.start + ELEMENT_COUNT_SIZE + KEY_OFFSET_SIZE * i
    }

    /// The position in the buffer of value entry `i` of the object.
    pub open spec fn entry_pos(self, i: int) -> int {
        self.start + ELEMENT_COUNT_SIZE + KEY_OFFSET_SIZE * self.declared + VALUE_ENTRY_SIZE * i
    }

    /// The offset of position `pos` from the element count of the object, as a
    /// table holds it: in 32 bits.
    pub open spec fn offset(self, pos: int) -> u32 {
        (pos - self.start) as u32
    }

    /// The key pushed last, as `buffer` holds it.
    pub open spec fn last_key(self, buffer: Buffer) -> Seq<u8> {
        buffer.bytes.subrange(
            self.last_key_pos as int,
            (self.last_key_pos + self.last_key_len) as int,
        )
    }

    /// The error with which a push of `value` under `key` is refused before any
    /// room is asked for, if it is: a nested builder is unfinished, the object
    /// is full, the key is too long or out of order, or the value itself cannot
    /// be written.
    pub open spec fn push_refusal(self, buffer: Buffer, key: Seq<u8>, value: ValueView) -> Option<
        BuildError,
    > {
        if !self.is_active(buffer) {
            Some(BuildError::InnerUncompletedError)
        } else if self.pushed >= self.declared {
            Some(
                BuildError::InconsistentElementCount {
                    expected: self.declared,
                    actual: (self.pushed + 1) as u32,
                },
            )
        } else if key.len() > MAX_KEY_LENGTH {
            Some(BuildError::KeyTooLong(key.len() as usize))
        } else if self.sorted && self.pushed > 0 && !key_precedes(self.last_key(buffer), key) {
            Some(BuildError::KeyNotSorted)
        } else {
            value.refusal()
        }
    }

    /// The result of a push of `value` under `key`, given the answer to the
    /// request for room.
    pub open spec fn push_result(
        self,
        buffer: Buffer,
        key: Seq<u8>,
        value: ValueView,
        reserved: Result<(), TryReserveError>,
    ) -> BuildResult<()> {
        match self.push_refusal(buffer, key, value) {
            Some(e) => Err(e),
            None => reservation(reserved),
        }
    }

    /// Whether `r` may be the result of a push of `value` under `key` that asks
    /// the buffer for room itself: the refusal if there is one, and else
    /// success or the failure to get the room.
    pub open spec fn push_outcome<T>(
        self,
        buffer: Buffer,
        key: Seq<u8>,
        value: ValueView,
        r: BuildResult<T>,
    ) -> bool {
        match self.push_refusal(buffer, key, value) {
            Some(e) => r == Err::<T, BuildError>(e),
            None => r is Ok || (r matches Err(e) && e is TryReserveError),
        }
    }

    /// The room that is asked of the buffer before `value` is written under
    /// `key`. Nothing is asked if the key or the value is too long.
    pub open spec fn room(key: Seq<u8>, value: ValueView) -> nat {
        if key.len() > MAX_KEY_LENGTH || value.refusal() is Some {
            0
        } else {
            KEY_LENGTH_SIZE as nat + key.len() + value.room()
        }
    }

    /// The buffer after a push of `value` under `key`: the next key offset and
    /// the next value entry are filled in, the key and the data of the value
    /// stand at the end, and a node is open if the value is one.
    pub open spec fn push_buffer(self, buffer: Buffer, key: Seq<u8>, value: ValueView) -> Buffer {
        Buffer {
            bytes: overwrite(
                overwrite(
                    buffer.bytes,
                    self.key_offset_pos(self.pushed as int),
                    u32_le(self.offset(buffer.bytes.len() as int)),
                ),
                self.entry_pos(self.pushed as int),
                value.entry(
                    self.offset((buffer.bytes.len() + KEY_LENGTH_SIZE + key.len()) as int),
                ),
            ) + key_data(key) + value.data(),
            depth: if value.is_node() {
                buffer.depth + 1
            } else {
                buffer.depth
            },
        }
    }

    /// The cursor after a push of a value under `key` at the end of `buffer`.
    pub open spec fn advanced(self, buffer: Buffer, key: Seq<u8>) -> ObjectCursor {
        ObjectCursor {
            pushed: (self.pushed + 1) as u16,
            last_key_pos: buffer.bytes.len() + KEY_LENGTH_SIZE as nat,
            last_key_len: key.len(),
            ..self
        }
    }

    /// The result of finishing the object: the position of its tag, or the
    /// error that a nested builder is unfinished or that elements are missing.
    pub open spec fn finish_result(self, buffer: Buffer) -> BuildResult<usize> {
        if !self.is_active(buffer) {
            Err(BuildError::InnerUncompletedError)
        } else if self.pushed != self.declared {
            Err(
                BuildError::InconsistentElementCount {
                    expected: self.declared,
                    actual: self.pushed as u32,
                },
            )
        } else {
            Ok((self.start - NODE_PREFIX_SIZE) as usize)
        }
    }

    /// The buffer after the object is finished: the size field holds the
    /// number of bytes from the element count to the end of the buffer, in 32
    /// bits, and the object is no longer open.
    pub open spec fn finish_buffer(self, buffer: Buffer) -> Buffer {
        Buffer {
            bytes: overwrite(
                buffer.bytes,
                self.start - OBJECT_SIZE,
                u32_le(self.offset(buffer.bytes.len() as int)),
            ),
            depth: (buffer.depth - 1) as nat,
        }
    }
}

impl View for InnerObjectBuilder {
    type V = ObjectCursor;

    closed spec fn view(&self) -> ObjectCursor {
        ObjectCursor {
            start: self.start_pos as nat,
            declared: self.element_count,
            pushed: self.value_count,
            depth: self.depth as nat,
            sorted: self.key_sorted,
            last_key_pos: self.last_key_pos as nat,
            last_key_len: self.last_key_len as nat,
        }
    }
}

/// The room that is asked of the buffer before `value` is written under `key`.
pub fn room(key: &str, value: &Value<'_>) -> (n: usize)
    ensures
        n == ObjectCursor::room(key.spec_bytes(), value@),
{
    let key_len = key.as_bytes().len();
    if key_len > MAX_KEY_LENGTH {
        return 0;
    }
    if let Value::String(s) = value {
        if s.as_bytes().len() > MAX_STRING_LENGTH {
            return 0;
        }
    }
    KEY_LENGTH_SIZE + key_len + value.room()
}

impl InnerObjectBuilder {
    /// Opens an object of `element_count` elements at the end of the buffer.
    ///
    /// Fails if the buffer cannot make room for the header of the object, and
    /// then leaves the buffer as it was.
    pub fn try_new(wrapper: &mut BytesWrapper, element_count: u16, key_sorted: bool) -> (r:
        BuildResult<Self>)
        requires
            old(wrapper)@.wf(),
        ensures
            match r {
                Ok(b) => {
                    &&& b@ == ObjectCursor::opened(old(wrapper)@, element_count, key_sorted)
                    &&& final(wrapper)@ == (Buffer {
                        bytes: old(wrapper)@.bytes + object_header(element_count),
                        depth: old(wrapper)@.depth + 1,
                    })
                    &&& b@.wf(final(wrapper)@)
                },
                Err(e) => e is TryReserveError && final(wrapper)@ == old(wrapper)@,
            },
    {
        let reserved = wrapper.try_reserve(Value::Object(element_count).room());
        Self::open(wrapper, element_count, key_sorted, reserved)
    }

    /// Opens an object of `element_count` elements at the end of the buffer if
    /// `reserved`, the answer to the request for room, is `Ok`.
    pub fn open(
        wrapper: &mut BytesWrapper,
        element_count: u16,
        key_sorted: bool,
        reserved: Result<(), TryReserveError>,
    ) -> (r: BuildResult<Self>)
        requires
            old(wrapper)@.wf(),
        ensures
            match r {
                Ok(b) => {
                    &&& reserved is Ok
                    &&& b@ == ObjectCursor::opened(old(wrapper)@, element_count, key_sorted)
                    &&& final(wrapper)@ == (Buffer {
                        bytes: old(wrapper)@.bytes + object_header(element_count),
                        depth: old(wrapper)@.depth + 1,
                    })
                    &&& b@.wf(final(wrapper)@)
                },
                Err(e) => Err::<(), BuildError>(e) == reservation(reserved) && final(wrapper)@
                    == old(wrapper)@,
            },
    {
        match reserved {
            Err(e) => Err(BuildError::TryReserveError(e)),
            Ok(()) => {
                let at = wrapper.len();
                wrapper.open_object(element_count);
                Ok(Self::at(wrapper, at, element_count, key_sorted))
            },
        }
    }

    /// The cursor of the object of `element_count` elements that was opened
    /// last in the buffer and whose tag is at `at`.
    pub(crate) fn at(wrapper: &BytesWrapper, at: usize, element_count: u16, key_sorted: bool) -> (r:
        Self)
        requires
            at + NODE_PREFIX_SIZE + ELEMENT_COUNT_SIZE + (KEY_OFFSET_SIZE + VALUE_ENTRY_SIZE)
                * element_count <= wrapper@.bytes.len(),
        ensures
            r@ == (ObjectCursor {
                start: (at + NODE_PREFIX_SIZE) as nat,
                declared: element_count,
                pushed: 0,
                depth: wrapper@.depth,
                sorted: key_sorted,
                last_key_pos: (at + NODE_PREFIX_SIZE) as nat,
                last_key_len: 0,
            }),
    {
        proof {
            wrapper.lemma_len_fits();
        }
        InnerObjectBuilder {
            element_count,
            start_pos: at + NODE_PREFIX_SIZE,
            value_count: 0,
            depth: wrapper.depth(),
            key_sorted,
            last_key_pos: at + NODE_PREFIX_SIZE,
            last_key_len: 0,
        }
    }

    /// Finishes the object: writes the size of the object into its header and
    /// closes it. Returns the position of the tag of the object in the buffer.
    /// The cursor is used up, whatever the result.
    ///
    /// Fails, and leaves the buffer as it was, if a nested builder is
    /// unfinished or if fewer elements were pushed than were declared.
    pub fn finish(self, wrapper: &mut BytesWrapper) -> (r: BuildResult<usize>)
        requires
            self@.wf(old(wrapper)@),
        ensures
            r == self@.finish_result(old(wrapper)@),
            r is Ok ==> final(wrapper)@ == self@.finish_buffer(old(wrapper)@),
            r is Ok && old(wrapper)@.bytes.len() - self@.start <= i32::MAX ==> size_at(
                final(wrapper)@.bytes,
                self@.start as int,
            ) == old(wrapper)@.bytes.len() - self@.start,
            r is Err ==> final(wrapper)@ == old(wrapper)@,
    {
        proof {
            if old(wrapper)@.bytes.len() - self@.start <= i32::MAX {
                lemma_object_finish_size(self@, old(wrapper)@);
            }
        }
        if self.depth != wrapper.depth() {
            return Err(BuildError::InnerUncompletedError);
        }
        if self.value_count != self.element_count {
            return Err(
                BuildError::InconsistentElementCount {
                    expected: self.element_count,
                    actual: self.value_count as u32,
                },
            );
        }
        let total_size = #[verifier::truncate] ((wrapper.len() - self.start_pos) as u32);
        wrapper.write_u32(total_size, self.start_pos - OBJECT_SIZE);
        wrapper.leave();
        Ok(self.start_pos - NODE_PREFIX_SIZE)
    }

    /// Pushes `value` under `key`, given the answer `reserved` to the request
    /// for the room that the two need.
    ///
    /// The checks are made in this order: no nested builder is unfinished;
    /// the object is not full; the key is not too long; the key comes after
    /// the key before it, if the object is sorted; the value can be written;
    /// the room was granted. When one fails, nothing is written.
    ///
    /// A push of an object or of an array opens the node and hands out no
    /// builder for it: that is what [`InnerObjectBuilder::push_object`] and
    /// [`InnerObjectBuilder::push_array`] are for.
    #[verifier::rlimit(50)]
    pub fn push_value(
        &mut self,
        wrapper: &mut BytesWrapper,
        key: &str,
        value: Value<'_>,
        reserved: Result<(), TryReserveError>,
    ) -> (r: BuildResult<()>)
        requires
            old(self)@.wf(old(wrapper)@),
        ensures
            r == old(self)@.push_result(old(wrapper)@, key.spec_bytes(), value@, reserved),
            r is Ok ==> final(self)@ == old(self)@.advanced(old(wrapper)@, key.spec_bytes())
                && final(wrapper)@ == old(self)@.push_buffer(
                old(wrapper)@,
                key.spec_bytes(),
                value@,
            ),
            r is Err ==> *final(self) == *old(self) && final(wrapper)@ == old(wrapper)@,
            final(self)@.wf(final(wrapper)@),
    {
        if self.depth != wrapper.depth() {
            return Err(BuildError::InnerUncompletedError);
        }
        if self.value_count >= self.element_count {
            return Err(
                BuildError::InconsistentElementCount {
                    expected: self.element_count,
                    actual: self.value_count as u32 + 1,
                },
            );
        }
        let key_bytes = key.as_bytes();
        let key_len = key_bytes.len();
        if key_len > MAX_KEY_LENGTH {
            return Err(BuildError::KeyTooLong(key_len));
        }
        if self.key_sorted && self.value_count > 0 && !wrapper.precedes(
            self.last_key_pos,
            self.last_key_len,
            key_bytes,
        ) {
            return Err(BuildError::KeyNotSorted);
        }
        if let Value::String(s) = value {
            let len = s.as_bytes().len();
            if len > MAX_STRING_LENGTH {
                return Err(BuildError::StringTooLong(len));
            }
        }
        if let Err(e) = reserved {
            return Err(BuildError::TryReserveError(e));
        }
        let end = wrapper.len();
        let key_offset = #[verifier::truncate] ((end - self.start_pos) as u32);
        let offset = #[verifier::truncate] (((end - self.start_pos) as u128
            + KEY_LENGTH_SIZE as u128 + key_len as u128) as u32);
        let key_offset_pos = self.start_pos + ELEMENT_COUNT_SIZE + KEY_OFFSET_SIZE * (
        self.value_count as usize);
        let entry_pos = self.start_pos + ELEMENT_COUNT_SIZE + KEY_OFFSET_SIZE * (
        self.element_count as usize) + VALUE_ENTRY_SIZE * (self.value_count as usize);
        wrapper.write_u32(key_offset, key_offset_pos);
        wrapper.write_entry(entry_pos, &value, offset);
        wrapper.push_key(key);
        let key_end = wrapper.len();
        wrapper.push_data(value);
        self.value_count = self.value_count + 1;
        self.last_key_pos = key_end - key_len;
        self.last_key_len = key_len;
        assert(wrapper@.bytes =~= old(self)@.push_buffer(
            old(wrapper)@,
            key.spec_bytes(),
            value@,
        ).bytes);
        Ok(())
    }

    /// Pushes `value` under `key`: asks the buffer for the room that the two
    /// need, and goes on as [`InnerObjectBuilder::push_value`] does with the
    /// answer.
    pub fn push(&mut self, wrapper: &mut BytesWrapper, key: &str, value: Value<'_>) -> (r:
        BuildResult<()>)
        requires
            old(self)@.wf(old(wrapper)@),
        ensures
            old(self)@.push_outcome(old(wrapper)@, key.spec_bytes(), value@, r),
            r is Ok ==> final(self)@ == old(self)@.advanced(old(wrapper)@, key.spec_bytes())
                && final(wrapper)@ == old(self)@.push_buffer(
                old(wrapper)@,
                key.spec_bytes(),
                value@,
            ),
            r is Err ==> *final(self) == *old(self) && final(wrapper)@ == old(wrapper)@,
            final(self)@.wf(final(wrapper)@),
    {
        let reserved = wrapper.try_reserve(room(key, &value));
        self.push_value(wrapper, key, value, reserved)
    }

    /// Pushes an empty object of `element_count` elements under `key` and
    /// returns the builder through which they are pushed. Until that builder is
    /// finished, this one refuses every operation.
    pub fn push_object(
        &mut self,
        wrapper: &mut BytesWrapper,
        key: &str,
        element_count: u16,
        key_sorted: bool,
    ) -> (r: BuildResult<InnerObjectBuilder>)
        requires
            old(self)@.wf(old(wrapper)@),
        ensures
            old(self)@.push_outcome(
                old(wrapper)@,
                key.spec_bytes(),
                ValueView::Object(element_count),
                r,
            ),
            r matches Ok(child) ==> {
                &&& final(self)@ == old(self)@.advanced(old(wrapper)@, key.spec_bytes())
                &&& final(wrapper)@ == old(self)@.push_buffer(
                    old(wrapper)@,
                    key.spec_bytes(),
                    ValueView::Object(element_count),
                )
                &&& child@ == ObjectCursor::opened(
                    old(wrapper)@.append(key_data(key.spec_bytes())),
                    element_count,
                    key_sorted,
                )
                &&& child@.wf(final(wrapper)@)
            },
            r is Err ==> *final(self) == *old(self) && final(wrapper)@ == old(wrapper)@,
            final(self)@.wf(final(wrapper)@),
    {
        let end = wrapper.len();
        self.push(wrapper, key, Value::Object(element_count))?;
        proof {
            wrapper.lemma_len_fits();
        }
        let at = end + KEY_LENGTH_SIZE + key.as_bytes().len();
        Ok(InnerObjectBuilder::at(wrapper, at, element_count, key_sorted))
    }

    /// Pushes an empty array of `element_count` elements under `key` and
    /// returns the builder through which they are pushed. Until that builder is
    /// finished, this one refuses every operation.
    pub fn push_array(&mut self, wrapper: &mut BytesWrapper, key: &str, element_count: u16) -> (r:
        BuildResult<InnerArrayBuilder>)
        requires
            old(self)@.wf(old(wrapper)@),
        ensures
            old(self)@.push_outcome(
                old(wrapper)@,
                key.spec_bytes(),
                ValueView::Array(element_count),
                r,
            ),
            r matches Ok(child) ==> {
                &&& final(self)@ == old(self)@.advanced(old(wrapper)@, key.spec_bytes())
                &&& final(wrapper)@ == old(self)@.push_buffer(
                    old(wrapper)@,
                    key.spec_bytes(),
                    ValueView::Array(element_count),
                )
                &&& child@ == ArrayCursor::opened(
                    old(wrapper)@.append(key_data(key.spec_bytes())),
                    element_count,
                )
                &&& child@.wf(final(wrapper)@)
            },
            r is Err ==> *final(self) == *old(self) && final(wrapper)@ == old(wrapper)@,
            final(self)@.wf(final(wrapper)@),
    {
        let end = wrapper.len();
        self.push(wrapper, key, Value::Array(element_count))?;
        proof {
            wrapper.lemma_len_fits();
        }
        let at = end + KEY_LENGTH_SIZE + key.as_bytes().len();
        Ok(InnerArrayBuilder::at(wrapper, at, element_count))
    }

    /// Pushes a string under `key`.
    pub fn push_string(&mut self, wrapper: &mut BytesWrapper, key: &str, value: &str) -> (r:
        BuildResult<()>)
        requires
            old(self)@.wf(old(wrapper)@),
        ensures
            old(self)@.push_outcome(
                old(wrapper)@,
                key.spec_bytes(),
                ValueView::String(value.spec_bytes()),
                r,
            ),
            r is Ok ==> final(self)@ == old(self)@.advanced(old(wrapper)@, key.spec_bytes())
                && final(wrapper)@ == old(self)@.push_buffer(
                old(wrapper)@,
                key.spec_bytes(),
                ValueView::String(value.spec_bytes()),
            ),
            r is Err ==> *final(self) == *old(self) && final(wrapper)@ == old(wrapper)@,
            final(self)@.wf(final(wrapper)@),
    {
        self.push(wrapper, key, Value::String(value))
    }

    /// Pushes a number under `key`.
    pub fn push_number(&mut self, wrapper: &mut BytesWrapper, key: &str, value: Number) -> (r:
        BuildResult<()>)
        requires
            old(self)@.wf(old(wrapper)@),
        ensures
            old(self)@.push_outcome(
                old(wrapper)@,
                key.spec_bytes(),
                ValueView::Number(value@),
                r,
            ),
            r is Ok ==> final(self)@ == old(self)@.advanced(old(wrapper)@, key.spec_bytes())
                && final(wrapper)@ == old(self)@.push_buffer(
                old(wrapper)@,
                key.spec_bytes(),
                ValueView::Number(value@),
            ),
            r is Err ==> *final(self) == *old(self) && final(wrapper)@ == old(wrapper)@,
            final(self)@.wf(final(wrapper)@),
    {
        self.push(wrapper, key, Value::Number(value))
    }

    /// Pushes a boolean under `key`. The value lives in its entry: the data
    /// region grows by the key alone.
    pub fn push_bool(&mut self, wrapper: &mut BytesWrapper, key: &str, value: bool) -> (r:
        BuildResult<()>)
        requires
            old(self)@.wf(old(wrapper)@),
        ensures
            old(self)@.push_outcome(old(wrapper)@, key.spec_bytes(), ValueView::Bool(value), r),
            r is Ok ==> final(self)@ == old(self)@.advanced(old(wrapper)@, key.spec_bytes())
                && final(wrapper)@ == old(self)@.push_buffer(
                old(wrapper)@,
                key.spec_bytes(),
                ValueView::Bool(value),
            ),
            r is Err ==> *final(self) == *old(self) && final(wrapper)@ == old(wrapper)@,
            final(self)@.wf(final(wrapper)@),
    {
        self.push(wrapper, key, Value::Bool(value))
    }

    /// Pushes null under `key`. The value lives in its entry: the data region
    /// grows by the key alone.
    pub fn push_null(&mut self, wrapper: &mut BytesWrapper, key: &str) -> (r: BuildResult<()>)
        requires
            old(self)@.wf(old(wrapper)@),
        ensures
            old(self)@.push_outcome(old(wrapper)@, key.spec_bytes(), ValueView::Null, r),
            r is Ok ==> final(self)@ == old(self)@.advanced(old(wrapper)@, key.spec_bytes())
                && final(wrapper)@ == old(self)@.push_buffer(
                old(wrapper)@,
                key.spec_bytes(),
                ValueView::Null,
            ),
            r is Err ==> *final(self) == *old(self) && final(wrapper)@ == old(wrapper)@,
            final(self)@.wf(final(wrapper)@),
    {
        self.push(wrapper, key, Value::Null)
    }
}

/// Count enforcement. Of an object that is short of elements, with no nested
/// builder unfinished, `finish` fails and tells how many elements were
/// declared and how many were pushed. Of an object that is full, `finish`
/// succeeds, and a push is refused with the count that it would have made.
pub proof fn lemma_count_enforced(
    cursor: ObjectCursor,
    buffer: Buffer,
    key: Seq<u8>,
    value: ValueView,
)
    requires
        cursor.wf(buffer),
        cursor.is_active(buffer),
    ensures
        cursor.pushed < cursor.declared ==> cursor.finish_result(buffer) == Err::<
            usize,
            BuildError,
        >(
            BuildError::InconsistentElementCount {
                expected: cursor.declared,
                actual: cursor.pushed as u32,
            },
        ),
        cursor.pushed == cursor.declared ==> {
            &&& cursor.finish_result(buffer) is Ok
            &&& cursor.push_refusal(buffer, key, value) == Some(
                BuildError::InconsistentElementCount {
                    expected: cursor.declared,
                    actual: (cursor.declared + 1) as u32,
                },
            )
        },
{
}

/// Key order. An object that was declared as sorted takes a key only if the
/// key comes after the key pushed before it, and an object that was not takes
/// any key that is not too long.
pub proof fn lemma_key_order_enforced(
    cursor: ObjectCursor,
    buffer: Buffer,
    key: Seq<u8>,
    value: ValueView,
)
    requires
        cursor.wf(buffer),
        cursor.push_refusal(buffer, key, value) is None,
    ensures
        key.len() <= MAX_KEY_LENGTH,
        cursor.sorted && cursor.pushed > 0 ==> key_precedes(cursor.last_key(buffer), key),
{
}

/// Nesting enforcement, first half. When a push has opened a node, the object
/// that holds the node refuses every push and `finish`, for as long as the
/// depth of the buffer stays above the depth of the object.
pub proof fn lemma_nested_blocks(
    cursor: ObjectCursor,
    buffer: Buffer,
    key: Seq<u8>,
    node: ValueView,
    later: Buffer,
    next_key: Seq<u8>,
    value: ValueView,
)
    requires
        cursor.wf(buffer),
        cursor.push_refusal(buffer, key, node) is None,
        node.is_node(),
        later.depth >= cursor.push_buffer(buffer, key, node).depth,
    ensures
        cursor.push_buffer(buffer, key, node).depth == cursor.depth + 1,
        cursor.advanced(buffer, key).push_refusal(later, next_key, value) == Some(
            BuildError::InnerUncompletedError,
        ),
        cursor.advanced(buffer, key).finish_result(later) == Err::<usize, BuildError>(
            BuildError::InnerUncompletedError,
        ),
{
}

/// Nesting enforcement, second half. When the object that was opened directly
/// in this object is finished, this object is the open node again: it lies in
/// the buffer that `finish` leaves, and no operation is refused for a nested
/// builder.
pub proof fn lemma_nested_object_finished(
    cursor: ObjectCursor,
    nested: ObjectCursor,
    buffer: Buffer,
    key: Seq<u8>,
    value: ValueView,
)
    requires
        cursor.wf(buffer),
        nested.wf(buffer),
        nested.depth == cursor.depth + 1,
        nested.finish_result(buffer) is Ok,
    ensures
        cursor.wf(nested.finish_buffer(buffer)),
        cursor.is_active(nested.finish_buffer(buffer)),
        cursor.push_refusal(nested.finish_buffer(buffer), key, value) != Some(
            BuildError::InnerUncompletedError,
        ),
        cursor.finish_result(nested.finish_buffer(buffer)) != Err::<usize, BuildError>(
            BuildError::InnerUncompletedError,
        ),
{
}

/// Nesting enforcement, second half, for a nested array. When the array that
/// was opened directly in this object is finished, this object is the open
/// node again: it lies in the buffer that `finish` leaves, and no operation is
/// refused for a nested builder.
pub proof fn lemma_nested_array_finished(
    cursor: ObjectCursor,
    nested: ArrayCursor,
    buffer: Buffer,
    key: Seq<u8>,
    value: ValueView,
)
    requires
        cursor.wf(buffer),
        nested.wf(buffer),
        nested.depth == cursor.depth + 1,
        nested.finish_result(buffer) is Ok,
    ensures
        cursor.wf(nested.finish_buffer(buffer)),
        cursor.is_active(nested.finish_buffer(buffer)),
        cursor.push_refusal(nested.finish_buffer(buffer), key, value) != Some(
            BuildError::InnerUncompletedError,
        ),
        cursor.finish_result(nested.finish_buffer(buffer)) != Err::<usize, BuildError>(
            BuildError::InnerUncompletedError,
        ),
{
}

/// Builder of an object in a buffer that is borrowed: from the caller, for a
/// document of its own, or from the builder of the node that holds the object.
///
/// It is the cursor of the object together with the buffer that the cursor
/// points into.
#[derive(Debug)]
pub struct ObjectRefBuilder<'a> {
    pub wrapper: &'a mut BytesWrapper,
    pub inner: InnerObjectBuilder,
}

impl<'a> ObjectRefBuilder<'a> {
    /// The cursor lies in the buffer.
    pub open spec fn wf(&self) -> bool {
        self.inner@.wf(self.wrapper@)
    }

    /// This builder is what a push of `value` under `key` makes of `before`.
    pub open spec fn pushed(&self, before: &Self, key: Seq<u8>, value: ValueView) -> bool {
        &&& before.inner@.push_refusal(before.wrapper@, key, value) is None
        &&& self.inner@ == before.inner@.advanced(before.wrapper@, key)
        &&& self.wrapper@ == before.inner@.push_buffer(before.wrapper@, key, value)
        &&& self.wf()
    }

    /// This builder is `before`, as a push of `value` under `key` leaves it
    /// that failed with `e`: the cursor and the buffer are untouched, and `e` is
    /// the refusal of the push or the failure to get room.
    pub open spec fn refused(&self, before: &Self, key: Seq<u8>, value: ValueView, e: BuildError) -> bool {
        &&& before.inner@.push_outcome(before.wrapper@, key, value, Err::<(), BuildError>(e))
        &&& self.inner == before.inner
        &&& self.wrapper@ == before.wrapper@
        &&& self.wf()
    }

    /// Opens an object of `element_count` elements, sorted by key or not, at
    /// the end of `wrapper`.
    ///
    /// Fails if the buffer cannot make room for the header of the object, and
    /// then leaves the buffer as it was.
    pub fn try_new(wrapper: &'a mut BytesWrapper, element_count: u16, key_sorted: bool) -> (r:
        BuildResult<Self>)
        requires
            old(wrapper)@.wf(),
        ensures
            match r {
                Ok(b) => {
                    &&& b.inner@ == ObjectCursor::opened(old(wrapper)@, element_count, key_sorted)
                    &&& b.wrapper@ == (Buffer {
                        bytes: old(wrapper)@.bytes + object_header(element_count),
                        depth: old(wrapper)@.depth + 1,
                    })
                    &&& b.wf()
                    &&& *final(b.wrapper) == *final(wrapper)
                },
                Err(e) => e is TryReserveError && final(wrapper)@ == old(wrapper)@,
            },
    {
        match InnerObjectBuilder::try_new(wrapper, element_count, key_sorted) {
            Ok(inner) => Ok(ObjectRefBuilder { wrapper, inner }),
            Err(e) => Err(e),
        }
    }

    /// Finishes the object: writes the size of the object into its header and
    /// closes it. Returns the bytes of the object, from its tag to the end of
    /// the buffer.
    ///
    /// Fails, and leaves the buffer as it was, if a nested builder is
    /// unfinished or if fewer elements were pushed than were declared.
    pub fn finish(self) -> (r: BuildResult<&'a [u8]>)
        requires
            self.wf(),
        ensures
            match r {
                Ok(node) => {
                    &&& self.inner@.finish_result(old(self.wrapper)@) is Ok
                    &&& final(self.wrapper)@ == self.inner@.finish_buffer(old(self.wrapper)@)
                    &&& node@ == final(self.wrapper)@.bytes.skip(self.inner@.start - NODE_PREFIX_SIZE)
                    &&& node@.len() - NODE_PREFIX_SIZE <= i32::MAX ==> size_at(
                        node@,
                        NODE_PREFIX_SIZE as int,
                    ) == node@.len() - NODE_PREFIX_SIZE
                },
                Err(e) => {
                    &&& self.inner@.finish_result(old(self.wrapper)@) == Err::<usize, BuildError>(e)
                    &&& final(self.wrapper)@ == old(self.wrapper)@
                },
            },
    {
        let Self { wrapper, inner } = self;
        let at = inner.finish(wrapper)?;
        let wrapper: &'a BytesWrapper = wrapper;
        let bytes = wrapper.as_bytes();
        let node = slice_subrange(bytes, at, bytes.len());
        assert(node@ =~= bytes@.skip(at as int));
        Ok(node)
    }

    /// Pushes under `key` an empty object of `element_count` elements, sorted by
    /// key or not, and returns the builder through which they are pushed. Until
    /// that builder is finished, this one refuses every operation.
    pub fn push_object(&mut self, key: &str, element_count: u16, key_sorted: bool) -> (r: BuildResult<ObjectRefBuilder<'_>>)
        requires
            old(self).wf(),
        ensures
            match r {
                Ok(child) => {
                    &&& old(self).inner@.push_refusal(
                        old(self).wrapper@,
                        key.spec_bytes(),
                        ValueView::Object(element_count),
                    ) is None
                    &&& final(self).inner@ == old(self).inner@.advanced(
                        old(self).wrapper@,
                        key.spec_bytes(),
                    )
                    &&& child.inner@ == ObjectCursor::opened(
                        old(self).wrapper@.append(key_data(key.spec_bytes())),
                        element_count,
                        key_sorted,
                    )
                    &&& child.wrapper@ == old(self).inner@.push_buffer(
                        old(self).wrapper@,
                        key.spec_bytes(),
                        ValueView::Object(element_count),
                    )
                    &&& child.wf()
                    &&& *final(self).wrapper == *final(child.wrapper)
                    &&& *final(final(self).wrapper) == *final(old(self).wrapper)
                },
                Err(e) => {
                    &&& final(self).refused(old(self), key.spec_bytes(), ValueView::Object(element_count), e)
                    &&& *final(final(self).wrapper) == *final(old(self).wrapper)
                },
            },
    {
        match self.inner.push_object(self.wrapper, key, element_count, key_sorted) {
            Ok(inner) => Ok(ObjectRefBuilder { wrapper: &mut *self.wrapper, inner }),
            Err(e) => Err(e),
        }
    }

    /// Pushes under `key` an empty array of `element_count` elements and returns
    /// the builder through which they are pushed. Until that builder is
    /// finished, this one refuses every operation.
    pub fn push_array(&mut self, key: &str, element_count: u16) -> (r: BuildResult<ArrayRefBuilder<'_>>)
        requires
            old(self).wf(),
        ensures
            match r {
                Ok(child) => {
                    &&& old(self).inner@.push_refusal(
                        old(self).wrapper@,
                        key.spec_bytes(),
                        ValueView::Array(element_count),
                    ) is None
                    &&& final(self).inner@ == old(self).inner@.advanced(
                        old(self).wrapper@,
                        key.spec_bytes(),
                    )
                    &&& child.inner@ == ArrayCursor::opened(
                        old(self).wrapper@.append(key_data(key.spec_bytes())),
                        element_count,
                    )
                    &&& child.wrapper@ == old(self).inner@.push_buffer(
                        old(self).wrapper@,
                        key.spec_bytes(),
                        ValueView::Array(element_count),
                    )
                    &&& child.wf()
                    &&& *final(self).wrapper == *final(child.wrapper)
                    &&& *final(final(self).wrapper) == *final(old(self).wrapper)
                },
                Err(e) => {
                    &&& final(self).refused(old(self), key.spec_bytes(), ValueView::Array(element_count), e)
                    &&& *final(final(self).wrapper) == *final(old(self).wrapper)
                },
            },
    {
        match self.inner.push_array(self.wrapper, key, element_count) {
            Ok(inner) => Ok(ArrayRefBuilder { wrapper: &mut *self.wrapper, inner }),
            Err(e) => Err(e),
        }
    }

    /// Pushes a string under `key`.
    pub fn push_string(&mut self, key: &str, value: &str) -> (r: BuildResult<&mut Self>)
        requires
            old(self).wf(),
        ensures
            match r {
                Ok(s) => {
                    &&& s.pushed(old(self), key.spec_bytes(), ValueView::String(value.spec_bytes()))
                    &&& *final(s.wrapper) == *final(old(self).wrapper)
                    &&& *final(self) == *final(s)
                },
                Err(e) => {
                    &&& final(self).refused(old(self), key.spec_bytes(), ValueView::String(value.spec_bytes()), e)
                    &&& *final(final(self).wrapper) == *final(old(self).wrapper)
                },
            },
    {
        match self.inner.push_string(self.wrapper, key, value) {
            Ok(()) => Ok(self),
            Err(e) => Err(e),
        }
    }

    /// Pushes a number under `key`.
    pub fn push_number(&mut self, key: &str, value: Number) -> (r: BuildResult<&mut Self>)
        requires
            old(self).wf(),
        ensures
            match r {
                Ok(s) => {
                    &&& s.pushed(old(self), key.spec_bytes(), ValueView::Number(value@))
                    &&& *final(s.wrapper) == *final(old(self).wrapper)
                    &&& *final(self) == *final(s)
                },
                Err(e) => {
                    &&& final(self).refused(old(self), key.spec_bytes(), ValueView::Number(value@), e)
                    &&& *final(final(self).wrapper) == *final(old(self).wrapper)
                },
            },
    {
        match self.inner.push_number(self.wrapper, key, value) {
            Ok(()) => Ok(self),
            Err(e) => Err(e),
        }
    }

    /// Pushes a boolean under `key`. The value lives in its entry: the data
    /// region grows by the key alone.
    pub fn push_bool(&mut self, key: &str, value: bool) -> (r: BuildResult<&mut Self>)
        requires
            old(self).wf(),
        ensures
            match r {
                Ok(s) => {
                    &&& s.pushed(old(self), key.spec_bytes(), ValueView::Bool(value))
                    &&& *final(s.wrapper) == *final(old(self).wrapper)
                    &&& *final(self) == *final(s)
                },
                Err(e) => {
                    &&& final(self).refused(old(self), key.spec_bytes(), ValueView::Bool(value), e)
                    &&& *final(final(self).wrapper) == *final(old(self).wrapper)
                },
            },
    {
        match self.inner.push_bool(self.wrapper, key, value) {
            Ok(()) => Ok(self),
            Err(e) => Err(e),
        }
    }

    /// Pushes null under `key`. The value lives in its entry: the data region
    /// grows by the key alone.
    pub fn push_null(&mut self, key: &str) -> (r: BuildResult<&mut Self>)
        requires
            old(self).wf(),
        ensures
            match r {
                Ok(s) => {
                    &&& s.pushed(old(self), key.spec_bytes(), ValueView::Null)
                    &&& *final(s.wrapper) == *final(old(self).wrapper)
                    &&& *final(self) == *final(s)
                },
                Err(e) => {
                    &&& final(self).refused(old(self), key.spec_bytes(), ValueView::Null, e)
                    &&& *final(final(self).wrapper) == *final(old(self).wrapper)
                },
            },
    {
        match self.inner.push_null(self.wrapper, key) {
            Ok(()) => Ok(self),
            Err(e) => Err(e),
        }
    }
}

/// Builder of an object that is a document of its own, in a buffer that the
/// builder makes and, when the object is finished, hands over.
#[derive(Debug)]
pub struct ObjectBuilder {
    wrapper: BytesWrapper,
    inner: InnerObjectBuilder,
}

impl ObjectBuilder {
    /// Where the object stands.
    pub closed spec fn cursor(&self) -> ObjectCursor {
        self.inner@
    }

    /// The buffer of the document.
    pub closed spec fn buffer(&self) -> Buffer {
        self.wrapper@
    }

    /// The cursor lies in the buffer.
    pub open spec fn wf(&self) -> bool {
        self.cursor().wf(self.buffer())
    }

    /// This builder is what a push of `value` under `key` makes of `before`.
    pub open spec fn pushed(&self, before: &Self, key: Seq<u8>, value: ValueView) -> bool {
        &&& before.cursor().push_refusal(before.buffer(), key, value) is None
        &&& self.cursor() == before.cursor().advanced(before.buffer(), key)
        &&& self.buffer() == before.cursor().push_buffer(before.buffer(), key, value)
        &&& self.wf()
    }

    /// This builder is `before`, as a push of `value` under `key` leaves it
    /// that failed with `e`: the cursor and the buffer are untouched, and `e` is
    /// the refusal of the push or the failure to get room.
    pub open spec fn refused(&self, before: &Self, key: Seq<u8>, value: ValueView, e: BuildError) -> bool {
        &&& before.cursor().push_outcome(before.buffer(), key, value, Err::<(), BuildError>(e))
        &&& self.cursor() == before.cursor()
        &&& self.buffer() == before.buffer()
        &&& self.wf()
    }

    /// Opens an object of `element_count` elements, sorted by key or not, at
    /// the start of a new buffer.
    ///
    /// Fails if no buffer is to be had with room for the header of the object.
    pub fn try_new(element_count: u16, key_sorted: bool) -> (r: BuildResult<Self>)
        ensures
            match r {
                Ok(b) => {
                    &&& b.cursor() == ObjectCursor::opened(
                        Buffer { bytes: Seq::empty(), depth: 0 },
                        element_count,
                        key_sorted,
                    )
                    &&& b.buffer() == (Buffer { bytes: object_header(element_count), depth: 1 })
                    &&& b.wf()
                },
                Err(e) => e is TryReserveError,
            },
    {
        let mut wrapper = BytesWrapper::new(Vec::new());
        if let Err(e) = wrapper.try_reserve(DEFAULT_SIZE) {
            return Err(BuildError::TryReserveError(e));
        }
        match InnerObjectBuilder::try_new(&mut wrapper, element_count, key_sorted) {
            Ok(inner) => {
                assert(wrapper@.bytes =~= object_header(element_count));
                Ok(ObjectBuilder { wrapper, inner })
            },
            Err(e) => Err(e),
        }
    }

    /// Finishes the object: writes the size of the object into its header and
    /// hands over the document.
    ///
    /// Fails if a nested builder is unfinished or if fewer elements were pushed
    /// than were declared.
    pub fn finish(self) -> (r: BuildResult<YasonBuf>)
        requires
            self.wf(),
        ensures
            match r {
                Ok(document) => {
                    &&& self.cursor().finish_result(self.buffer()) is Ok
                    &&& document@ == self.cursor().finish_buffer(self.buffer()).bytes
                    &&& document@.len() - self.cursor().start <= i32::MAX ==> size_at(
                        document@,
                        self.cursor().start as int,
                    ) == document@.len() - self.cursor().start
                },
                Err(e) => self.cursor().finish_result(self.buffer()) == Err::<usize, BuildError>(e),
            },
    {
        let Self { mut wrapper, inner } = self;
        match inner.finish(&mut wrapper) {
            Ok(_) => Ok(YasonBuf::new(wrapper.into_bytes())),
            Err(e) => Err(e),
        }
    }

    /// Pushes under `key` an empty object of `element_count` elements, sorted by
    /// key or not, and returns the builder through which they are pushed. Until
    /// that builder is finished, this one refuses every operation.
    pub fn push_object(&mut self, key: &str, element_count: u16, key_sorted: bool) -> (r: BuildResult<ObjectRefBuilder<'_>>)
        requires
            old(self).wf(),
        ensures
            match r {
                Ok(child) => {
                    &&& old(self).cursor().push_refusal(
                        old(self).buffer(),
                        key.spec_bytes(),
                        ValueView::Object(element_count),
                    ) is None
                    &&& final(self).cursor() == old(self).cursor().advanced(
                        old(self).buffer(),
                        key.spec_bytes(),
                    )
                    &&& child.inner@ == ObjectCursor::opened(
                        old(self).buffer().append(key_data(key.spec_bytes())),
                        element_count,
                        key_sorted,
                    )
                    &&& child.wrapper@ == old(self).cursor().push_buffer(
                        old(self).buffer(),
                        key.spec_bytes(),
                        ValueView::Object(element_count),
                    )
                    &&& child.wf()
                    &&& final(self).buffer() == final(child.wrapper)@
                },
                Err(e) => final(self).refused(old(self), key.spec_bytes(), ValueView::Object(element_count), e),
            },
    {
        match self.inner.push_object(&mut self.wrapper, key, element_count, key_sorted) {
            Ok(inner) => Ok(ObjectRefBuilder { wrapper: &mut self.wrapper, inner }),
            Err(e) => Err(e),
        }
    }

    /// Pushes under `key` an empty array of `element_count` elements and returns
    /// the builder through which they are pushed. Until that builder is
    /// finished, this one refuses every operation.
    pub fn push_array(&mut self, key: &str, element_count: u16) -> (r: BuildResult<ArrayRefBuilder<'_>>)
        requires
            old(self).wf(),
        ensures
            match r {
                Ok(child) => {
                    &&& old(self).cursor().push_refusal(
                        old(self).buffer(),
                        key.spec_bytes(),
                        ValueView::Array(element_count),
                    ) is None
                    &&& final(self).cursor() == old(self).cursor().advanced(
                        old(self).buffer(),
                        key.spec_bytes(),
                    )
                    &&& child.inner@ == ArrayCursor::opened(
                        old(self).buffer().append(key_data(key.spec_bytes())),
                        element_count,
                    )
                    &&& child.wrapper@ == old(self).cursor().push_buffer(
                        old(self).buffer(),
                        key.spec_bytes(),
                        ValueView::Array(element_count),
                    )
                    &&& child.wf()
                    &&& final(self).buffer() == final(child.wrapper)@
                },
                Err(e) => final(self).refused(old(self), key.spec_bytes(), ValueView::Array(element_count), e),
            },
    {
        match self.inner.push_array(&mut self.wrapper, key, element_count) {
            Ok(inner) => Ok(ArrayRefBuilder { wrapper: &mut self.wrapper, inner }),
            Err(e) => Err(e),
        }
    }

    /// Pushes a string under `key`.
    pub fn push_string(&mut self, key: &str, value: &str) -> (r: BuildResult<&mut Self>)
        requires
            old(self).wf(),
        ensures
            match r {
                Ok(s) => s.pushed(old(self), key.spec_bytes(), ValueView::String(value.spec_bytes())) && *final(self) == *final(s),
                Err(e) => final(self).refused(old(self), key.spec_bytes(), ValueView::String(value.spec_bytes()), e),
            },
    {
        match self.inner.push_string(&mut self.wrapper, key, value) {
            Ok(()) => Ok(self),
            Err(e) => Err(e),
        }
    }

    /// Pushes a number under `key`.
    pub fn push_number(&mut self, key: &str, value: Number) -> (r: BuildResult<&mut Self>)
        requires
            old(self).wf(),
        ensures
            match r {
                Ok(s) => s.pushed(old(self), key.spec_bytes(), ValueView::Number(value@)) && *final(self) == *final(s),
                Err(e) => final(self).refused(old(self), key.spec_bytes(), ValueView::Number(value@), e),
            },
    {
        match self.inner.push_number(&mut self.wrapper, key, value) {
            Ok(()) => Ok(self),
            Err(e) => Err(e),
        }
    }

    /// Pushes a boolean under `key`. The value lives in its entry: the data
    /// region grows by the key alone.
    pub fn push_bool(&mut self, key: &str, value: bool) -> (r: BuildResult<&mut Self>)
        requires
            old(self).wf(),
        ensures
            match r {
                Ok(s) => s.pushed(old(self), key.spec_bytes(), ValueView::Bool(value)) && *final(self) == *final(s),
                Err(e) => final(self).refused(old(self), key.spec_bytes(), ValueView::Bool(value), e),
            },
    {
        match self.inner.push_bool(&mut self.wrapper, key, value) {
            Ok(()) => Ok(self),
            Err(e) => Err(e),
        }
    }

    /// Pushes null under `key`. The value lives in its entry: the data region
    /// grows by the key alone.
    pub fn push_null(&mut self, key: &str) -> (r: BuildResult<&mut Self>)
        requires
            old(self).wf(),
        ensures
            match r {
                Ok(s) => s.pushed(old(self), key.spec_bytes(), ValueView::Null) && *final(self) == *final(s),
                Err(e) => final(self).refused(old(self), key.spec_bytes(), ValueView::Null, e),
            },
    {
        match self.inner.push_null(&mut self.wrapper, key) {
            Ok(()) => Ok(self),
            Err(e) => Err(e),
        }
    }
}

} // verus!
