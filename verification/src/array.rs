//! Builders of arrays.
//!
//! An array is opened with the number of its elements. That many entries are
//! laid out behind its header, and each push fills in the next: with the value
//! itself for a boolean or null, and for any other value with the offset of
//! its data, which the push writes at the end of the buffer. A push to an array
//! that is full is refused at once, so that no entry is ever written outside
//! the table; `finish` refuses an array that is short of values.
//!
//! A push of an object or an array hands out the builder of that node. Until
//! the node is finished, the array that holds it refuses every operation: each
//! builder remembers the depth of the buffer at which it was opened, and works
//! only while the buffer is at that depth.
//!
//! There are three builders. [`InnerArrayBuilder`] is the cursor of an array
//! alone, and takes the buffer with every call. [`ArrayRefBuilder`] is a
//! cursor together with a borrowed buffer, and [`ArrayBuilder`] a cursor
//! together with a buffer of its own.

use crate::binary::{
    array_header, overwrite, u32_le, ARRAY_SIZE, ELEMENT_COUNT_SIZE, MAX_STRING_LENGTH,
    NODE_PREFIX_SIZE, VALUE_ENTRY_SIZE,
};
use crate::buffer::{Buffer, BytesWrapper, DEFAULT_SIZE};
use crate::error::{reservation, BuildError, BuildResult};
use crate::number::Number;
use crate::object::{InnerObjectBuilder, ObjectCursor, ObjectRefBuilder};
use crate::reading::{lemma_finish_size, lemma_push_keeps_order, size_at};
use crate::value::{Value, ValueView};
use crate::yason::YasonBuf;
use vstd::string::*;
use std::collections::TryReserveError;
use vstd::prelude::*;
use vstd::slice::slice_subrange;

verus! {

/// Where an array under construction stands: a cursor into the buffer that it
/// shares with the builders of the nodes around it.
#[derive(Debug)]
pub struct InnerArrayBuilder {
    element_count: u16,
    start_pos: usize,
    value_count: u16,
    depth: usize,
}

/// What an [`InnerArrayBuilder`] holds.
pub struct ArrayCursor {
    /// The position in the buffer of the element count of the array. The tag of
    /// the array is five bytes before it, its size field four.
    pub start: nat,
    /// The number of elements declared at creation.
    pub declared: u16,
    /// The number of values pushed so far.
    pub pushed: u16,
    /// The depth of the buffer when the array had just been opened.
    pub depth: nat,
}

impl ArrayCursor {
    /// The cursor of an array that has just been opened at the end of `buffer`.
    pub open spec fn opened(buffer: Buffer, count: u16) -> ArrayCursor {
        ArrayCursor {
            start: buffer.bytes.len() + NODE_PREFIX_SIZE as nat,
            declared: count,
            pushed: 0,
            depth: buffer.depth + 1,
        }
    }

    /// The cursor lies in `buffer`: the header and the entry table of the array
    /// are within its bytes, and the array is among its open nodes.
    pub open spec fn wf(self, buffer: Buffer) -> bool {
        &&& buffer.wf()
        &&& NODE_PREFIX_SIZE <= self.start
        &&& self.entry_pos(self.declared as int) <= buffer.bytes.len()
        &&& self.pushed <= self.declared
        &&& 1 <= self.depth <= buffer.depth
    }

    /// No node that was opened after this array is still open.
    pub open spec fn is_active(self, buffer: Buffer) -> bool {
        buffer.depth == self.depth
    }

    /// The position in the buffer of entry `i` of the array.
    pub open spec fn entry_pos(self, i: int) -> int {
        self.start + ELEMENT_COUNT_SIZE + VALUE_ENTRY_SIZE * i
    }

    /// The offset of the end of `buffer` from the element count of the array, as
    /// an entry holds it: in 32 bits.
    pub open spec fn offset(self, buffer: Buffer) -> u32 {
        (buffer.bytes.len() - self.start) as u32
    }

    /// The error with which a push of `value` is refused before any room is
    /// asked for, if it is: a nested builder is unfinished, the array is full,
    /// or the value itself cannot be written.
    pub open spec fn push_refusal(self, buffer: Buffer, value: ValueView) -> Option<BuildError> {
        if !self.is_active(buffer) {
            Some(BuildError::InnerUncompletedError)
        } else if self.pushed >= self.declared {
            Some(
                BuildError::InconsistentElementCount {
                    expected: self.declared,
                    actual: (self.pushed + 1) as u32,
                },
            )
        } else {
            value.refusal()
        }
    }

    /// The result of a push of `value`, given the answer to the request for
    /// room.
    pub open spec fn push_result(
        self,
        buffer: Buffer,
        value: ValueView,
        reserved: Result<(), TryReserveError>,
    ) -> BuildResult<()> {
        match self.push_refusal(buffer, value) {
            Some(e) => Err(e),
            None => reservation(reserved),
        }
    }

    /// Whether `r` may be the result of a push of `value` that asks the buffer
    /// for room itself: the refusal if there is one, and else success or, for a
    /// value that needs room, the failure to get it.
    pub open spec fn push_outcome<T>(self, buffer: Buffer, value: ValueView, r: BuildResult<T>) -> bool {
        match self.push_refusal(buffer, value) {
            Some(e) => r == Err::<T, BuildError>(e),
            None => r is Ok || (value.room() > 0 && (r matches Err(e) && e is TryReserveError)),
        }
    }

    /// The buffer after a push of `value`: the next entry is filled in, the
    /// data of the value stands at the end, and a node is open if the value is
    /// one.
    pub open spec fn push_buffer(self, buffer: Buffer, value: ValueView) -> Buffer {
        Buffer {
            bytes: overwrite(
                buffer.bytes,
                self.entry_pos(self.pushed as int),
                value.entry(self.offset(buffer)),
            ) + value.data(),
            depth: if value.is_node() {
                buffer.depth + 1
            } else {
                buffer.depth
            },
        }
    }

    /// The cursor after a push.
    pub open spec fn advanced(self) -> ArrayCursor {
        ArrayCursor { pushed: (self.pushed + 1) as u16, ..self }
    }

    /// The result of finishing the array: the position of its tag, or the
    /// error that a nested builder is unfinished or that values are missing.
    pub open spec fn finish_result(self, buffer: Buffer) -> BuildResult<usize> {
        if !self.is_active(buffer) {
            Err(BuildError::InnerUncompletedError)
        } else if self.pushed != self.declared {
            Err(
                BuildError::InconsistentElementCount {
                    expected: self.declared,
                    actual: self.pushed as u32,
                },
            )
        } else {
            Ok((self.start - NODE_PREFIX_SIZE) as usize)
        }
    }

    /// The buffer after the array is finished: the size field holds the number
    /// of bytes from the element count to the end of the buffer, in 32 bits,
    /// and the array is no longer open.
    pub open spec fn finish_buffer(self, buffer: Buffer) -> Buffer {
        Buffer {
            bytes: overwrite(buffer.bytes, self.start - ARRAY_SIZE, u32_le(self.offset(buffer))),
            depth: (buffer.depth - 1) as nat,
        }
    }
}

impl View for InnerArrayBuilder {
    type V = ArrayCursor;

    closed spec fn view(&self) -> ArrayCursor {
        ArrayCursor {
            start: self.start_pos as nat,
            declared: self.element_count,
            pushed: self.value_count,
            depth: self.depth as nat,
        }
    }
}

impl InnerArrayBuilder {
    /// Opens an array of `element_count` elements at the end of the buffer.
    ///
    /// Fails if the buffer cannot make room for the header of the array, and
    /// then leaves the buffer as it was.
    pub fn try_new(wrapper: &mut BytesWrapper, element_count: u16) -> (r: BuildResult<Self>)
        requires
            old(wrapper)@.wf(),
        ensures
            match r {
                Ok(b) => {
                    &&& b@ == ArrayCursor::opened(old(wrapper)@, element_count)
                    &&& final(wrapper)@ == (Buffer {
                        bytes: old(wrapper)@.bytes + array_header(element_count),
                        depth: old(wrapper)@.depth + 1,
                    })
                    &&& b@.wf(final(wrapper)@)
                },
                Err(e) => e is TryReserveError && final(wrapper)@ == old(wrapper)@,
            },
    {
        let reserved = wrapper.try_reserve(Value::Array(element_count).room());
        Self::open(wrapper, element_count, reserved)
    }

    /// Opens an array of `element_count` elements at the end of the buffer if
    /// `reserved`, the answer to the request for room, is `Ok`.
    pub fn open(
        wrapper: &mut BytesWrapper,
        element_count: u16,
        reserved: Result<(), TryReserveError>,
    ) -> (r: BuildResult<Self>)
        requires
            old(wrapper)@.wf(),
        ensures
            match r {
                Ok(b) => {
                    &&& reserved is Ok
                    &&& b@ == ArrayCursor::opened(old(wrapper)@, element_count)
                    &&& final(wrapper)@ == (Buffer {
                        bytes: old(wrapper)@.bytes + array_header(element_count),
                        depth: old(wrapper)@.depth + 1,
                    })
                    &&& b@.wf(final(wrapper)@)
                },
                Err(e) => Err::<(), BuildError>(e) == reservation(reserved) && final(wrapper)@
                    == old(wrapper)@,
            },
    {
        match reserved {
            Err(e) => Err(BuildError::TryReserveError(e)),
            Ok(()) => {
                let at = wrapper.len();
                wrapper.open_array(element_count);
                Ok(Self::at(wrapper, at, element_count))
            },
        }
    }

    /// The cursor of the array of `element_count` elements that was opened last
    /// in the buffer and whose tag is at `at`.
    pub(crate) fn at(wrapper: &BytesWrapper, at: usize, element_count: u16) -> (r: Self)
        requires
            at + NODE_PREFIX_SIZE + ELEMENT_COUNT_SIZE + VALUE_ENTRY_SIZE * element_count
                <= wrapper@.bytes.len(),
        ensures
            r@ == (ArrayCursor {
                start: (at + NODE_PREFIX_SIZE) as nat,
                declared: element_count,
                pushed: 0,
                depth: wrapper@.depth,
            }),
    {
        proof {
            wrapper.lemma_len_fits();
        }
        InnerArrayBuilder {
            element_count,
            start_pos: at + NODE_PREFIX_SIZE,
            value_count: 0,
            depth: wrapper.depth(),
        }
    }

    /// Finishes the array: writes the size of the array into its header and
    /// closes it. Returns the position of the tag of the array in the buffer.
    /// The cursor is used up, whatever the result.
    ///
    /// Fails, and leaves the buffer as it was, if a nested builder is
    /// unfinished or if fewer values were pushed than were declared.
    pub fn finish(self, wrapper: &mut BytesWrapper) -> (r: BuildResult<usize>)
        requires
            self@.wf(old(wrapper)@),
        ensures
            r == self@.finish_result(old(wrapper)@),
            r is Ok ==> final(wrapper)@ == self@.finish_buffer(old(wrapper)@),
            r is Ok && old(wrapper)@.bytes.len() - self@.start <= i32::MAX ==> size_at(
                final(wrapper)@.bytes,
                self@.start as int,
            ) == old(wrapper)@.bytes.len() - self@.start,
            r is Err ==> final(wrapper)@ == old(wrapper)@,
    {
        proof {
            if old(wrapper)@.bytes.len() - self@.start <= i32::MAX {
                lemma_finish_size(self@, old(wrapper)@);
            }
        }
        if self.depth != wrapper.depth() {
            return Err(BuildError::InnerUncompletedError);
        }
        if self.value_count != self.element_count {
            return Err(
                BuildError::InconsistentElementCount {
                    expected: self.element_count,
                    actual: self.value_count as u32,
                },
            );
        }
        let total_size = #[verifier::truncate] ((wrapper.len() - self.start_pos) as u32);
        wrapper.write_u32(total_size, self.start_pos - ARRAY_SIZE);
        wrapper.leave();
        Ok(self.start_pos - NODE_PREFIX_SIZE)
    }

    /// Pushes `value`, given the answer `reserved` to the request for the room
    /// that the value needs.
    ///
    /// The checks are made in this order: no nested builder is unfinished;
    /// the array is not full; the value can be written; the room was granted.
    /// When one fails, nothing is written.
    ///
    /// A push of an object or of an array opens the node and hands out no
    /// builder for it: that is what [`InnerArrayBuilder::push_object`] and
    /// [`InnerArrayBuilder::push_array`] are for.
    pub fn push_value(
        &mut self,
        wrapper: &mut BytesWrapper,
        value: Value<'_>,
        reserved: Result<(), TryReserveError>,
    ) -> (r: BuildResult<()>)
        requires
            old(self)@.wf(old(wrapper)@),
        ensures
            r == old(self)@.push_result(old(wrapper)@, value@, reserved),
            r is Ok ==> final(self)@ == old(self)@.advanced() && final(wrapper)@ == old(
                self,
            )@.push_buffer(old(wrapper)@, value@),
            r is Ok && old(self)@.ordered(old(wrapper)@.bytes) && old(wrapper)@.bytes.len() - old(
                self,
            )@.start <= u32::MAX ==> final(self)@.ordered(final(wrapper)@.bytes),
            r is Err ==> *final(self) == *old(self) && final(wrapper)@ == old(wrapper)@,
            final(self)@.wf(final(wrapper)@),
    {
        proof {
            if self@.pushed < self@.declared && self@.ordered(wrapper@.bytes) && wrapper@.bytes.len()
                - self@.start <= u32::MAX {
                lemma_push_keeps_order(self@, wrapper@, value@);
            }
        }
        if self.depth != wrapper.depth() {
            return Err(BuildError::InnerUncompletedError);
        }
        if self.value_count >= self.element_count {
            return Err(
                BuildError::InconsistentElementCount {
                    expected: self.element_count,
                    actual: self.value_count as u32 + 1,
                },
            );
        }
        if let Value::String(s) = value {
            let len = s.as_bytes().len();
            if len > MAX_STRING_LENGTH {
                return Err(BuildError::StringTooLong(len));
            }
        }
        if let Err(e) = reserved {
            return Err(BuildError::TryReserveError(e));
        }
        let offset = #[verifier::truncate] ((wrapper.len() - self.start_pos) as u32);
        let entry_pos = self.start_pos + ELEMENT_COUNT_SIZE + VALUE_ENTRY_SIZE * (
        self.value_count as usize);
        wrapper.write_entry(entry_pos, &value, offset);
        wrapper.push_data(value);
        self.value_count = self.value_count + 1;
        assert(wrapper@.bytes =~= old(self)@.push_buffer(old(wrapper)@, value@).bytes);
        Ok(())
    }

    /// Pushes `value`: asks the buffer for the room that the value needs, and
    /// goes on as [`InnerArrayBuilder::push_value`] does with the answer.
    pub fn push(&mut self, wrapper: &mut BytesWrapper, value: Value<'_>) -> (r: BuildResult<()>)
        requires
            old(self)@.wf(old(wrapper)@),
        ensures
            old(self)@.push_outcome(old(wrapper)@, value@, r),
            r is Ok ==> final(self)@ == old(self)@.advanced() && final(wrapper)@ == old(
                self,
            )@.push_buffer(old(wrapper)@, value@),
            r is Err ==> *final(self) == *old(self) && final(wrapper)@ == old(wrapper)@,
            final(self)@.wf(final(wrapper)@),
    {
        let reserved = wrapper.try_reserve(value.room());
        self.push_value(wrapper, value, reserved)
    }

    /// Pushes an empty object of `element_count` elements and returns the
    /// builder through which they are pushed. Until that builder is finished,
    /// this one refuses every operation.
    pub fn push_object(&mut self, wrapper: &mut BytesWrapper, element_count: u16, key_sorted: bool) -> (r:
        BuildResult<InnerObjectBuilder>)
        requires
            old(self)@.wf(old(wrapper)@),
        ensures
            old(self)@.push_outcome(old(wrapper)@, ValueView::Object(element_count), r),
            r matches Ok(child) ==> {
                &&& final(self)@ == old(self)@.advanced()
                &&& final(wrapper)@ == old(self)@.push_buffer(
                    old(wrapper)@,
                    ValueView::Object(element_count),
                )
                &&& child@ == ObjectCursor::opened(old(wrapper)@, element_count, key_sorted)
                &&& child@.wf(final(wrapper)@)
            },
            r is Err ==> *final(self) == *old(self) && final(wrapper)@ == old(wrapper)@,
            final(self)@.wf(final(wrapper)@),
    {
        let at = wrapper.len();
        self.push(wrapper, Value::Object(element_count))?;
        Ok(InnerObjectBuilder::at(wrapper, at, element_count, key_sorted))
    }

    /// Pushes an empty array of `element_count` elements and returns the
    /// builder through which they are pushed. Until that builder is finished,
    /// this one refuses every operation.
    pub fn push_array(&mut self, wrapper: &mut BytesWrapper, element_count: u16) -> (r: BuildResult<
        InnerArrayBuilder,
    >)
        requires
            old(self)@.wf(old(wrapper)@),
        ensures
            old(self)@.push_outcome(old(wrapper)@, ValueView::Array(element_count), r),
            r matches Ok(child) ==> {
                &&& final(self)@ == old(self)@.advanced()
                &&& final(wrapper)@ == old(self)@.push_buffer(
                    old(wrapper)@,
                    ValueView::Array(element_count),
                )
                &&& child@ == ArrayCursor::opened(old(wrapper)@, element_count)
                &&& child@.wf(final(wrapper)@)
            },
            r is Err ==> *final(self) == *old(self) && final(wrapper)@ == old(wrapper)@,
            final(self)@.wf(final(wrapper)@),
    {
        let at = wrapper.len();
        self.push(wrapper, Value::Array(element_count))?;
        Ok(InnerArrayBuilder::at(wrapper, at, element_count))
    }

    /// Pushes a string.
    pub fn push_string(&mut self, wrapper: &mut BytesWrapper, value: &str) -> (r: BuildResult<()>)
        requires
            old(self)@.wf(old(wrapper)@),
        ensures
            old(self)@.push_outcome(old(wrapper)@, ValueView::String(value.spec_bytes()), r),
            r is Ok ==> final(self)@ == old(self)@.advanced() && final(wrapper)@ == old(
                self,
            )@.push_buffer(old(wrapper)@, ValueView::String(value.spec_bytes())),
            r is Err ==> *final(self) == *old(self) && final(wrapper)@ == old(wrapper)@,
            final(self)@.wf(final(wrapper)@),
    {
        self.push(wrapper, Value::String(value))
    }

    /// Pushes a number.
    pub fn push_number(&mut self, wrapper: &mut BytesWrapper, value: Number) -> (r: BuildResult<()>)
        requires
            old(self)@.wf(old(wrapper)@),
        ensures
            old(self)@.push_outcome(old(wrapper)@, ValueView::Number(value@), r),
            r is Ok ==> final(self)@ == old(self)@.advanced() && final(wrapper)@ == old(
                self,
            )@.push_buffer(old(wrapper)@, ValueView::Number(value@)),
            r is Err ==> *final(self) == *old(self) && final(wrapper)@ == old(wrapper)@,
            final(self)@.wf(final(wrapper)@),
    {
        self.push(wrapper, Value::Number(value))
    }

    /// Pushes a boolean. It lives in its entry: the data region does not grow.
    pub fn push_bool(&mut self, wrapper: &mut BytesWrapper, value: bool) -> (r: BuildResult<()>)
        requires
            old(self)@.wf(old(wrapper)@),
        ensures
            r == old(self)@.push_result(old(wrapper)@, ValueView::Bool(value), Ok(())),
            r is Ok ==> final(self)@ == old(self)@.advanced() && final(wrapper)@ == old(
                self,
            )@.push_buffer(old(wrapper)@, ValueView::Bool(value)),
            r is Err ==> *final(self) == *old(self) && final(wrapper)@ == old(wrapper)@,
            final(wrapper)@.bytes.len() == old(wrapper)@.bytes.len(),
            final(self)@.wf(final(wrapper)@),
    {
        self.push_value(wrapper, Value::Bool(value), Ok(()))
    }

    /// Pushes null. It lives in its entry: the data region does not grow.
    pub fn push_null(&mut self, wrapper: &mut BytesWrapper) -> (r: BuildResult<()>)
        requires
            old(self)@.wf(old(wrapper)@),
        ensures
            r == old(self)@.push_result(old(wrapper)@, ValueView::Null, Ok(())),
            r is Ok ==> final(self)@ == old(self)@.advanced() && final(wrapper)@ == old(
                self,
            )@.push_buffer(old(wrapper)@, ValueView::Null),
            r is Err ==> *final(self) == *old(self) && final(wrapper)@ == old(wrapper)@,
            final(wrapper)@.bytes.len() == old(wrapper)@.bytes.len(),
            final(self)@.wf(final(wrapper)@),
    {
        self.push_value(wrapper, Value::Null, Ok(()))
    }
}

/// Count enforcement. Of an array that is short of values, with no nested
/// builder unfinished, `finish` fails and tells how many values were declared
/// and how many were pushed; a push is refused for the value alone, if at all.
/// Of an array that is full, `finish` succeeds, and a push is refused with the
/// count that it would have made.
pub proof fn lemma_count_enforced(cursor: ArrayCursor, buffer: Buffer, value: ValueView)
    requires
        cursor.wf(buffer),
        cursor.is_active(buffer),
    ensures
        cursor.pushed < cursor.declared ==> {
            &&& cursor.finish_result(buffer) == Err::<usize, BuildError>(
                BuildError::InconsistentElementCount {
                    expected: cursor.declared,
                    actual: cursor.pushed as u32,
                },
            )
            &&& cursor.push_refusal(buffer, value) == value.refusal()
        },
        cursor.pushed == cursor.declared ==> {
            &&& cursor.finish_result(buffer) is Ok
            &&& cursor.push_refusal(buffer, value) == Some(
                BuildError::InconsistentElementCount {
                    expected: cursor.declared,
                    actual: (cursor.declared + 1) as u32,
                },
            )
        },
{
}

/// Nesting enforcement, first half. When a push has opened a node, the array
/// that holds the node refuses every push and `finish`, for as long as the
/// depth of the buffer stays above the depth of the array.
pub proof fn lemma_nested_blocks(
    cursor: ArrayCursor,
    buffer: Buffer,
    node: ValueView,
    later: Buffer,
    value: ValueView,
)
    requires
        cursor.wf(buffer),
        cursor.push_refusal(buffer, node) is None,
        node.is_node(),
        later.depth >= cursor.push_buffer(buffer, node).depth,
    ensures
        cursor.push_buffer(buffer, node).depth == cursor.depth + 1,
        cursor.advanced().push_refusal(later, value) == Some(BuildError::InnerUncompletedError),
        cursor.advanced().finish_result(later) == Err::<usize, BuildError>(
            BuildError::InnerUncompletedError,
        ),
{
}

/// Nesting enforcement, second half. When the array that was opened directly
/// in this array is finished, this array is the open node again: it lies in
/// the buffer that `finish` leaves, and no operation is refused for a nested
/// builder.
pub proof fn lemma_nested_array_finished(
    cursor: ArrayCursor,
    nested: ArrayCursor,
    buffer: Buffer,
    value: ValueView,
)
    requires
        cursor.wf(buffer),
        nested.wf(buffer),
        nested.depth == cursor.depth + 1,
        nested.finish_result(buffer) is Ok,
    ensures
        cursor.wf(nested.finish_buffer(buffer)),
        cursor.is_active(nested.finish_buffer(buffer)),
        cursor.push_refusal(nested.finish_buffer(buffer), value) != Some(
            BuildError::InnerUncompletedError,
        ),
        cursor.finish_result(nested.finish_buffer(buffer)) != Err::<usize, BuildError>(
            BuildError::InnerUncompletedError,
        ),
{
}

/// Nesting enforcement, second half, for a nested object. When the object that
/// was opened directly in this array is finished, this array is the open node
/// again: it lies in the buffer that `finish` leaves, and no operation is
/// refused for a nested builder.
pub proof fn lemma_nested_object_finished(
    cursor: ArrayCursor,
    nested: ObjectCursor,
    buffer: Buffer,
    value: ValueView,
)
    requires
        cursor.wf(buffer),
        nested.wf(buffer),
        nested.depth == cursor.depth + 1,
        nested.finish_result(buffer) is Ok,
    ensures
        cursor.wf(nested.finish_buffer(buffer)),
        cursor.is_active(nested.finish_buffer(buffer)),
        cursor.push_refusal(nested.finish_buffer(buffer), value) != Some(
            BuildError::InnerUncompletedError,
        ),
        cursor.finish_result(nested.finish_buffer(buffer)) != Err::<usize, BuildError>(
            BuildError::InnerUncompletedError,
        ),
{
}

/// Builder of an array in a buffer that is borrowed: from the caller, for a
/// document of its own, or from the builder of the node that holds the array.
///
/// It is the cursor of the array together with the buffer that the cursor
/// points into.
#[derive(Debug)]
pub struct ArrayRefBuilder<'a> {
    pub wrapper: &'a mut BytesWrapper,
    pub inner: InnerArrayBuilder,
}

impl<'a> ArrayRefBuilder<'a> {
    /// The cursor lies in the buffer.
    pub open spec fn wf(&self) -> bool {
        self.inner@.wf(self.wrapper@)
    }

    /// This builder is what a push of `value` makes of `before`.
    pub open spec fn pushed(&self, before: &Self, value: ValueView) -> bool {
        &&& before.inner@.push_refusal(before.wrapper@, value) is None
        &&& self.inner@ == before.inner@.advanced()
        &&& self.wrapper@ == before.inner@.push_buffer(before.wrapper@, value)
        &&& self.wf()
    }

    /// This builder is `before`, as a push of `value` leaves it that failed
    /// with `e`: the cursor and the buffer are untouched, and `e` is the refusal
    /// of the value or, for a value that needs room, the failure to get it.
    pub open spec fn refused(&self, before: &Self, value: ValueView, e: BuildError) -> bool {
        &&& before.inner@.push_outcome(before.wrapper@, value, Err::<(), BuildError>(e))
        &&& self.inner == before.inner
        &&& self.wrapper@ == before.wrapper@
        &&& self.wf()
    }

    /// Opens an array of `element_count` elements at the end of `wrapper`.
    ///
    /// Fails if the buffer cannot make room for the header of the array, and
    /// then leaves the buffer as it was.
    pub fn try_new(wrapper: &'a mut BytesWrapper, element_count: u16) -> (r: BuildResult<Self>)
        requires
            old(wrapper)@.wf(),
        ensures
            match r {
                Ok(b) => {
                    &&& b.inner@ == ArrayCursor::opened(old(wrapper)@, element_count)
                    &&& b.wrapper@ == (Buffer {
                        bytes: old(wrapper)@.bytes + array_header(element_count),
                        depth: old(wrapper)@.depth + 1,
                    })
                    &&& b.wf()
                    &&& *final(b.wrapper) == *final(wrapper)
                },
                Err(e) => e is TryReserveError && final(wrapper)@ == old(wrapper)@,
            },
    {
        match InnerArrayBuilder::try_new(wrapper, element_count) {
            Ok(inner) => Ok(ArrayRefBuilder { wrapper, inner }),
            Err(e) => Err(e),
        }
    }

    /// Finishes the array: writes the size of the array into its header and
    /// closes it. Returns the bytes of the array, from its tag to the end of
    /// the buffer.
    ///
    /// Fails, and leaves the buffer as it was, if a nested builder is
    /// unfinished or if fewer values were pushed than were declared.
    pub fn finish(self) -> (r: BuildResult<&'a [u8]>)
        requires
            self.wf(),
        ensures
            match r {
                Ok(node) => {
                    &&& self.inner@.finish_result(old(self.wrapper)@) is Ok
                    &&& final(self.wrapper)@ == self.inner@.finish_buffer(old(self.wrapper)@)
                    &&& node@ == final(self.wrapper)@.bytes.skip(self.inner@.start - NODE_PREFIX_SIZE)
                    &&& node@.len() - NODE_PREFIX_SIZE <= i32::MAX ==> size_at(
                        node@,
                        NODE_PREFIX_SIZE as int,
                    ) == node@.len() - NODE_PREFIX_SIZE
                },
                Err(e) => {
                    &&& self.inner@.finish_result(old(self.wrapper)@) == Err::<usize, BuildError>(e)
                    &&& final(self.wrapper)@ == old(self.wrapper)@
                },
            },
    {
        let Self { wrapper, inner } = self;
        let at = inner.finish(wrapper)?;
        let wrapper: &'a BytesWrapper = wrapper;
        let bytes = wrapper.as_bytes();
        let node = slice_subrange(bytes, at, bytes.len());
        assert(node@ =~= bytes@.skip(at as int));
        Ok(node)
    }

    /// Pushes an empty object of `element_count` elements, sorted by key or not,
    /// and returns the builder through which they are pushed. Until that builder
    /// is finished, this one refuses every operation.
    pub fn push_object(&mut self, element_count: u16, key_sorted: bool) -> (r: BuildResult<ObjectRefBuilder<'_>>)
        requires
            old(self).wf(),
        ensures
            match r {
                Ok(child) => {
                    &&& old(self).inner@.push_refusal(old(self).wrapper@, ValueView::Object(element_count)) is None
                    &&& final(self).inner@ == old(self).inner@.advanced()
                    &&& child.inner@ == ObjectCursor::opened(old(self).wrapper@, element_count, key_sorted)
                    &&& child.wrapper@ == old(self).inner@.push_buffer(old(self).wrapper@, ValueView::Object(element_count))
                    &&& child.wf()
                    &&& *final(self).wrapper == *final(child.wrapper)
                    &&& *final(final(self).wrapper) == *final(old(self).wrapper)
                },
                Err(e) => {
                    &&& final(self).refused(old(self), ValueView::Object(element_count), e)
                    &&& *final(final(self).wrapper) == *final(old(self).wrapper)
                },
            },
    {
        match self.inner.push_object(self.wrapper, element_count, key_sorted) {
            Ok(inner) => Ok(ObjectRefBuilder { wrapper: &mut *self.wrapper, inner }),
            Err(e) => Err(e),
        }
    }

    /// Pushes an empty array of `element_count` elements and returns the
    /// builder through which they are pushed. Until that builder is finished,
    /// this one refuses every operation.
    pub fn push_array(&mut self, element_count: u16) -> (r: BuildResult<ArrayRefBuilder<'_>>)
        requires
            old(self).wf(),
        ensures
            match r {
                Ok(child) => {
                    &&& old(self).inner@.push_refusal(old(self).wrapper@, ValueView::Array(element_count)) is None
                    &&& final(self).inner@ == old(self).inner@.advanced()
                    &&& child.inner@ == ArrayCursor::opened(old(self).wrapper@, element_count)
                    &&& child.wrapper@ == old(self).inner@.push_buffer(old(self).wrapper@, ValueView::Array(element_count))
                    &&& child.wf()
                    &&& *final(self).wrapper == *final(child.wrapper)
                    &&& *final(final(self).wrapper) == *final(old(self).wrapper)
                },
                Err(e) => {
                    &&& final(self).refused(old(self), ValueView::Array(element_count), e)
                    &&& *final(final(self).wrapper) == *final(old(self).wrapper)
                },
            },
    {
        match self.inner.push_array(self.wrapper, element_count) {
            Ok(inner) => Ok(ArrayRefBuilder { wrapper: &mut *self.wrapper, inner }),
            Err(e) => Err(e),
        }
    }

    /// Pushes a string.
    pub fn push_string(&mut self, value: &str) -> (r: BuildResult<&mut Self>)
        requires
            old(self).wf(),
        ensures
            match r {
                Ok(s) => {
                    &&& s.pushed(old(self), ValueView::String(value.spec_bytes()))
                    &&& *final(s.wrapper) == *final(old(self).wrapper)
                    &&& *final(self) == *final(s)
                },
                Err(e) => {
                    &&& final(self).refused(old(self), ValueView::String(value.spec_bytes()), e)
                    &&& *final(final(self).wrapper) == *final(old(self).wrapper)
                },
            },
    {
        match self.inner.push_string(self.wrapper, value) {
            Ok(()) => Ok(self),
            Err(e) => Err(e),
        }
    }

    /// Pushes a number.
    pub fn push_number(&mut self, value: Number) -> (r: BuildResult<&mut Self>)
        requires
            old(self).wf(),
        ensures
            match r {
                Ok(s) => {
                    &&& s.pushed(old(self), ValueView::Number(value@))
                    &&& *final(s.wrapper) == *final(old(self).wrapper)
                    &&& *final(self) == *final(s)
                },
                Err(e) => {
                    &&& final(self).refused(old(self), ValueView::Number(value@), e)
                    &&& *final(final(self).wrapper) == *final(old(self).wrapper)
                },
            },
    {
        match self.inner.push_number(self.wrapper, value) {
            Ok(()) => Ok(self),
            Err(e) => Err(e),
        }
    }

    /// Pushes a boolean. It lives in its entry: the data region does not grow.
    pub fn push_bool(&mut self, value: bool) -> (r: BuildResult<&mut Self>)
        requires
            old(self).wf(),
        ensures
            match r {
                Ok(s) => {
                    &&& s.pushed(old(self), ValueView::Bool(value))
                    &&& s.wrapper@.bytes.len() == old(self).wrapper@.bytes.len()
                    &&& *final(s.wrapper) == *final(old(self).wrapper)
                    &&& *final(self) == *final(s)
                },
                Err(e) => {
                    &&& final(self).refused(old(self), ValueView::Bool(value), e)
                    &&& *final(final(self).wrapper) == *final(old(self).wrapper)
                },
            },
    {
        match self.inner.push_bool(self.wrapper, value) {
            Ok(()) => Ok(self),
            Err(e) => Err(e),
        }
    }

    /// Pushes null. It lives in its entry: the data region does not grow.
    pub fn push_null(&mut self) -> (r: BuildResult<&mut Self>)
        requires
            old(self).wf(),
        ensures
            match r {
                Ok(s) => {
                    &&& s.pushed(old(self), ValueView::Null)
                    &&& s.wrapper@.bytes.len() == old(self).wrapper@.bytes.len()
                    &&& *final(s.wrapper) == *final(old(self).wrapper)
                    &&& *final(self) == *final(s)
                },
                Err(e) => {
                    &&& final(self).refused(old(self), ValueView::Null, e)
                    &&& *final(final(self).wrapper) == *final(old(self).wrapper)
                },
            },
    {
        match self.inner.push_null(self.wrapper) {
            Ok(()) => Ok(self),
            Err(e) => Err(e),
        }
    }
}

/// Builder of an array that is a document of its own, in a buffer that the
/// builder makes and, when the array is finished, hands over.
#[derive(Debug)]
pub struct ArrayBuilder {
    wrapper: BytesWrapper,
    inner: InnerArrayBuilder,
}

impl ArrayBuilder {
    /// Where the array stands.
    pub closed spec fn cursor(&self) -> ArrayCursor {
        self.inner@
    }

    /// The buffer of the document.
    pub closed spec fn buffer(&self) -> Buffer {
        self.wrapper@
    }

    /// The cursor lies in the buffer.
    pub open spec fn wf(&self) -> bool {
        self.cursor().wf(self.buffer())
    }

    /// This builder is what a push of `value` makes of `before`.
    pub open spec fn pushed(&self, before: &Self, value: ValueView) -> bool {
        &&& before.cursor().push_refusal(before.buffer(), value) is None
        &&& self.cursor() == before.cursor().advanced()
        &&& self.buffer() == before.cursor().push_buffer(before.buffer(), value)
        &&& self.wf()
    }

    /// This builder is `before`, as a push of `value` leaves it that failed
    /// with `e`: the cursor and the buffer are untouched, and `e` is the refusal
    /// of the value or, for a value that needs room, the failure to get it.
    pub open spec fn refused(&self, before: &Self, value: ValueView, e: BuildError) -> bool {
        &&& before.cursor().push_outcome(before.buffer(), value, Err::<(), BuildError>(e))
        &&& self.cursor() == before.cursor()
        &&& self.buffer() == before.buffer()
        &&& self.wf()
    }

    /// Opens an array of `element_count` elements at the start of a new buffer.
    ///
    /// Fails if no buffer is to be had with room for the header of the array.
    pub fn try_new(element_count: u16) -> (r: BuildResult<Self>)
        ensures
            match r {
                Ok(b) => {
                    &&& b.cursor() == ArrayCursor::opened(
                        Buffer { bytes: Seq::empty(), depth: 0 },
                        element_count,
                    )
                    &&& b.buffer() == (Buffer { bytes: array_header(element_count), depth: 1 })
                    &&& b.wf()
                },
                Err(e) => e is TryReserveError,
            },
    {
        let mut wrapper = BytesWrapper::new(Vec::new());
        if let Err(e) = wrapper.try_reserve(DEFAULT_SIZE) {
            return Err(BuildError::TryReserveError(e));
        }
        match InnerArrayBuilder::try_new(&mut wrapper, element_count) {
            Ok(inner) => {
                assert(wrapper@.bytes =~= array_header(element_count));
                Ok(ArrayBuilder { wrapper, inner })
            },
            Err(e) => Err(e),
        }
    }

    /// Finishes the array: writes the size of the array into its header and
    /// hands over the document.
    ///
    /// Fails if a nested builder is unfinished or if fewer values were pushed
    /// than were declared.
    pub fn finish(self) -> (r: BuildResult<YasonBuf>)
        requires
            self.wf(),
        ensures
            match r {
                Ok(document) => {
                    &&& self.cursor().finish_result(self.buffer()) is Ok
                    &&& document@ == self.cursor().finish_buffer(self.buffer()).bytes
                    &&& document@.len() - self.cursor().start <= i32::MAX ==> size_at(
                        document@,
                        self.cursor().start as int,
                    ) == document@.len() - self.cursor().start
                },
                Err(e) => self.cursor().finish_result(self.buffer()) == Err::<usize, BuildError>(e),
            },
    {
        let Self { mut wrapper, inner } = self;
        match inner.finish(&mut wrapper) {
            Ok(_) => Ok(YasonBuf::new(wrapper.into_bytes())),
            Err(e) => Err(e),
        }
    }

    /// Pushes an empty object of `element_count` elements, sorted by key or not,
    /// and returns the builder through which they are pushed. Until that builder
    /// is finished, this one refuses every operation.
    pub fn push_object(&mut self, element_count: u16, key_sorted: bool) -> (r: BuildResult<ObjectRefBuilder<'_>>)
        requires
            old(self).wf(),
        ensures
            match r {
                Ok(child) => {
                    &&& old(self).cursor().push_refusal(old(self).buffer(), ValueView::Object(element_count)) is None
                    &&& final(self).cursor() == old(self).cursor().advanced()
                    &&& child.inner@ == ObjectCursor::opened(old(self).buffer(), element_count, key_sorted)
                    &&& child.wrapper@ == old(self).cursor().push_buffer(old(self).buffer(), ValueView::Object(element_count))
                    &&& child.wf()
                    &&& final(self).buffer() == final(child.wrapper)@
                },
                Err(e) => final(self).refused(old(self), ValueView::Object(element_count), e),
            },
    {
        match self.inner.push_object(&mut self.wrapper, element_count, key_sorted) {
            Ok(inner) => Ok(ObjectRefBuilder { wrapper: &mut self.wrapper, inner }),
            Err(e) => Err(e),
        }
    }

    /// Pushes an empty array of `element_count` elements and returns the
    /// builder through which they are pushed. Until that builder is finished,
    /// this one refuses every operation.
    pub fn push_array(&mut self, element_count: u16) -> (r: BuildResult<ArrayRefBuilder<'_>>)
        requires
            old(self).wf(),
        ensures
            match r {
                Ok(child) => {
                    &&& old(self).cursor().push_refusal(old(self).buffer(), ValueView::Array(element_count)) is None
                    &&& final(self).cursor() == old(self).cursor().advanced()
                    &&& child.inner@ == ArrayCursor::opened(old(self).buffer(), element_count)
                    &&& child.wrapper@ == old(self).cursor().push_buffer(old(self).buffer(), ValueView::Array(element_count))
                    &&& child.wf()
                    &&& final(self).buffer() == final(child.wrapper)@
                },
                Err(e) => final(self).refused(old(self), ValueView::Array(element_count), e),
            },
    {
        match self.inner.push_array(&mut self.wrapper, element_count) {
            Ok(inner) => Ok(ArrayRefBuilder { wrapper: &mut self.wrapper, inner }),
            Err(e) => Err(e),
        }
    }

    /// Pushes a string.
    pub fn push_string(&mut self, value: &str) -> (r: BuildResult<&mut Self>)
        requires
            old(self).wf(),
        ensures
            match r {
                Ok(s) => s.pushed(old(self), ValueView::String(value.spec_bytes())) && *final(self) == *final(s),
                Err(e) => final(self).refused(old(self), ValueView::String(value.spec_bytes()), e),
            },
    {
        match self.inner.push_string(&mut self.wrapper, value) {
            Ok(()) => Ok(self),
            Err(e) => Err(e),
        }
    }

    /// Pushes a number.
    pub fn push_number(&mut self, value: Number) -> (r: BuildResult<&mut Self>)
        requires
            old(self).wf(),
        ensures
            match r {
                Ok(s) => s.pushed(old(self), ValueView::Number(value@)) && *final(self) == *final(s),
                Err(e) => final(self).refused(old(self), ValueView::Number(value@), e),
            },
    {
        match self.inner.push_number(&mut self.wrapper, value) {
            Ok(()) => Ok(self),
            Err(e) => Err(e),
        }
    }

    /// Pushes a boolean. It lives in its entry: the data region does not grow.
    pub fn push_bool(&mut self, value: bool) -> (r: BuildResult<&mut Self>)
        requires
            old(self).wf(),
        ensures
            match r {
                Ok(s) => s.pushed(old(self), ValueView::Bool(value))
                    && s.buffer().bytes.len() == old(self).buffer().bytes.len() && *final(self) == *final(s),
                Err(e) => final(self).refused(old(self), ValueView::Bool(value), e),
            },
    {
        match self.inner.push_bool(&mut self.wrapper, value) {
            Ok(()) => Ok(self),
            Err(e) => Err(e),
        }
    }

    /// Pushes null. It lives in its entry: the data region does not grow.
    pub fn push_null(&mut self) -> (r: BuildResult<&mut Self>)
        requires
            old(self).wf(),
        ensures
            match r {
                Ok(s) => s.pushed(old(self), ValueView::Null)
                    && s.buffer().bytes.len() == old(self).buffer().bytes.len() && *final(self) == *final(s),
                Err(e) => final(self).refused(old(self), ValueView::Null, e),
            },
    {
        match self.inner.push_null(&mut self.wrapper) {
            Ok(()) => Ok(self),
            Err(e) => Err(e),
        }
    }
}

} // verus!
