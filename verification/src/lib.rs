//! An incremental encoder for a self-describing binary tree format of objects,
//! arrays, strings, decimal numbers, booleans and null.
//!
//! A document is written top-down in one forward pass into a growable byte
//! buffer. Every array or object node starts with a type tag, a size field and
//! an element count, followed by a table of fixed-width entries through which
//! a reader reaches any element by offset. The builders in [`array`] and
//! [`object`] write the nodes; [`binary`] states the layout they produce.
//!
//! The contracts of the builders give the bytes of the buffer after every
//! operation. [`reading`] holds those bytes to what a reader finds in them,
//! entry by entry, and [`document`] shows that a reader finds in a finished
//! document all that the builders were given.

pub mod array;
pub mod binary;
pub mod buffer;
pub mod document;
pub mod error;
pub mod number;
pub mod object;
pub mod reading;
pub mod value;
pub mod yason;

pub use crate::array::{ArrayBuilder, ArrayRefBuilder};
pub use crate::binary::DataType;
pub use crate::buffer::BytesWrapper;
pub use crate::error::{BuildError, BuildResult};
pub use crate::number::Number;
pub use crate::object::{ObjectBuilder, ObjectRefBuilder};
pub use crate::value::Value;
pub use crate::yason::YasonBuf;
