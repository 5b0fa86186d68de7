//! Finished documents.

use vstd::prelude::*;

verus! {

/// The bytes of a finished document. Only a builder makes one, by finishing
/// the node at the top of the document.
#[derive(Debug)]
pub struct YasonBuf {
    bytes: Vec<u8>,
}

impl View for YasonBuf {
    type V = Seq<u8>;

    closed spec fn view(&self) -> Seq<u8> {
        self.bytes@
    }
}

impl YasonBuf {
    /// Takes `bytes` for a document.
    pub(crate) fn new(bytes: Vec<u8>) -> (r: YasonBuf)
        ensures
            r@ == bytes@,
    {
        YasonBuf { bytes }
    }

    /// The bytes of the document.
    pub fn as_bytes(&self) -> (b: &[u8])
        ensures
            b@ == self@,
    {
        self.bytes.as_slice()
    }

    /// The number of bytes of the document.
    pub fn len(&self) -> (n: usize)
        ensures
            n == self@.len(),
    {
        self.bytes.len()
    }

    /// Gives up the bytes of the document.
    pub fn into_bytes(self) -> (b: Vec<u8>)
        ensures
            b@ == self@,
    {
        self.bytes
    }
}

} // verus!
