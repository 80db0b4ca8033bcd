//! Buffers that carry index lists across a foreign boundary.

use vstd::prelude::*;

verus! {

/// An owned list of indices together with its length, ready to be handed
/// over as a pointer and a count.
pub struct CBufferUSize {
    /// The indices.
    pub data: Vec<usize>,
    /// The number of indices in `data`.
    pub len: usize,
}

impl CBufferUSize {
    /// The recorded length is the length of the data.
    pub open spec fn wf(self) -> bool {
        self.len == self.data@.len()
    }
}

/// Copies a list of indices into a buffer of its own.
pub fn to_usize_buf(arr: &[usize]) -> (buf: CBufferUSize)
    ensures
        buf.data@ == arr@,
        buf.len == arr@.len(),
        buf.wf(),
{
    let data = vstd::slice::slice_to_vec(arr);
    let len: usize = data.len();
    CBufferUSize { data, len }
}

} // verus!
