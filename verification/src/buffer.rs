//! Allocation of zero-filled pixel buffers.

use vstd::prelude::*;

verus! {

/// A buffer of `rows * cols` bytes, all zero.
pub fn new_pixel_buffer(rows: usize, cols: usize) -> (r: Vec<u8>)
    requires
        rows * cols <= usize::MAX,
    ensures
        r@.len() == rows * cols,
        forall|i: int| 0 <= i < r@.len() ==> r@[i] == 0,
{
    let n = rows * cols;
    let mut v: Vec<u8> = Vec::new();
    while v.len() < n
        invariant
            v@.len() <= n,
            forall|i: int| 0 <= i < v@.len() ==> v@[i] == 0,
        decreases n - v@.len(),
    {
        v.push(0);
    }
    v
}

} // verus!
