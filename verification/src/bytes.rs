//! Fixed-size arrays of bytes from byte strings.

use vstd::prelude::*;

verus! {

broadcast use {
    vstd::seq::group_seq_axioms,
    vstd::slice::group_slice_axioms,
    vstd::array::group_array_axioms,
};

/// The first twelve bytes.
pub fn array12(b: &[u8]) -> (r: [u8; 12])
    requires
        b@.len() >= 12,
    ensures
        r@ == b@.take(12),
{
    let mut out = [0u8; 12];
    let mut i: usize = 0;
    while i < 12
        invariant
            i <= 12,
            b@.len() >= 12,
            forall|k: int| 0 <= k < i ==> out@[k] == b@[k],
        decreases 12 - i,
    {
        out[i] = b[i];
        i += 1;
    }
    assert(out@ =~= b@.take(12));
    out
}

/// The first sixteen bytes.
pub fn array16(b: &[u8]) -> (r: [u8; 16])
    requires
        b@.len() >= 16,
    ensures
        r@ == b@.take(16),
{
    let mut out = [0u8; 16];
    let mut i: usize = 0;
    while i < 16
        invariant
            i <= 16,
            b@.len() >= 16,
            forall|k: int| 0 <= k < i ==> out@[k] == b@[k],
        decreases 16 - i,
    {
        out[i] = b[i];
        i += 1;
    }
    assert(out@ =~= b@.take(16));
    out
}

/// The first 32 bytes.
pub fn array32(b: &[u8]) -> (r: [u8; 32])
    requires
        b@.len() >= 32,
    ensures
        r@ == b@.take(32),
{
    let mut out = [0u8; 32];
    let mut i: usize = 0;
    while i < 32
        invariant
            i <= 32,
            b@.len() >= 32,
            forall|k: int| 0 <= k < i ==> out@[k] == b@[k],
        decreases 32 - i,
    {
        out[i] = b[i];
        i += 1;
    }
    assert(out@ =~= b@.take(32));
    out
}

} // verus!
