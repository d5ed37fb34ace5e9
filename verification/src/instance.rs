//! Per-instance GPU payload.
//!
//! One placed copy of a mesh carries a 4x4 model matrix and the 3x3 normal
//! matrix derived from it (inverse-transpose of the model's upper 3x3 block).
//! Matrix entries are stored column-major as the raw 32-bit patterns of the
//! IEEE-754 single-precision values the GPU consumes; the library never does
//! arithmetic on them itself, it moves them and hands them to the math layer.

use vstd::prelude::*;

verus! {

/// The GPU-side record of one instance: a column-major 4x4 model matrix
/// followed by a column-major 3x3 normal matrix, each entry the bit pattern
/// of one single-precision float.
#[derive(Clone, Copy, Debug, PartialEq)]
pub struct InstanceRaw {
    pub model: [u32; 16],
    pub normal: [u32; 9],
}

/// Whether two model matrices hold identical bits.
pub fn model_eq(a: &[u32; 16], b: &[u32; 16]) -> (r: bool)
    ensures
        r == (a == b),
{
    let mut i: usize = 0;
    while i < 16
        invariant
            i <= 16,
            forall|j: int| 0 <= j < i ==> a@[j] == b@[j],
        decreases 16 - i,
    {
        if a[i] != b[i] {
            return false;
        }
        i += 1;
    }
    proof {
        assert(*a =~= *b);
    }
    true
}

/// Whether two normal matrices hold identical bits.
pub fn normal_eq(a: &[u32; 9], b: &[u32; 9]) -> (r: bool)
    ensures
        r == (a == b),
{
    let mut i: usize = 0;
    while i < 9
        invariant
            i <= 9,
            forall|j: int| 0 <= j < i ==> a@[j] == b@[j],
        decreases 9 - i,
    {
        if a[i] != b[i] {
            return false;
        }
        i += 1;
    }
    proof {
        assert(*a =~= *b);
    }
    true
}

/// Whether two records hold identical bits.
pub fn record_eq(a: &InstanceRaw, b: &InstanceRaw) -> (r: bool)
    ensures
        r == (a == b),
{
    model_eq(&a.model, &b.model) && normal_eq(&a.normal, &b.normal)
}

} // verus!
