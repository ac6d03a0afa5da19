//! Bit patterns of the single-precision constants the layers start from.

use vstd::prelude::*;

verus! {

/// `0.0`: a cleared gradient, a fresh bias of a normalization layer.
pub const ZERO: u32 = 0x0000_0000;

/// `1.0`: the initial scale of a normalization layer.
pub const ONE: u32 = 0x3f80_0000;

/// `0.01`: the initial value of every freshly created parameter.
pub const INIT_WEIGHT: u32 = 0x3c23_d70a;

/// `0.001`: the gradient written by the simulated backward pass.
pub const DUMMY_GRAD: u32 = 0x3a83_126f;

/// `1e-5`: the variance offset of a normalization layer.
pub const EPSILON: u32 = 0x3727_c5ac;

/// `0.1`: the default dropout rate.
pub const DEFAULT_DROPOUT: u32 = 0x3dcc_cccd;

/// Whether `w` stands for a number greater than zero: the sign bit is
/// clear, and `w` is neither zero nor a NaN.
pub open spec fn positive(w: u32) -> bool {
    0 < w <= 0x7f80_0000
}

/// Whether `w` stands for a number greater than zero.
pub fn is_positive(w: u32) -> (r: bool)
    ensures
        r == positive(w),
{
    0 < w && w <= 0x7f80_0000
}

/// A sequence of `n` copies of `w`.
pub open spec fn repeat(w: u32, n: nat) -> Seq<u32> {
    Seq::new(n, |i: int| w)
}

/// A vector holding `n` copies of `w`.
pub fn filled(w: u32, n: usize) -> (v: Vec<u32>)
    ensures
        v@ == repeat(w, n as nat),
{
    vec![w; n]
}

/// Overwrites every entry of `v` with `w`, keeping its length.
pub fn fill(v: &mut Vec<u32>, w: u32)
    ensures
        final(v)@ == repeat(w, old(v)@.len()),
{
    let n = v.len();
    let mut i: usize = 0;
    while i < n
        invariant
            i <= n,
            v@.len() == n,
            n == old(v)@.len(),
            forall|k: int| 0 <= k < i ==> v@[k] == w,
        decreases n - i,
    {
        v[i] = w;
        i += 1;
    }
}

} // verus!
