//! Layer normalization: a learnable scale and shift for each feature.

use vstd::prelude::*;
use crate::bits::{filled, is_positive, positive, repeat, EPSILON, ONE, ZERO};
use crate::error::ModelError;

verus! {

/// The scale (`gamma`) and shift (`beta`) of a normalization layer, and the
/// offset (`epsilon`) added to the variance before the square root.
#[derive(Debug, Clone, PartialEq, Eq)]
pub struct LayerNorm {
    pub gamma: Vec<u32>,
    pub beta: Vec<u32>,
    pub epsilon: u32,
}

/// What a [`LayerNorm`] holds.
pub ghost struct LayerNormView {
    pub gamma: Seq<u32>,
    pub beta: Seq<u32>,
    pub epsilon: u32,
}

impl LayerNormView {
    /// Scale and shift are both `dim` long, and the offset is greater
    /// than zero.
    pub open spec fn wf(self, dim: nat) -> bool {
        self.gamma.len() == dim && self.beta.len() == dim && positive(self.epsilon)
    }

    /// A freshly created layer over `dim` features: scale `1.0`, shift
    /// `0.0`, offset `1e-5`.
    pub open spec fn fresh(dim: nat) -> LayerNormView {
        LayerNormView { gamma: repeat(ONE, dim), beta: repeat(ZERO, dim), epsilon: EPSILON }
    }

    /// The numbers of the layer in storage order: scale, then shift.
    pub open spec fn words(self) -> Seq<u32> {
        self.gamma + self.beta
    }
}

impl View for LayerNorm {
    type V = LayerNormView;

    open spec fn view(&self) -> LayerNormView {
        LayerNormView { gamma: self.gamma@, beta: self.beta@, epsilon: self.epsilon }
    }
}

impl LayerNorm {
    /// Scale and shift have one entry per feature, and the offset is
    /// greater than zero.
    pub open spec fn wf(&self) -> bool {
        self@.wf(self.gamma@.len())
    }

    /// A layer over `dim` features that leaves a normalized input as it is:
    /// scale `1.0`, shift `0.0`, offset `1e-5`.
    pub fn new(dim: usize) -> (n: Self)
        ensures
            n@ == LayerNormView::fresh(dim as nat),
            n.wf(),
    {
        LayerNorm { gamma: filled(ONE, dim), beta: filled(ZERO, dim), epsilon: EPSILON }
    }

    /// Whether scale and shift are both `dim` long and the offset is
    /// greater than zero.
    pub fn is_well_formed(&self, dim: usize) -> (ok: bool)
        ensures
            ok == self@.wf(dim as nat),
    {
        self.gamma.len() == dim && self.beta.len() == dim && is_positive(self.epsilon)
    }

    /// The number of features the layer normalizes.
    pub fn dim(&self) -> (d: usize)
        ensures
            d == self.gamma@.len(),
    {
        self.gamma.len()
    }

    /// Accepts an input with one number per feature and tells the length of
    /// the output, which is the same; any other length is a shape mismatch.
    pub fn output_len(&self, input_len: usize) -> (r: Result<usize, ModelError>)
        ensures
            input_len == self.gamma@.len() ==> r == Ok::<usize, ModelError>(input_len),
            input_len != self.gamma@.len() ==> r == Err::<usize, ModelError>(
                ModelError::ShapeMismatch,
            ),
    {
        if input_len == self.gamma.len() {
            Ok(input_len)
        } else {
            Err(ModelError::ShapeMismatch)
        }
    }
}

} // verus!
