//! Multi-head self-attention: four projections and the causal mask.

use vstd::prelude::*;
use crate::bits::{DUMMY_GRAD, ZERO};
use crate::error::ModelError;
use crate::model::linear::{square, Linear, LinearView};

verus! {

/// A self-attention layer over `num_heads` heads of `head_dim` features.
#[derive(Debug, Clone, PartialEq, Eq)]
pub struct MultiHeadAttention {
    pub num_heads: usize,
    pub head_dim: usize,
    pub query_proj: Linear,
    pub key_proj: Linear,
    pub value_proj: Linear,
    pub output_proj: Linear,
}

/// What a [`MultiHeadAttention`] holds.
pub ghost struct AttentionView {
    pub num_heads: nat,
    pub head_dim: nat,
    pub query_proj: LinearView,
    pub key_proj: LinearView,
    pub value_proj: LinearView,
    pub output_proj: LinearView,
}

impl AttentionView {
    /// The width of a token row: `num_heads * head_dim`.
    pub open spec fn hidden_size(self) -> nat {
        self.num_heads * self.head_dim
    }

    /// The heads tile the hidden width, and each projection is a well-formed
    /// square layer over it.
    pub open spec fn wf(self) -> bool {
        &&& self.num_heads > 0
        &&& square(self.query_proj, self.hidden_size())
        &&& square(self.key_proj, self.hidden_size())
        &&& square(self.value_proj, self.hidden_size())
        &&& square(self.output_proj, self.hidden_size())
    }

    /// The numbers of the layer in storage order: query, key, value and
    /// output projection.
    pub open spec fn words(self) -> Seq<u32> {
        self.query_proj.words() + self.key_proj.words() + self.value_proj.words()
            + self.output_proj.words()
    }

    /// The same layer, with every gradient slot of its four projections
    /// holding `w`.
    pub open spec fn with_grad(self, w: u32) -> AttentionView {
        AttentionView {
            query_proj: self.query_proj.with_grad(w),
            key_proj: self.key_proj.with_grad(w),
            value_proj: self.value_proj.with_grad(w),
            output_proj: self.output_proj.with_grad(w),
            ..self
        }
    }

    /// A freshly created layer over rows of `hidden` features in `heads`
    /// heads.
    pub open spec fn fresh(hidden: nat, heads: nat) -> AttentionView {
        AttentionView {
            num_heads: heads,
            head_dim: hidden / heads,
            query_proj: LinearView::fresh(hidden, hidden),
            key_proj: LinearView::fresh(hidden, hidden),
            value_proj: LinearView::fresh(hidden, hidden),
            output_proj: LinearView::fresh(hidden, hidden),
        }
    }
}

impl View for MultiHeadAttention {
    type V = AttentionView;

    open spec fn view(&self) -> AttentionView {
        AttentionView {
            num_heads: self.num_heads as nat,
            head_dim: self.head_dim as nat,
            query_proj: self.query_proj@,
            key_proj: self.key_proj@,
            value_proj: self.value_proj@,
            output_proj: self.output_proj@,
        }
    }
}

/// Whether the key at position `j` is hidden from the query at position `i`:
/// under a causal mask a query sees no later position.
pub open spec fn masked(i: nat, j: nat, use_mask: bool) -> bool {
    use_mask && j > i
}

impl MultiHeadAttention {
    /// See [`AttentionView::wf`].
    pub open spec fn wf(&self) -> bool {
        self@.wf()
    }

    /// A layer over rows of `embed_dim` features split into `num_heads`
    /// heads, with four fresh square projections.
    pub fn new(embed_dim: usize, num_heads: usize) -> (a: Self)
        requires
            num_heads > 0,
            embed_dim % num_heads == 0,
            embed_dim * embed_dim <= usize::MAX,
        ensures
            a.wf(),
            a@.hidden_size() == embed_dim,
            a@ == AttentionView::fresh(embed_dim as nat, num_heads as nat),
    {
        let head_dim = embed_dim / num_heads;
        proof {
            lemma_heads_tile(embed_dim as nat, num_heads as nat);
        }
        MultiHeadAttention {
            num_heads,
            head_dim,
            query_proj: Linear::new(embed_dim, embed_dim),
            key_proj: Linear::new(embed_dim, embed_dim),
            value_proj: Linear::new(embed_dim, embed_dim),
            output_proj: Linear::new(embed_dim, embed_dim),
        }
    }

    /// A layer like that of [`MultiHeadAttention::new`], or the refusal of
    /// a shape that has none: no heads, heads that do not divide the width
    /// evenly, or a width whose square does not fit the machine.
    pub fn try_new(embed_dim: usize, num_heads: usize) -> (r: Result<Self, ModelError>)
        ensures
            num_heads > 0 && embed_dim % num_heads == 0 && embed_dim * embed_dim <= usize::MAX
                ==> r is Ok && r->Ok_0.wf() && r->Ok_0@ == AttentionView::fresh(
                embed_dim as nat,
                num_heads as nat,
            ),
            !(num_heads > 0 && embed_dim % num_heads == 0 && embed_dim * embed_dim <= usize::MAX)
                ==> r == Err::<Self, ModelError>(ModelError::InvalidConfig),
    {
        if num_heads == 0 || embed_dim % num_heads != 0 || embed_dim.checked_mul(
            embed_dim,
        ).is_none() {
            Err(ModelError::InvalidConfig)
        } else {
            Ok(MultiHeadAttention::new(embed_dim, num_heads))
        }
    }

    /// Whether the layer meets its shape invariant.
    pub fn is_well_formed(&self) -> (ok: bool)
        ensures
            ok == self.wf(),
    {
        if self.num_heads == 0 {
            return false;
        }
        match self.num_heads.checked_mul(self.head_dim) {
            Some(hidden) => {
                self.query_proj.is_square(hidden) && self.key_proj.is_square(hidden)
                    && self.value_proj.is_square(hidden) && self.output_proj.is_square(hidden)
            },
            None => {
                false
            },
        }
    }

    /// Whether the layer meets its shape invariant over rows of `hidden`
    /// features.
    pub fn fits(&self, hidden: usize) -> (ok: bool)
        ensures
            ok == (self.wf() && self@.hidden_size() == hidden),
    {
        match self.num_heads.checked_mul(self.head_dim) {
            Some(width) => width == hidden && self.is_well_formed(),
            None => false,
        }
    }

    /// The shape rule of the forward pass: a flattened input of `seq_len`
    /// rows of `num_heads * head_dim` features is accepted, and the output
    /// has the length of the input. An empty sequence is an invalid request;
    /// any other length is a shape mismatch.
    pub fn output_len(&self, input_len: usize, seq_len: usize) -> (r: Result<usize, ModelError>)
        ensures
            seq_len == 0 ==> r == Err::<usize, ModelError>(ModelError::InvalidConfig),
            seq_len > 0 && input_len != seq_len * self@.hidden_size() ==> r == Err::<
                usize,
                ModelError,
            >(ModelError::ShapeMismatch),
            seq_len > 0 && input_len == seq_len * self@.hidden_size() ==> r == Ok::<
                usize,
                ModelError,
            >(input_len),
    {
        if seq_len == 0 {
            return Err(ModelError::InvalidConfig);
        }
        let hidden = match self.num_heads.checked_mul(self.head_dim) {
            Some(h) => h,
            None => {
                assert(seq_len * (self.num_heads * self.head_dim) >= self.num_heads
                    * self.head_dim) by (nonlinear_arith)
                    requires
                        seq_len >= 1,
                ;
                return Err(ModelError::ShapeMismatch);
            },
        };
        match seq_len.checked_mul(hidden) {
            Some(n) => if n == input_len {
                Ok(input_len)
            } else {
                Err(ModelError::ShapeMismatch)
            },
            None => Err(ModelError::ShapeMismatch),
        }
    }

    /// Whether the attention weight from query position `i` to key position
    /// `j` is forced to zero.
    pub fn is_masked(i: usize, j: usize, use_mask: bool) -> (m: bool)
        ensures
            m == masked(i as nat, j as nat, use_mask),
    {
        use_mask && j > i
    }

    /// Sets every gradient of all four projections to `w`; the values
    /// stay.
    pub fn fill_grad(&mut self, w: u32)
        ensures
            final(self)@ == old(self)@.with_grad(w),
    {
        self.query_proj.fill_grad(w);
        self.key_proj.fill_grad(w);
        self.value_proj.fill_grad(w);
        self.output_proj.fill_grad(w);
    }

    /// Clears the gradients of all four projections; the values stay.
    pub fn zero_grad(&mut self)
        ensures
            final(self)@ == old(self)@.with_grad(ZERO),
    {
        self.fill_grad(ZERO);
    }

    /// The simulated backward pass: writes the gradient `0.001` into every
    /// gradient slot of all four projections; the values stay.
    pub fn fill_dummy_grads(&mut self)
        ensures
            final(self)@ == old(self)@.with_grad(DUMMY_GRAD),
    {
        self.fill_grad(DUMMY_GRAD);
    }
}

/// Heads that divide the width evenly tile it: `heads * (width / heads)` is
/// `width` again.
pub proof fn lemma_heads_tile(width: nat, heads: nat)
    requires
        heads > 0,
        width % heads == 0,
    ensures
        heads * (width / heads) == width,
{
    assert(heads * (width / heads) == width) by (nonlinear_arith)
        requires
            heads > 0,
            width % heads == 0,
    ;
}

/// With the causal mask on, no query position sees a later key position,
/// and every query position sees itself and all earlier ones; with the mask
/// off nothing is hidden.
pub proof fn lemma_causal_mask(i: nat, j: nat)
    ensures
        j > i ==> masked(i, j, true),
        j <= i ==> !masked(i, j, true),
        !masked(i, j, false),
{
}

} // verus!
