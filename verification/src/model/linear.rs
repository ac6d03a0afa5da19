//! A fully connected layer: a flattened weight matrix and a bias vector.

use vstd::prelude::*;
use crate::bits::{repeat, INIT_WEIGHT, ZERO};
use crate::error::ModelError;
use crate::model::common::{Param, ParamView};

verus! {

/// An affine projection from `in_features` to `out_features` numbers.
///
/// The weight matrix is stored row by row: the weight that joins input `i`
/// to output `o` sits at `o * in_features + i`.
#[derive(Debug, Clone, PartialEq, Eq)]
pub struct Linear {
    pub weight: Param,
    pub bias: Param,
    pub in_features: usize,
    pub out_features: usize,
}

/// What a [`Linear`] holds.
pub ghost struct LinearView {
    pub weight: ParamView,
    pub bias: ParamView,
    pub in_features: nat,
    pub out_features: nat,
}

/// A well-formed square layer over `hidden` features.
pub open spec fn square(l: LinearView, hidden: nat) -> bool {
    l.wf() && l.in_features == hidden && l.out_features == hidden
}

impl LinearView {
    /// The shape invariant of a layer, on its view.
    pub open spec fn wf(self) -> bool {
        &&& self.weight.value.len() == self.in_features * self.out_features
        &&& self.weight.grad.len() == self.weight.value.len()
        &&& self.bias.value.len() == self.out_features
        &&& self.bias.grad.len() == self.bias.value.len()
    }

    /// The same layer, with every gradient slot holding `w`.
    pub open spec fn with_grad(self, w: u32) -> LinearView {
        LinearView { weight: self.weight.with_grad(w), bias: self.bias.with_grad(w), ..self }
    }

    /// A freshly created layer of the given shape: every weight and bias
    /// `0.01`, every gradient `0.0`.
    pub open spec fn fresh(inputs: nat, outputs: nat) -> LinearView {
        LinearView {
            weight: ParamView {
                value: repeat(INIT_WEIGHT, inputs * outputs),
                grad: repeat(ZERO, inputs * outputs),
            },
            bias: ParamView { value: repeat(INIT_WEIGHT, outputs), grad: repeat(ZERO, outputs) },
            in_features: inputs,
            out_features: outputs,
        }
    }

    /// The numbers of the layer in storage order: weights, then biases.
    pub open spec fn words(self) -> Seq<u32> {
        self.weight.value + self.bias.value
    }
}

impl View for Linear {
    type V = LinearView;

    open spec fn view(&self) -> LinearView {
        LinearView {
            weight: self.weight@,
            bias: self.bias@,
            in_features: self.in_features as nat,
            out_features: self.out_features as nat,
        }
    }
}

impl Linear {
    /// The weight matrix has `in_features * out_features` entries, the bias
    /// `out_features`, and each gradient buffer matches its values.
    pub open spec fn wf(&self) -> bool {
        self@.wf()
    }

    /// A layer of the given shape: every weight and bias `0.01`, every
    /// gradient `0.0`.
    pub fn new(in_features: usize, out_features: usize) -> (l: Self)
        requires
            in_features * out_features <= usize::MAX,
        ensures
            l.wf(),
            l@ == LinearView::fresh(in_features as nat, out_features as nat),
    {
        Linear {
            weight: Param::new(in_features * out_features),
            bias: Param::new(out_features),
            in_features,
            out_features,
        }
    }

    /// Whether the layer's buffers have the lengths its dimensions call for.
    pub fn is_well_formed(&self) -> (ok: bool)
        ensures
            ok == self.wf(),
    {
        match self.in_features.checked_mul(self.out_features) {
            Some(n) => self.weight.value.len() == n && self.weight.grad.len() == n
                && self.bias.value.len() == self.out_features && self.bias.grad.len()
                == self.out_features,
            None => {
                assert(self.weight.value@.len() == self.weight.value.len());
                false
            },
        }
    }

    /// Whether the layer is a well-formed square layer over `hidden`
    /// features.
    pub fn is_square(&self, hidden: usize) -> (ok: bool)
        ensures
            ok == square(self@, hidden as nat),
    {
        self.in_features == hidden && self.out_features == hidden && self.is_well_formed()
    }

    /// Accepts an input of exactly `in_features` numbers and tells the
    /// length of the output; any other length is a shape mismatch.
    pub fn output_len(&self, input_len: usize) -> (r: Result<usize, ModelError>)
        ensures
            input_len == self.in_features ==> r == Ok::<usize, ModelError>(self.out_features),
            input_len != self.in_features ==> r == Err::<usize, ModelError>(
                ModelError::ShapeMismatch,
            ),
    {
        if input_len == self.in_features {
            Ok(self.out_features)
        } else {
            Err(ModelError::ShapeMismatch)
        }
    }

    /// The place in the flattened weight matrix of the weight that joins
    /// input `i` to output `o`.
    pub fn weight_index(&self, o: usize, i: usize) -> (k: usize)
        requires
            self.wf(),
            o < self.out_features,
            i < self.in_features,
        ensures
            k == o * self.in_features + i,
            k < self.weight.value@.len(),
    {
        proof {
            assert(self.weight.value@.len() == self.weight.value.len());
            lemma_row_major_in_bounds(
                o as int,
                i as int,
                self.out_features as int,
                self.in_features as int,
            );
            assert(self.out_features * self.in_features == self.in_features * self.out_features)
                by (nonlinear_arith);
        }
        o * self.in_features + i
    }

    /// Clears the gradients of weight and bias; the values stay.
    pub fn zero_grad(&mut self)
        ensures
            final(self)@ == old(self)@.with_grad(ZERO),
    {
        self.weight.zero_grad();
        self.bias.zero_grad();
    }

    /// Sets every gradient of weight and bias to `w`; the values stay.
    pub fn fill_grad(&mut self, w: u32)
        ensures
            final(self)@ == old(self)@.with_grad(w),
    {
        self.weight.fill_grad(w);
        self.bias.fill_grad(w);
    }
}

/// A cell `(row, col)` of a `rows` by `cols` matrix lies inside its
/// row-major flattening.
pub proof fn lemma_row_major_in_bounds(row: int, col: int, rows: int, cols: int)
    requires
        0 <= row < rows,
        0 <= col < cols,
    ensures
        0 <= row * cols + col < rows * cols,
{
    assert(row * cols + col < rows * cols) by (nonlinear_arith)
        requires
            0 <= row < rows,
            0 <= col < cols,
    ;
    assert(0 <= row * cols) by (nonlinear_arith)
        requires
            0 <= row,
            0 <= cols,
    ;
}

} // verus!
