//! A learnable parameter: a vector of values and its gradient buffer.

use vstd::prelude::*;
use crate::bits::{fill, filled, repeat, INIT_WEIGHT, ZERO};

verus! {

/// A learnable vector with a gradient slot for each of its entries.
#[derive(Debug, Clone, PartialEq, Eq)]
pub struct Param {
    pub value: Vec<u32>,
    pub grad: Vec<u32>,
}

/// What a [`Param`] holds, as sequences.
pub ghost struct ParamView {
    pub value: Seq<u32>,
    pub grad: Seq<u32>,
}

impl ParamView {
    /// The same values, with every gradient slot holding `w`.
    pub open spec fn with_grad(self, w: u32) -> ParamView {
        ParamView { value: self.value, grad: repeat(w, self.grad.len()) }
    }
}

impl View for Param {
    type V = ParamView;

    open spec fn view(&self) -> ParamView {
        ParamView { value: self.value@, grad: self.grad@ }
    }
}

impl Param {
    /// The gradient buffer is as long as the value vector.
    pub open spec fn wf(&self) -> bool {
        self.value@.len() == self.grad@.len()
    }

    /// A parameter of `size` entries, each `0.01`, with a cleared gradient.
    pub fn new(size: usize) -> (p: Self)
        ensures
            p.wf(),
            p@.value == repeat(INIT_WEIGHT, size as nat),
            p@.grad == repeat(ZERO, size as nat),
    {
        Param { value: filled(INIT_WEIGHT, size), grad: filled(ZERO, size) }
    }

    /// A parameter that holds `value`, with a cleared gradient.
    pub fn from_values(value: Vec<u32>) -> (p: Self)
        ensures
            p.wf(),
            p@ == (ParamView { value: value@, grad: repeat(ZERO, value@.len()) }),
    {
        let grad = filled(ZERO, value.len());
        Param { value, grad }
    }

    /// Sets every gradient entry to `0.0`; the values stay.
    pub fn zero_grad(&mut self)
        ensures
            final(self)@ == old(self)@.with_grad(ZERO),
    {
        fill(&mut self.grad, ZERO);
    }

    /// Sets every gradient entry to `w`; the values stay.
    pub fn fill_grad(&mut self, w: u32)
        ensures
            final(self)@ == old(self)@.with_grad(w),
    {
        fill(&mut self.grad, w);
    }
}

} // verus!
