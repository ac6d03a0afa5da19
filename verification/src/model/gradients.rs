//! The gradients of a model as one flat run, and back.
//!
//! The run holds the gradient buffers one behind the other: those of the
//! token embedding row by row; then of every attention layer the query,
//! key, value and output projection, each weight before its bias; then of
//! every feed-forward layer the weight and the bias.

use vstd::prelude::*;
use crate::error::ModelError;
use crate::model::attention::{AttentionView, MultiHeadAttention};
use crate::model::common::{Param, ParamView};
use crate::model::embedding::table_parts;
use crate::model::linear::{Linear, LinearView};
use crate::model::transformer::{
    attention_parts, linear_parts, SimpleTransformer, TransformerView,
};
use crate::placement::{
    lemma_located_left, lemma_located_right, lemma_located_within, lemma_next_part,
    lemma_pieces_make_the_run, lemma_start_of, located, pieces, start_of,
};

verus! {

/// The gradients of a linear layer: of the weight, then of the bias.
pub open spec fn linear_grads(l: LinearView) -> Seq<u32> {
    l.weight.grad + l.bias.grad
}

/// The gradients of an attention layer: of the query, key, value and
/// output projection.
pub open spec fn attention_grads(a: AttentionView) -> Seq<u32> {
    linear_grads(a.query_proj) + linear_grads(a.key_proj) + linear_grads(a.value_proj)
        + linear_grads(a.output_proj)
}

/// The gradient buffer of each row of a table.
pub open spec fn table_grad_parts(table: Seq<ParamView>) -> Seq<Seq<u32>> {
    Seq::new(table.len(), |t: int| table[t].grad)
}

/// The gradients of each attention layer of a sequence.
pub open spec fn attention_grad_parts(s: Seq<AttentionView>) -> Seq<Seq<u32>> {
    Seq::new(s.len(), |l: int| attention_grads(s[l]))
}

/// The gradients of each linear layer of a sequence.
pub open spec fn linear_grad_parts(s: Seq<LinearView>) -> Seq<Seq<u32>> {
    Seq::new(s.len(), |l: int| linear_grads(s[l]))
}

/// The parameter with the gradients that stand in `g` from place `at`.
pub open spec fn param_regrad(p: ParamView, g: Seq<u32>, at: int) -> ParamView {
    ParamView { value: p.value, grad: g.subrange(at, at + p.grad.len()) }
}

/// The linear layer with the gradients that stand in `g` from place `at`.
pub open spec fn linear_regrad(l: LinearView, g: Seq<u32>, at: int) -> LinearView {
    LinearView {
        weight: param_regrad(l.weight, g, at),
        bias: param_regrad(l.bias, g, at + l.weight.grad.len()),
        ..l
    }
}

/// The attention layer with the gradients that stand in `g` from place
/// `at`.
pub open spec fn attention_regrad(a: AttentionView, g: Seq<u32>, at: int) -> AttentionView {
    let step_q = linear_grads(a.query_proj).len();
    let step_k = linear_grads(a.key_proj).len();
    let step_v = linear_grads(a.value_proj).len();
    AttentionView {
        query_proj: linear_regrad(a.query_proj, g, at),
        key_proj: linear_regrad(a.key_proj, g, at + step_q),
        value_proj: linear_regrad(a.value_proj, g, at + step_q + step_k),
        output_proj: linear_regrad(a.output_proj, g, at + step_q + step_k + step_v),
        ..a
    }
}

impl TransformerView {
    /// All gradients of the model as one run.
    pub open spec fn gradients(self) -> Seq<u32> {
        table_grad_parts(self.token_embedding).flatten() + attention_grad_parts(
            self.attention_layers,
        ).flatten() + linear_grad_parts(self.ff_layers).flatten()
    }

    /// The model with the gradients of the run `g`, each buffer filled
    /// from the place where [`TransformerView::gradients`] puts it. All
    /// values, and the lengths of the buffers, are as they were.
    pub open spec fn with_gradients(self, g: Seq<u32>) -> TransformerView {
        let table = table_grad_parts(self.token_embedding);
        let attention = attention_grad_parts(self.attention_layers);
        let linear = linear_grad_parts(self.ff_layers);
        let attention_at = table.flatten().len() as int;
        let linear_at = attention_at + attention.flatten().len();
        TransformerView {
            token_embedding: Seq::new(
                self.token_embedding.len(),
                |t: int| param_regrad(self.token_embedding[t], g, start_of(table, t)),
            ),
            attention_layers: Seq::new(
                self.attention_layers.len(),
                |l: int|
                    attention_regrad(
                        self.attention_layers[l],
                        g,
                        attention_at + start_of(attention, l),
                    ),
            ),
            ff_layers: Seq::new(
                self.ff_layers.len(),
                |l: int| linear_regrad(self.ff_layers[l], g, linear_at + start_of(linear, l)),
            ),
            ..self
        }
    }
}

/// Appends the values of `src` to `dst`.
fn append(dst: &mut Vec<u32>, src: &Vec<u32>)
    ensures
        final(dst)@ == old(dst)@ + src@,
{
    dst.extend_from_slice(src.as_slice());
}

/// Appends the gradients of a linear layer to `dst`.
fn append_linear(dst: &mut Vec<u32>, l: &Linear)
    ensures
        final(dst)@ == old(dst)@ + linear_grads(l@),
{
    append(dst, &l.weight.grad);
    append(dst, &l.bias.grad);
}

/// Appends the gradients of an attention layer to `dst`.
fn append_attention(dst: &mut Vec<u32>, a: &MultiHeadAttention)
    ensures
        final(dst)@ == old(dst)@ + attention_grads(a@),
{
    append_linear(dst, &a.query_proj);
    append_linear(dst, &a.key_proj);
    append_linear(dst, &a.value_proj);
    append_linear(dst, &a.output_proj);
}

impl SimpleTransformer {
    /// All gradients of the model as one run.
    pub fn gradients(&self) -> (g: Vec<u32>)
        ensures
            g@ == self@.gradients(),
    {
        let mut g: Vec<u32> = Vec::new();

        let ghost parts = table_grad_parts(self@.token_embedding);
        let n = self.token_embedding.embeddings.len();
        let mut t: usize = 0;
        while t < n
            invariant
                t <= n,
                n == self.token_embedding.embeddings@.len(),
                parts == table_grad_parts(self@.token_embedding),
                g@ == parts.take(t as int).flatten(),
            decreases n - t,
        {
            append(&mut g, &self.token_embedding.embeddings[t].grad);
            proof {
                lemma_next_part(Seq::empty(), parts, t as int);
                assert(g@ =~= Seq::<u32>::empty() + parts.take(t as int).flatten()
                    + parts[t as int]);
            }
            t += 1;
        }
        assert(parts.take(n as int) =~= parts);
        let ghost done = g@;

        let ghost parts = attention_grad_parts(self@.attention_layers);
        let n = self.attention_layers.len();
        let mut l: usize = 0;
        while l < n
            invariant
                l <= n,
                n == self.attention_layers@.len(),
                parts == attention_grad_parts(self@.attention_layers),
                g@ == done + parts.take(l as int).flatten(),
            decreases n - l,
        {
            append_attention(&mut g, &self.attention_layers[l]);
            proof {
                lemma_next_part(done, parts, l as int);
            }
            l += 1;
        }
        assert(parts.take(n as int) =~= parts);
        let ghost done = g@;

        let ghost parts = linear_grad_parts(self@.ff_layers);
        let n = self.ff_layers.len();
        let mut l: usize = 0;
        while l < n
            invariant
                l <= n,
                n == self.ff_layers@.len(),
                parts == linear_grad_parts(self@.ff_layers),
                g@ == done + parts.take(l as int).flatten(),
            decreases n - l,
        {
            append_linear(&mut g, &self.ff_layers[l]);
            proof {
                lemma_next_part(done, parts, l as int);
            }
            l += 1;
        }
        assert(parts.take(n as int) =~= parts);
        g
    }
}

/// `a + b`, unless that is more than the machine can count.
fn sum(a: Option<usize>, b: usize) -> (r: Option<usize>)
    ensures
        match a {
            Some(x) => if x + b <= usize::MAX {
                r == Some((x + b) as usize)
            } else {
                r is None
            },
            None => r is None,
        },
{
    match a {
        Some(x) => x.checked_add(b),
        None => None,
    }
}

/// The number of gradients of a linear layer, unless that is more than
/// the machine can count.
fn count_linear(seen: Option<usize>, l: &Linear) -> (r: Option<usize>)
    ensures
        match seen {
            Some(x) => if x + linear_grads(l@).len() <= usize::MAX {
                r == Some((x + linear_grads(l@).len()) as usize)
            } else {
                r is None
            },
            None => r is None,
        },
{
    sum(sum(seen, l.weight.grad.len()), l.bias.grad.len())
}

/// The number of gradients of an attention layer, unless that is more
/// than the machine can count.
fn count_attention(seen: Option<usize>, a: &MultiHeadAttention) -> (r: Option<usize>)
    ensures
        match seen {
            Some(x) => if x + attention_grads(a@).len() <= usize::MAX {
                r == Some((x + attention_grads(a@).len()) as usize)
            } else {
                r is None
            },
            None => r is None,
        },
{
    count_linear(
        count_linear(count_linear(count_linear(seen, &a.query_proj), &a.key_proj), &a.value_proj),
        &a.output_proj,
    )
}

/// Overwrites the gradients of `p` with those that stand in `grads` from
/// place `at`, and tells the place behind them.
fn scatter_param(p: &mut Param, grads: &[u32], at: usize) -> (end: usize)
    requires
        at + old(p)@.grad.len() <= grads@.len(),
    ensures
        final(p)@ == param_regrad(old(p)@, grads@, at as int),
        end == at + old(p)@.grad.len(),
{
    let n = p.grad.len();
    let mut k: usize = 0;
    assert(grads@.len() == grads.len());
    while k < n
        invariant
            k <= n,
            n == p.grad@.len(),
            n == old(p)@.grad.len(),
            at + n <= grads@.len() <= usize::MAX,
            p.value == old(p).value,
            forall|j: int| 0 <= j < k ==> p.grad@[j] == grads@[at + j],
        decreases n - k,
    {
        p.grad[k] = grads[at + k];
        k += 1;
    }
    assert(p@.grad =~= grads@.subrange(at as int, at + n));
    at + n
}

/// Overwrites the gradients of `l` with those that stand in `grads` from
/// place `at`, and tells the place behind them.
fn scatter_linear(l: &mut Linear, grads: &[u32], at: usize) -> (end: usize)
    requires
        at + linear_grads(old(l)@).len() <= grads@.len(),
    ensures
        final(l)@ == linear_regrad(old(l)@, grads@, at as int),
        end == at + linear_grads(old(l)@).len(),
{
    let at = scatter_param(&mut l.weight, grads, at);
    scatter_param(&mut l.bias, grads, at)
}

/// Overwrites the gradients of `a` with those that stand in `grads` from
/// place `at`, and tells the place behind them.
fn scatter_attention(a: &mut MultiHeadAttention, grads: &[u32], at: usize) -> (end: usize)
    requires
        at + attention_grads(old(a)@).len() <= grads@.len(),
    ensures
        final(a)@ == attention_regrad(old(a)@, grads@, at as int),
        end == at + attention_grads(old(a)@).len(),
{
    let at = scatter_linear(&mut a.query_proj, grads, at);
    let at = scatter_linear(&mut a.key_proj, grads, at);
    let at = scatter_linear(&mut a.value_proj, grads, at);
    scatter_linear(&mut a.output_proj, grads, at)
}

impl SimpleTransformer {
    /// The number of gradients of the model, unless that is more than the
    /// machine can count.
    pub fn gradient_count(&self) -> (r: Option<usize>)
        ensures
            self@.gradients().len() <= usize::MAX ==> r == Some(self@.gradients().len() as usize),
            self@.gradients().len() > usize::MAX ==> r is None,
    {
        let mut count: Option<usize> = Some(0);
        let ghost mut seen: int = 0;

        let ghost parts = table_grad_parts(self@.token_embedding);
        let n = self.token_embedding.embeddings.len();
        let mut t: usize = 0;
        while t < n
            invariant
                t <= n,
                n == self.token_embedding.embeddings@.len(),
                parts == table_grad_parts(self@.token_embedding),
                seen == start_of(parts, t as int),
                seen <= usize::MAX ==> count == Some(seen as usize),
                seen > usize::MAX ==> count is None,
            decreases n - t,
        {
            proof {
                lemma_start_of(parts, t as int);
                seen = seen + parts[t as int].len();
            }
            count = sum(count, self.token_embedding.embeddings[t].grad.len());
            t += 1;
        }
        assert(parts.take(n as int) =~= parts);
        let ghost before = seen;

        let ghost parts = attention_grad_parts(self@.attention_layers);
        let n = self.attention_layers.len();
        let mut l: usize = 0;
        while l < n
            invariant
                l <= n,
                n == self.attention_layers@.len(),
                parts == attention_grad_parts(self@.attention_layers),
                seen == before + start_of(parts, l as int),
                0 <= before,
                seen <= usize::MAX ==> count == Some(seen as usize),
                seen > usize::MAX ==> count is None,
            decreases n - l,
        {
            proof {
                lemma_start_of(parts, l as int);
                seen = seen + parts[l as int].len();
            }
            count = count_attention(count, &self.attention_layers[l]);
            l += 1;
        }
        assert(parts.take(n as int) =~= parts);
        let ghost before = seen;

        let ghost parts = linear_grad_parts(self@.ff_layers);
        let n = self.ff_layers.len();
        let mut l: usize = 0;
        while l < n
            invariant
                l <= n,
                n == self.ff_layers@.len(),
                parts == linear_grad_parts(self@.ff_layers),
                seen == before + start_of(parts, l as int),
                0 <= before,
                seen <= usize::MAX ==> count == Some(seen as usize),
                seen > usize::MAX ==> count is None,
            decreases n - l,
        {
            proof {
                lemma_start_of(parts, l as int);
                seen = seen + parts[l as int].len();
            }
            count = count_linear(count, &self.ff_layers[l]);
            l += 1;
        }
        assert(parts.take(n as int) =~= parts);
        count
    }

    /// Takes the gradients of the model from the run `grads`, which must
    /// hold exactly as many as the model has; a run of another length is a
    /// shape mismatch and leaves the model as it is.
    pub fn set_gradients(&mut self, grads: &[u32]) -> (r: Result<(), ModelError>)
        ensures
            grads@.len() == old(self)@.gradients().len() ==> r == Ok::<(), ModelError>(())
                && final(self)@ == old(self)@.with_gradients(grads@),
            grads@.len() != old(self)@.gradients().len() ==> r == Err::<(), ModelError>(
                ModelError::ShapeMismatch,
            ) && final(self)@ == old(self)@,
    {
        let total = grads.len();
        match self.gradient_count() {
            Some(count) => {
                if count != total {
                    return Err(ModelError::ShapeMismatch);
                }
            },
            None => {
                return Err(ModelError::ShapeMismatch);
            },
        }
        let ghost table = table_grad_parts(old(self)@.token_embedding);
        let ghost attention = attention_grad_parts(old(self)@.attention_layers);
        let ghost linear = linear_grad_parts(old(self)@.ff_layers);
        let ghost want = old(self)@.with_gradients(grads@);
        let mut at: usize = 0;

        let n = self.token_embedding.embeddings.len();
        let mut t: usize = 0;
        while t < n
            invariant
                t <= n,
                n == self.token_embedding.embeddings@.len(),
                n == old(self).token_embedding.embeddings@.len(),
                table == table_grad_parts(old(self)@.token_embedding),
                table.flatten().len() <= grads@.len(),
                at == start_of(table, t as int),
                forall|u: int|
                    0 <= u < t ==> (#[trigger] self.token_embedding.embeddings@[u])@
                        == param_regrad(
                        old(self).token_embedding.embeddings@[u]@,
                        grads@,
                        start_of(table, u),
                    ),
                forall|u: int|
                    t <= u < n ==> self.token_embedding.embeddings@[u] == old(
                        self,
                    ).token_embedding.embeddings@[u],
                self.hidden_size == old(self).hidden_size,
                self.pos_encoding == old(self).pos_encoding,
                self.attention_layers == old(self).attention_layers,
                self.attn_norms == old(self).attn_norms,
                self.ff_layers == old(self).ff_layers,
                self.ff_norms == old(self).ff_norms,
            decreases n - t,
        {
            proof {
                lemma_start_of(table, t as int);
            }
            at = scatter_param(&mut self.token_embedding.embeddings[t], grads, at);
            t += 1;
        }
        assert(table.take(n as int) =~= table);
        let ghost attention_at = at as int;

        let n = self.attention_layers.len();
        let mut l: usize = 0;
        while l < n
            invariant
                l <= n,
                n == self.attention_layers@.len(),
                n == old(self).attention_layers@.len(),
                attention == attention_grad_parts(old(self)@.attention_layers),
                attention_at + attention.flatten().len() <= grads@.len(),
                0 <= attention_at,
                at == attention_at + start_of(attention, l as int),
                forall|k: int|
                    0 <= k < l ==> (#[trigger] self.attention_layers@[k])@ == attention_regrad(
                        old(self).attention_layers@[k]@,
                        grads@,
                        attention_at + start_of(attention, k),
                    ),
                forall|k: int|
                    l <= k < n ==> self.attention_layers@[k] == old(self).attention_layers@[k],
                self.hidden_size == old(self).hidden_size,
                self.pos_encoding == old(self).pos_encoding,
                self@.token_embedding == want.token_embedding,
                self.attn_norms == old(self).attn_norms,
                self.ff_layers == old(self).ff_layers,
                self.ff_norms == old(self).ff_norms,
            decreases n - l,
        {
            proof {
                lemma_start_of(attention, l as int);
                assert(attention[l as int] == attention_grads(
                    old(self).attention_layers@[l as int]@,
                ));
            }
            at = scatter_attention(&mut self.attention_layers[l], grads, at);
            l += 1;
        }
        assert(attention.take(n as int) =~= attention);
        let ghost linear_at = at as int;

        let n = self.ff_layers.len();
        let mut l: usize = 0;
        while l < n
            invariant
                l <= n,
                n == self.ff_layers@.len(),
                n == old(self).ff_layers@.len(),
                linear == linear_grad_parts(old(self)@.ff_layers),
                linear_at + linear.flatten().len() <= grads@.len(),
                0 <= linear_at,
                at == linear_at + start_of(linear, l as int),
                forall|k: int|
                    0 <= k < l ==> (#[trigger] self.ff_layers@[k])@ == linear_regrad(
                        old(self).ff_layers@[k]@,
                        grads@,
                        linear_at + start_of(linear, k),
                    ),
                forall|k: int| l <= k < n ==> self.ff_layers@[k] == old(self).ff_layers@[k],
                self.hidden_size == old(self).hidden_size,
                self.pos_encoding == old(self).pos_encoding,
                self@.token_embedding == want.token_embedding,
                self@.attention_layers == want.attention_layers,
                self.attn_norms == old(self).attn_norms,
                self.ff_norms == old(self).ff_norms,
            decreases n - l,
        {
            proof {
                lemma_start_of(linear, l as int);
            }
            at = scatter_linear(&mut self.ff_layers[l], grads, at);
            l += 1;
        }
        assert(self@.ff_layers =~= want.ff_layers);
        Ok(())
    }
}

/// Setting gradients touches nothing that is stored: the values of the
/// model are as they were.
pub proof fn lemma_with_gradients_keeps_values(m: TransformerView, g: Seq<u32>)
    ensures
        m.with_gradients(g).words() == m.words(),
{
    let after = m.with_gradients(g);
    assert(table_parts(after.token_embedding) =~= table_parts(m.token_embedding));
    assert(attention_parts(after.attention_layers) =~= attention_parts(m.attention_layers));
    assert(linear_parts(after.ff_layers) =~= linear_parts(m.ff_layers));
}

/// What was set is what is read: after the gradients of a model were
/// taken from a run of the right length, the model's gradients are that
/// run.
pub proof fn lemma_gradients_after_set(m: TransformerView, g: Seq<u32>)
    requires
        g.len() == m.gradients().len(),
    ensures
        m.with_gradients(g).gradients() == g,
{
    let after = m.with_gradients(g);
    let table = table_grad_parts(m.token_embedding);
    let attention = attention_grad_parts(m.attention_layers);
    let linear = linear_grad_parts(m.ff_layers);
    let a0 = table.flatten().len() as int;
    let f0 = a0 + attention.flatten().len();
    lemma_pieces_make_the_run(table, g, 0);
    lemma_pieces_make_the_run(attention, g, a0);
    lemma_pieces_make_the_run(linear, g, f0);
    assert(table_grad_parts(after.token_embedding) =~= pieces(table, g, 0));
    assert forall|l: int| 0 <= l < attention.len() implies attention_grad_parts(
        after.attention_layers,
    )[l] == pieces(attention, g, a0)[l] by {
        lemma_start_of(attention, l);
    }
    assert(attention_grad_parts(after.attention_layers) =~= pieces(attention, g, a0));
    assert forall|l: int| 0 <= l < linear.len() implies linear_grad_parts(after.ff_layers)[l]
        == pieces(linear, g, f0)[l] by {
        lemma_start_of(linear, l);
    }
    assert(linear_grad_parts(after.ff_layers) =~= pieces(linear, g, f0));
}

/// What was read can be set again: taking the gradients of a model from
/// the run of its own gradients leaves the model as it is.
pub proof fn lemma_set_own_gradients(m: TransformerView)
    ensures
        m.with_gradients(m.gradients()) == m,
{
    let g = m.gradients();
    let after = m.with_gradients(g);
    let table = table_grad_parts(m.token_embedding);
    let attention = attention_grad_parts(m.attention_layers);
    let linear = linear_grad_parts(m.ff_layers);
    let a0 = table.flatten().len() as int;
    let f0 = a0 + attention.flatten().len();
    assert forall|t: int| 0 <= t < m.token_embedding.len() implies after.token_embedding[t]
        == m.token_embedding[t] by {
        lemma_start_of(table, t);
        lemma_located_left(table.flatten(), attention.flatten(), start_of(table, t), table[t]);
        lemma_located_left(
            table.flatten() + attention.flatten(),
            linear.flatten(),
            start_of(table, t),
            table[t],
        );
    }
    assert(after.token_embedding =~= m.token_embedding);
    assert forall|l: int| 0 <= l < m.attention_layers.len() implies after.attention_layers[l]
        == m.attention_layers[l] by {
        let a = m.attention_layers[l];
        lemma_start_of(attention, l);
        lemma_located_right(
            table.flatten(),
            attention.flatten(),
            start_of(attention, l),
            attention[l],
        );
        lemma_located_left(
            table.flatten() + attention.flatten(),
            linear.flatten(),
            a0 + start_of(attention, l),
            attention[l],
        );
        lemma_attention_regrad(a, g, a0 + start_of(attention, l));
    }
    assert(after.attention_layers =~= m.attention_layers);
    assert forall|l: int| 0 <= l < m.ff_layers.len() implies after.ff_layers[l]
        == m.ff_layers[l] by {
        let f = m.ff_layers[l];
        lemma_start_of(linear, l);
        lemma_located_right(
            table.flatten() + attention.flatten(),
            linear.flatten(),
            start_of(linear, l),
            linear[l],
        );
        lemma_linear_regrad(f, g, f0 + start_of(linear, l));
    }
    assert(after.ff_layers =~= m.ff_layers);
}

/// A linear layer whose gradients stand in a run takes itself from there.
pub proof fn lemma_linear_regrad(l: LinearView, g: Seq<u32>, at: int)
    requires
        located(g, at, linear_grads(l)),
    ensures
        linear_regrad(l, g, at) == l,
{
    let w = l.weight.grad;
    let b = l.bias.grad;
    assert(g.subrange(at, at + w.len()) =~= linear_grads(l).subrange(0, w.len() as int));
    assert(linear_grads(l).subrange(0, w.len() as int) =~= w);
    assert(g.subrange(at + w.len(), at + w.len() + b.len()) =~= linear_grads(l).subrange(
        w.len() as int,
        (w.len() + b.len()) as int,
    ));
    assert(linear_grads(l).subrange(w.len() as int, (w.len() + b.len()) as int) =~= b);
}

/// An attention layer whose gradients stand in a run takes itself from
/// there.
pub proof fn lemma_attention_regrad(a: AttentionView, g: Seq<u32>, at: int)
    requires
        located(g, at, attention_grads(a)),
    ensures
        attention_regrad(a, g, at) == a,
{
    let q = linear_grads(a.query_proj);
    let k = linear_grads(a.key_proj);
    let v = linear_grads(a.value_proj);
    let o = linear_grads(a.output_proj);
    let all = attention_grads(a);
    assert(all.subrange(0, q.len() as int) =~= q);
    assert(all.subrange(q.len() as int, (q.len() + k.len()) as int) =~= k);
    assert(all.subrange((q.len() + k.len()) as int, (q.len() + k.len() + v.len()) as int) =~= v);
    assert(all.subrange(
        (q.len() + k.len() + v.len()) as int,
        (q.len() + k.len() + v.len() + o.len()) as int,
    ) =~= o);
    lemma_located_within(g, at, all, 0, q);
    lemma_located_within(g, at, all, q.len() as int, k);
    lemma_located_within(g, at, all, (q.len() + k.len()) as int, v);
    lemma_located_within(g, at, all, (q.len() + k.len() + v.len()) as int, o);
    lemma_linear_regrad(a.query_proj, g, at);
    lemma_linear_regrad(a.key_proj, g, at + q.len());
    lemma_linear_regrad(a.value_proj, g, at + q.len() + k.len());
    lemma_linear_regrad(a.output_proj, g, at + q.len() + k.len() + v.len());
}

} // verus!
