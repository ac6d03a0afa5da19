//! A lookup table that turns token ids into vectors.

use vstd::prelude::*;
use crate::bits::{repeat, DUMMY_GRAD, INIT_WEIGHT, ZERO};
use crate::model::common::{Param, ParamView};

verus! {

/// One learnable vector per token id.
#[derive(Debug, Clone, PartialEq, Eq)]
pub struct TokenEmbedding {
    pub embeddings: Vec<Param>,
}

/// The views of a sequence of parameters.
pub open spec fn params_view(ps: Seq<Param>) -> Seq<ParamView> {
    Seq::new(ps.len(), |t: int| ps[t]@)
}

/// Every vector of `table` is `dim` long and is matched by its gradient.
pub open spec fn table_wf(table: Seq<ParamView>, dim: nat) -> bool {
    forall|t: int|
        0 <= t < table.len() ==> (#[trigger] table[t]).value.len() == dim && table[t].grad.len()
            == dim
}

/// The value vectors of a table, one for each row.
pub open spec fn table_parts(table: Seq<ParamView>) -> Seq<Seq<u32>> {
    Seq::new(table.len(), |t: int| table[t].value)
}

/// Every token id of `ids` names a row of a table of `vocab` rows.
pub open spec fn ids_in_range(ids: Seq<usize>, vocab: nat) -> bool {
    forall|k: int| 0 <= k < ids.len() ==> #[trigger] ids[k] < vocab
}

/// The same table, with every gradient slot of every row holding `w`.
pub open spec fn table_with_grad(table: Seq<ParamView>, w: u32) -> Seq<ParamView> {
    Seq::new(table.len(), |t: int| table[t].with_grad(w))
}

/// A freshly created table of `vocab` rows of `dim` entries: every entry
/// `0.01`, every gradient `0.0`.
pub open spec fn fresh_table(vocab: nat, dim: nat) -> Seq<ParamView> {
    Seq::new(
        vocab,
        |t: int| ParamView { value: repeat(INIT_WEIGHT, dim), grad: repeat(ZERO, dim) },
    )
}

/// Whether `ids` names row `t`.
pub open spec fn names(ids: Seq<usize>, t: int) -> bool {
    exists|k: int| 0 <= k < ids.len() && #[trigger] ids[k] == t
}

/// The table after the simulated backward pass for `ids`: the rows that
/// `ids` names have every gradient `0.001`, the others are as before.
pub open spec fn dummy_grads_for(before: Seq<ParamView>, ids: Seq<usize>) -> Seq<ParamView> {
    Seq::new(
        before.len(),
        |t: int|
            if names(ids, t) {
                before[t].with_grad(DUMMY_GRAD)
            } else {
                before[t]
            },
    )
}

impl View for TokenEmbedding {
    type V = Seq<ParamView>;

    open spec fn view(&self) -> Seq<ParamView> {
        params_view(self.embeddings@)
    }
}

impl TokenEmbedding {
    /// A table of `vocab_size` vectors of `hidden_size` entries, each entry
    /// `0.01`, with cleared gradients.
    pub fn new(vocab_size: usize, hidden_size: usize) -> (e: Self)
        ensures
            table_wf(e@, hidden_size as nat),
            e@ == fresh_table(vocab_size as nat, hidden_size as nat),
    {
        let mut embeddings: Vec<Param> = Vec::new();
        let mut t: usize = 0;
        while t < vocab_size
            invariant
                t <= vocab_size,
                embeddings@.len() == t,
                forall|u: int|
                    0 <= u < t ==> (#[trigger] embeddings@[u])@.value == repeat(
                        INIT_WEIGHT,
                        hidden_size as nat,
                    ) && embeddings@[u]@.grad == repeat(ZERO, hidden_size as nat),
            decreases vocab_size - t,
        {
            embeddings.push(Param::new(hidden_size));
            t += 1;
        }
        let table = TokenEmbedding { embeddings };
        table
    }

    /// Whether every row is `dim` long and matched by its gradient.
    pub fn is_well_formed(&self, dim: usize) -> (ok: bool)
        ensures
            ok == table_wf(self@, dim as nat),
    {
        let n = self.embeddings.len();
        let mut t: usize = 0;
        while t < n
            invariant
                t <= n,
                n == self.embeddings@.len(),
                forall|u: int|
                    0 <= u < t ==> (#[trigger] self@[u]).value.len() == dim && self@[u].grad.len()
                        == dim,
            decreases n - t,
        {
            if self.embeddings[t].value.len() != dim || self.embeddings[t].grad.len() != dim {
                assert(self@[t as int] == self.embeddings@[t as int]@);
                return false;
            }
            t += 1;
        }
        true
    }

    /// The number of token ids the table knows.
    pub fn vocab_size(&self) -> (n: usize)
        ensures
            n == self@.len(),
    {
        self.embeddings.len()
    }

    /// Whether every token id of `token_ids` names a row of the table.
    pub fn covers(&self, token_ids: &[usize]) -> (ok: bool)
        ensures
            ok == ids_in_range(token_ids@, self@.len()),
    {
        let n = token_ids.len();
        let vocab = self.embeddings.len();
        let mut k: usize = 0;
        while k < n
            invariant
                k <= n,
                n == token_ids@.len(),
                vocab == self@.len(),
                forall|j: int| 0 <= j < k ==> #[trigger] token_ids@[j] < vocab,
            decreases n - k,
        {
            if token_ids[k] >= vocab {
                return false;
            }
            k += 1;
        }
        true
    }

    /// The vectors of the given tokens, in the order of the ids.
    pub fn forward(&self, token_ids: &[usize]) -> (rows: Vec<Vec<u32>>)
        requires
            ids_in_range(token_ids@, self@.len()),
        ensures
            rows.deep_view() == Seq::new(
                token_ids@.len(),
                |k: int| self@[token_ids@[k] as int].value,
            ),
    {
        let n = token_ids.len();
        let mut rows: Vec<Vec<u32>> = Vec::new();
        let mut k: usize = 0;
        while k < n
            invariant
                k <= n,
                n == token_ids@.len(),
                ids_in_range(token_ids@, self@.len()),
                rows@.len() == k,
                forall|j: int|
                    0 <= j < k ==> (#[trigger] rows@[j])@ == self@[token_ids@[j] as int].value,
            decreases n - k,
        {
            let id = token_ids[k];
            let row = self.embeddings[id].value.clone();
            rows.push(row);
            k += 1;
        }
        assert forall|j: int| 0 <= j < rows@.len() implies rows.deep_view()[j]
            == self@[token_ids@[j] as int].value by {}
        rows
    }

    /// Clears the gradient of every row; the values stay.
    pub fn zero_grad(&mut self)
        ensures
            final(self)@ == table_with_grad(old(self)@, ZERO),
    {
        let n = self.embeddings.len();
        let mut t: usize = 0;
        while t < n
            invariant
                t <= n,
                n == self.embeddings@.len(),
                n == old(self).embeddings@.len(),
                forall|u: int|
                    0 <= u < t ==> (#[trigger] self.embeddings@[u])@ == old(
                        self,
                    ).embeddings@[u]@.with_grad(ZERO),
                forall|u: int| t <= u < n ==> self.embeddings@[u] == old(self).embeddings@[u],
            decreases n - t,
        {
            self.embeddings[t].zero_grad();
            t += 1;
        }
    }

    /// The simulated backward pass: writes the gradient `0.001` into
    /// every slot of the rows that `token_ids` names and leaves the other
    /// rows alone.
    pub fn fill_dummy_grads(&mut self, token_ids: &[usize])
        requires
            ids_in_range(token_ids@, old(self)@.len()),
        ensures
            final(self)@ == dummy_grads_for(old(self)@, token_ids@),
    {
        let n = token_ids.len();
        let mut k: usize = 0;
        while k < n
            invariant
                k <= n,
                n == token_ids@.len(),
                ids_in_range(token_ids@, old(self)@.len()),
                self.embeddings@.len() == old(self).embeddings@.len(),
                self@ == dummy_grads_for(old(self)@, token_ids@.take(k as int)),
            decreases n - k,
        {
            let id = token_ids[k];
            let ghost before = self.embeddings@;
            self.embeddings[id].fill_grad(DUMMY_GRAD);
            proof {
                let done = token_ids@.take(k as int);
                let next = token_ids@.take(k + 1);
                let start = old(self)@;
                assert forall|t: int| 0 <= t < start.len() implies (#[trigger] self@[t])
                    == dummy_grads_for(start, next)[t] by {
                    assert(params_view(before)[t] == dummy_grads_for(start, done)[t]);
                    if t == id {
                        assert(next[k as int] == t);
                    } else {
                        if names(next, t) {
                            let j = choose|j: int| 0 <= j < next.len() && #[trigger] next[j] == t;
                            assert(done[j] == t);
                        }
                        if names(done, t) {
                            let j = choose|j: int| 0 <= j < done.len() && #[trigger] done[j] == t;
                            assert(next[j] == t);
                        }
                    }
                }
            }
            k += 1;
        }
        assert(token_ids@.take(n as int) =~= token_ids@);
    }
}

} // verus!
