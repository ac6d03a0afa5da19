//! The table of position vectors that is added to a sequence row by row.

use vstd::prelude::*;
use vstd::slice::slice_subrange;
use crate::error::ModelError;

verus! {

/// One vector per position, `0` up to the largest position the model takes.
///
/// The table may hold fixed sinusoidal values or learned ones; the library
/// stores either the same way.
#[derive(Debug, Clone, PartialEq, Eq)]
pub struct PositionalEncoding {
    pub embeddings: Vec<Vec<u32>>,
}

/// Every row of `rows` is `dim` long.
pub open spec fn rectangular(rows: Seq<Seq<u32>>, dim: nat) -> bool {
    forall|p: int| 0 <= p < rows.len() ==> (#[trigger] rows[p]).len() == dim
}

impl View for PositionalEncoding {
    type V = Seq<Seq<u32>>;

    open spec fn view(&self) -> Seq<Seq<u32>> {
        self.embeddings.deep_view()
    }
}

/// Whether every row of `rows` is `dim` long.
pub fn is_rectangular(rows: &Vec<Vec<u32>>, dim: usize) -> (ok: bool)
    ensures
        ok == rectangular(rows.deep_view(), dim as nat),
{
    let n = rows.len();
    let mut p: usize = 0;
    while p < n
        invariant
            p <= n,
            n == rows@.len(),
            forall|q: int| 0 <= q < p ==> (#[trigger] rows@[q])@.len() == dim,
        decreases n - p,
    {
        if rows[p].len() != dim {
            assert(rows.deep_view()[p as int] == rows@[p as int]@);
            return false;
        }
        p += 1;
    }
    true
}

impl PositionalEncoding {
    /// Every position vector has `dim` entries.
    pub open spec fn wf(&self, dim: nat) -> bool {
        rectangular(self@, dim)
    }

    /// Takes a table of position vectors if each of them is `hidden_dim`
    /// long, and refuses it as a shape mismatch if one is not.
    pub fn from_rows(rows: Vec<Vec<u32>>, hidden_dim: usize) -> (r: Result<Self, ModelError>)
        ensures
            rectangular(rows.deep_view(), hidden_dim as nat) ==> r is Ok && r->Ok_0@
                == rows.deep_view(),
            !rectangular(rows.deep_view(), hidden_dim as nat) ==> r == Err::<Self, ModelError>(
                ModelError::ShapeMismatch,
            ),
    {
        if is_rectangular(&rows, hidden_dim) {
            Ok(PositionalEncoding { embeddings: rows })
        } else {
            Err(ModelError::ShapeMismatch)
        }
    }

    /// Whether every position vector has `dim` entries.
    pub fn is_well_formed(&self, dim: usize) -> (ok: bool)
        ensures
            ok == self.wf(dim as nat),
    {
        is_rectangular(&self.embeddings, dim)
    }

    /// The number of positions the table covers.
    pub fn max_position(&self) -> (n: usize)
        ensures
            n == self@.len(),
    {
        self.embeddings.len()
    }

    /// The position vectors of a sequence of `seq_len` rows: the first
    /// `seq_len` rows of the table.
    pub fn get_encoding(&self, seq_len: usize) -> (rows: &[Vec<u32>])
        requires
            seq_len <= self@.len(),
        ensures
            rows@ == self.embeddings@.take(seq_len as int),
    {
        slice_subrange(self.embeddings.as_slice(), 0, seq_len)
    }

    /// Whether a sequence of `seq_len` rows can be encoded: one with more
    /// rows than the table has positions is a shape mismatch.
    pub fn check_sequence(&self, seq_len: usize) -> (r: Result<(), ModelError>)
        ensures
            seq_len > self@.len() ==> r == Err::<(), ModelError>(ModelError::ShapeMismatch),
            seq_len <= self@.len() ==> r == Ok::<(), ModelError>(()),
    {
        if seq_len > self.embeddings.len() {
            Err(ModelError::ShapeMismatch)
        } else {
            Ok(())
        }
    }

    /// The frequency a feature of a sinusoidal table oscillates at, as the
    /// even number `2 * (i / 2)` that stands in the exponent: features come
    /// in pairs that share it.
    pub fn frequency_index(i: usize) -> (k: usize)
        ensures
            k == 2 * (i / 2),
            k <= i,
    {
        2 * (i / 2)
    }

    /// Whether feature `i` of a sinusoidal table is the sine of its pair
    /// (the even features) or the cosine (the odd ones).
    pub fn uses_sine(i: usize) -> (s: bool)
        ensures
            s == (i % 2 == 0),
    {
        i % 2 == 0
    }
}

/// In a sinusoidal table the features `2k` and `2k + 1` form a pair: both
/// oscillate at the frequency index `2k`, the first as a sine, the second
/// as a cosine.
pub proof fn lemma_sinusoid_pairs(k: nat)
    ensures
        2 * ((2 * k) / 2) == 2 * k,
        2 * ((2 * k + 1) / 2) == 2 * k,
        (2 * k) % 2 == 0,
        (2 * k + 1) % 2 == 1,
{
}

} // verus!
