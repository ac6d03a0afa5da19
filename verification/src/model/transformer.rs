//! The model: a positional table, a token embedding, and a stack of
//! attention and feed-forward blocks, each followed by a normalization.

use vstd::prelude::*;
use crate::bits::{DUMMY_GRAD, EPSILON, ZERO};
use crate::config::{layer_word_count, ModelConfig};
use crate::error::ModelError;
use crate::model::attention::{lemma_heads_tile, AttentionView, MultiHeadAttention};
use crate::model::common::ParamView;
use crate::model::embedding::{
    dummy_grads_for, fresh_table, ids_in_range, table_parts, table_wf, table_with_grad,
    TokenEmbedding,
};
use crate::model::layernorm::{LayerNorm, LayerNormView};
use crate::model::linear::{square, Linear, LinearView};
use crate::model::positional::{rectangular, PositionalEncoding};

verus! {

/// A transformer of `attention_layers.len()` blocks. Block `l` is made of
/// `attention_layers[l]`, `attn_norms[l]`, `ff_layers[l]` and `ff_norms[l]`,
/// applied in that order.
#[derive(Debug, Clone, PartialEq, Eq)]
pub struct SimpleTransformer {
    pub hidden_size: usize,
    pub token_embedding: TokenEmbedding,
    pub pos_encoding: PositionalEncoding,
    pub attention_layers: Vec<MultiHeadAttention>,
    pub attn_norms: Vec<LayerNorm>,
    pub ff_layers: Vec<Linear>,
    pub ff_norms: Vec<LayerNorm>,
}

/// What a [`SimpleTransformer`] holds.
pub ghost struct TransformerView {
    pub hidden_size: nat,
    pub token_embedding: Seq<ParamView>,
    pub pos_encoding: Seq<Seq<u32>>,
    pub attention_layers: Seq<AttentionView>,
    pub attn_norms: Seq<LayerNormView>,
    pub ff_layers: Seq<LinearView>,
    pub ff_norms: Seq<LayerNormView>,
}

/// The views of a sequence of attention layers.
pub open spec fn attentions_view(s: Seq<MultiHeadAttention>) -> Seq<AttentionView> {
    Seq::new(s.len(), |l: int| s[l]@)
}

/// The views of a sequence of normalization layers.
pub open spec fn norms_view(s: Seq<LayerNorm>) -> Seq<LayerNormView> {
    Seq::new(s.len(), |l: int| s[l]@)
}

/// The views of a sequence of linear layers.
pub open spec fn linears_view(s: Seq<Linear>) -> Seq<LinearView> {
    Seq::new(s.len(), |l: int| s[l]@)
}

/// The stored values of each attention layer of a sequence.
pub open spec fn attention_parts(s: Seq<AttentionView>) -> Seq<Seq<u32>> {
    Seq::new(s.len(), |l: int| s[l].words())
}

/// The stored values of each normalization layer of a sequence.
pub open spec fn norm_parts(s: Seq<LayerNormView>) -> Seq<Seq<u32>> {
    Seq::new(s.len(), |l: int| s[l].words())
}

/// The stored values of each linear layer of a sequence.
pub open spec fn linear_parts(s: Seq<LinearView>) -> Seq<Seq<u32>> {
    Seq::new(s.len(), |l: int| s[l].words())
}

/// The same attention layers, with every gradient slot holding `w`.
pub open spec fn attentions_with_grad(s: Seq<AttentionView>, w: u32) -> Seq<AttentionView> {
    Seq::new(s.len(), |l: int| s[l].with_grad(w))
}

/// The same linear layers, with every gradient slot holding `w`.
pub open spec fn linears_with_grad(s: Seq<LinearView>, w: u32) -> Seq<LinearView> {
    Seq::new(s.len(), |l: int| s[l].with_grad(w))
}

impl TransformerView {
    /// The number of blocks.
    pub open spec fn num_layers(self) -> nat {
        self.attention_layers.len()
    }

    /// The four per-block arrays have one entry per block, and every part
    /// has the shape the hidden width calls for.
    pub open spec fn wf(self) -> bool {
        &&& self.attn_norms.len() == self.num_layers()
        &&& self.ff_layers.len() == self.num_layers()
        &&& self.ff_norms.len() == self.num_layers()
        &&& rectangular(self.pos_encoding, self.hidden_size)
        &&& table_wf(self.token_embedding, self.hidden_size)
        &&& forall|l: int|
            0 <= l < self.num_layers() ==> (#[trigger] self.attention_layers[l]).wf()
                && self.attention_layers[l].hidden_size() == self.hidden_size
        &&& forall|l: int|
            0 <= l < self.num_layers() ==> (#[trigger] self.attn_norms[l]).wf(self.hidden_size)
        &&& forall|l: int|
            0 <= l < self.num_layers() ==> square(#[trigger] self.ff_layers[l], self.hidden_size)
        &&& forall|l: int|
            0 <= l < self.num_layers() ==> (#[trigger] self.ff_norms[l]).wf(self.hidden_size)
    }

    /// The model has the shape that `config` describes.
    pub open spec fn matches(self, config: ModelConfig) -> bool {
        &&& self.wf()
        &&& self.hidden_size == config.hidden_size
        &&& self.num_layers() == config.num_layers
        &&& self.pos_encoding.len() == config.max_position_embeddings
        &&& self.token_embedding.len() == config.vocab_size
        &&& forall|l: int|
            0 <= l < self.num_layers() ==> (#[trigger] self.attention_layers[l]).num_heads
                == config.num_heads
        &&& forall|l: int|
            0 <= l < self.num_layers() ==> (#[trigger] self.attn_norms[l]).epsilon == EPSILON
        &&& forall|l: int|
            0 <= l < self.num_layers() ==> (#[trigger] self.ff_norms[l]).epsilon == EPSILON
    }

    /// The values of the model in storage order: the positional table row
    /// by row; then of every block the attention layer; then of every block
    /// the attention normalization; then of every block the feed-forward
    /// layer; then of every block its normalization; last the token
    /// embedding row by row.
    pub open spec fn words(self) -> Seq<u32> {
        self.pos_encoding.flatten() + attention_parts(self.attention_layers).flatten()
            + norm_parts(self.attn_norms).flatten() + linear_parts(self.ff_layers).flatten()
            + norm_parts(self.ff_norms).flatten() + table_parts(self.token_embedding).flatten()
    }

    /// A freshly created model of configuration `config` around the
    /// positional table `table`.
    pub open spec fn fresh(config: ModelConfig, table: Seq<Seq<u32>>) -> TransformerView {
        let h = config.hidden_size as nat;
        let n = config.num_layers as nat;
        TransformerView {
            hidden_size: h,
            token_embedding: fresh_table(config.vocab_size as nat, h),
            pos_encoding: table,
            attention_layers: Seq::new(
                n,
                |l: int| AttentionView::fresh(h, config.num_heads as nat),
            ),
            attn_norms: Seq::new(n, |l: int| LayerNormView::fresh(h)),
            ff_layers: Seq::new(n, |l: int| LinearView::fresh(h, h)),
            ff_norms: Seq::new(n, |l: int| LayerNormView::fresh(h)),
        }
    }

    /// The model with every gradient cleared and every value as it is.
    pub open spec fn cleared(self) -> TransformerView {
        TransformerView {
            token_embedding: table_with_grad(self.token_embedding, ZERO),
            attention_layers: attentions_with_grad(self.attention_layers, ZERO),
            ff_layers: linears_with_grad(self.ff_layers, ZERO),
            ..self
        }
    }

    /// The model after the simulated backward pass for the tokens `ids`:
    /// the embedding rows that `ids` names and every attention and
    /// feed-forward layer hold the gradient `0.001` in every slot; all
    /// values are as they were.
    pub open spec fn dummy_grads(self, ids: Seq<usize>) -> TransformerView {
        TransformerView {
            token_embedding: dummy_grads_for(self.token_embedding, ids),
            attention_layers: attentions_with_grad(self.attention_layers, DUMMY_GRAD),
            ff_layers: linears_with_grad(self.ff_layers, DUMMY_GRAD),
            ..self
        }
    }
}

/// The sequence length a forward pass works on and the length of what it
/// returns.
#[derive(Debug, Clone, Copy, PartialEq, Eq)]
pub struct ForwardShape {
    pub seq_len: usize,
    pub output_len: usize,
}

/// The shape rule of a forward pass over a flattened input of `input_len`
/// numbers, for rows of `hidden` features and a positional table of
/// `max_position` rows. A model without width and an empty sequence are
/// invalid; an input that is not a whole number of rows, or has more rows
/// than the table, is a shape mismatch. An accepted input of `seq_len`
/// rows gives an output of `seq_len * hidden` numbers.
pub open spec fn sequence_shape(hidden: nat, max_position: nat, input_len: nat) -> Result<
    ForwardShape,
    ModelError,
> {
    if hidden == 0 || input_len == 0 {
        Err(ModelError::InvalidConfig)
    } else if input_len % hidden != 0 || input_len / hidden > max_position {
        Err(ModelError::ShapeMismatch)
    } else {
        Ok(ForwardShape { seq_len: (input_len / hidden) as usize, output_len: input_len as usize })
    }
}

/// The shape rule of a forward pass over token ids, which looks the tokens
/// up and returns the mean of the final rows: a model without width and
/// an empty sequence are invalid; more tokens than the positional table
/// has rows, or an id outside the embedding table, is a shape mismatch.
/// An accepted sequence gives an output of `hidden` numbers.
pub open spec fn token_shape(hidden: nat, max_position: nat, vocab: nat, ids: Seq<usize>) -> Result<
    ForwardShape,
    ModelError,
> {
    if hidden == 0 || ids.len() == 0 {
        Err(ModelError::InvalidConfig)
    } else if ids.len() > max_position || !ids_in_range(ids, vocab) {
        Err(ModelError::ShapeMismatch)
    } else {
        Ok(ForwardShape { seq_len: ids.len() as usize, output_len: hidden as usize })
    }
}

impl View for SimpleTransformer {
    type V = TransformerView;

    open spec fn view(&self) -> TransformerView {
        TransformerView {
            hidden_size: self.hidden_size as nat,
            token_embedding: self.token_embedding@,
            pos_encoding: self.pos_encoding@,
            attention_layers: attentions_view(self.attention_layers@),
            attn_norms: norms_view(self.attn_norms@),
            ff_layers: linears_view(self.ff_layers@),
            ff_norms: norms_view(self.ff_norms@),
        }
    }
}

/// Sets every gradient of every layer of `layers` to `w`; the values stay.
fn fill_attention_grads(layers: &mut Vec<MultiHeadAttention>, w: u32)
    ensures
        attentions_view(final(layers)@) == attentions_with_grad(attentions_view(old(layers)@), w),
{
    let n = layers.len();
    let mut l: usize = 0;
    while l < n
        invariant
            l <= n,
            n == layers@.len(),
            n == old(layers)@.len(),
            forall|k: int| 0 <= k < l ==> (#[trigger] layers@[k])@ == old(layers)@[k]@.with_grad(w),
            forall|k: int| l <= k < n ==> layers@[k] == old(layers)@[k],
        decreases n - l,
    {
        layers[l].fill_grad(w);
        l += 1;
    }
}

/// Sets every gradient of every layer of `layers` to `w`; the values stay.
fn fill_linear_grads(layers: &mut Vec<Linear>, w: u32)
    ensures
        linears_view(final(layers)@) == linears_with_grad(linears_view(old(layers)@), w),
{
    let n = layers.len();
    let mut l: usize = 0;
    while l < n
        invariant
            l <= n,
            n == layers@.len(),
            n == old(layers)@.len(),
            forall|k: int| 0 <= k < l ==> (#[trigger] layers@[k])@ == old(layers)@[k]@.with_grad(w),
            forall|k: int| l <= k < n ==> layers@[k] == old(layers)@[k],
        decreases n - l,
    {
        layers[l].fill_grad(w);
        l += 1;
    }
}

impl SimpleTransformer {
    /// A fresh model of configuration `config` around the positional table
    /// `pos_encoding`: every weight, bias and embedding entry `0.01`, every
    /// normalization scale `1.0` and shift `0.0`, every gradient `0.0`.
    pub fn new(config: &ModelConfig, pos_encoding: PositionalEncoding) -> (m: Self)
        requires
            config.valid(),
            pos_encoding@.len() == config.max_position_embeddings,
            pos_encoding.wf(config.hidden_size as nat),
        ensures
            m@ == TransformerView::fresh(*config, pos_encoding@),
            m@.matches(*config),
    {
        let h = config.hidden_size;
        let n = config.num_layers;
        let heads = config.num_heads;
        let mut attention_layers: Vec<MultiHeadAttention> = Vec::new();
        let mut attn_norms: Vec<LayerNorm> = Vec::new();
        let mut ff_layers: Vec<Linear> = Vec::new();
        let mut ff_norms: Vec<LayerNorm> = Vec::new();
        let mut l: usize = 0;
        while l < n
            invariant
                l <= n,
                config.valid(),
                h == config.hidden_size,
                n == config.num_layers,
                heads == config.num_heads,
                attention_layers@.len() == l,
                attn_norms@.len() == l,
                ff_layers@.len() == l,
                ff_norms@.len() == l,
                forall|k: int|
                    0 <= k < l ==> (#[trigger] attention_layers@[k])@ == AttentionView::fresh(
                        h as nat,
                        heads as nat,
                    ) && attention_layers@[k].wf(),
                forall|k: int|
                    0 <= k < l ==> (#[trigger] attn_norms@[k])@ == LayerNormView::fresh(h as nat),
                forall|k: int|
                    0 <= k < l ==> (#[trigger] ff_layers@[k])@ == LinearView::fresh(
                        h as nat,
                        h as nat,
                    ),
                forall|k: int|
                    0 <= k < l ==> (#[trigger] ff_norms@[k])@ == LayerNormView::fresh(h as nat),
            decreases n - l,
        {
            proof {
                lemma_layer_fits(*config);
            }
            attention_layers.push(MultiHeadAttention::new(h, heads));
            attn_norms.push(LayerNorm::new(h));
            ff_layers.push(Linear::new(h, h));
            ff_norms.push(LayerNorm::new(h));
            l += 1;
        }
        let token_embedding = TokenEmbedding::new(config.vocab_size, h);
        let m = SimpleTransformer {
            hidden_size: h,
            token_embedding,
            pos_encoding,
            attention_layers,
            attn_norms,
            ff_layers,
            ff_norms,
        };
        proof {
            let want = TransformerView::fresh(*config, pos_encoding@);
            assert(m@.attention_layers =~= want.attention_layers);
            assert(m@.attn_norms =~= want.attn_norms);
            assert(m@.ff_layers =~= want.ff_layers);
            assert(m@.ff_norms =~= want.ff_norms);
            lemma_heads_tile(h as nat, heads as nat);
        }
        m
    }

    /// A model like that of [`SimpleTransformer::new`], or the refusal of
    /// what makes none: a configuration that describes no model is
    /// invalid; a positional table that does not have one row of
    /// `hidden_size` values for each position is a shape mismatch.
    pub fn try_new(config: &ModelConfig, pos_encoding: PositionalEncoding) -> (r: Result<
        Self,
        ModelError,
    >)
        ensures
            !config.valid() ==> r == Err::<Self, ModelError>(ModelError::InvalidConfig),
            config.valid() && !(pos_encoding@.len() == config.max_position_embeddings
                && pos_encoding.wf(config.hidden_size as nat)) ==> r == Err::<Self, ModelError>(
                ModelError::ShapeMismatch,
            ),
            config.valid() && pos_encoding@.len() == config.max_position_embeddings
                && pos_encoding.wf(config.hidden_size as nat) ==> r is Ok && r->Ok_0@
                == TransformerView::fresh(*config, pos_encoding@) && r->Ok_0@.matches(*config),
    {
        match config.validate() {
            Ok(()) => {},
            Err(e) => {
                return Err(e);
            },
        }
        if pos_encoding.max_position() != config.max_position_embeddings
            || !pos_encoding.is_well_formed(config.hidden_size) {
            return Err(ModelError::ShapeMismatch);
        }
        Ok(SimpleTransformer::new(config, pos_encoding))
    }

    /// Whether the model's parts have the shapes its hidden width calls
    /// for, with one layer of each kind for every block.
    pub fn is_well_formed(&self) -> (ok: bool)
        ensures
            ok == self@.wf(),
    {
        let h = self.hidden_size;
        let n = self.attention_layers.len();
        if self.attn_norms.len() != n || self.ff_layers.len() != n || self.ff_norms.len() != n {
            return false;
        }
        if !self.pos_encoding.is_well_formed(h) || !self.token_embedding.is_well_formed(h) {
            return false;
        }
        let mut l: usize = 0;
        while l < n
            invariant
                l <= n,
                h == self.hidden_size,
                n == self.attention_layers@.len(),
                n == self.attn_norms@.len(),
                n == self.ff_layers@.len(),
                n == self.ff_norms@.len(),
                forall|k: int|
                    0 <= k < l ==> (#[trigger] self@.attention_layers[k]).wf()
                        && self@.attention_layers[k].hidden_size() == h,
                forall|k: int| 0 <= k < l ==> (#[trigger] self@.attn_norms[k]).wf(h as nat),
                forall|k: int| 0 <= k < l ==> square(#[trigger] self@.ff_layers[k], h as nat),
                forall|k: int| 0 <= k < l ==> (#[trigger] self@.ff_norms[k]).wf(h as nat),
            decreases n - l,
        {
            assert(self@.attention_layers[l as int] == self.attention_layers@[l as int]@);
            assert(self@.attn_norms[l as int] == self.attn_norms@[l as int]@);
            assert(self@.ff_layers[l as int] == self.ff_layers@[l as int]@);
            assert(self@.ff_norms[l as int] == self.ff_norms@[l as int]@);
            if !self.attention_layers[l].fits(h) || !self.attn_norms[l].is_well_formed(h)
                || !self.ff_layers[l].is_square(h) || !self.ff_norms[l].is_well_formed(h) {
                return false;
            }
            l += 1;
        }
        true
    }

    /// Whether the model has the shape that `config` describes.
    pub fn matches_config(&self, config: &ModelConfig) -> (ok: bool)
        ensures
            ok == self@.matches(*config),
    {
        let n = self.attention_layers.len();
        if !self.is_well_formed() || self.hidden_size != config.hidden_size || n
            != config.num_layers || self.pos_encoding.max_position()
            != config.max_position_embeddings || self.token_embedding.vocab_size()
            != config.vocab_size {
            return false;
        }
        let mut l: usize = 0;
        while l < n
            invariant
                l <= n,
                self@.wf(),
                n == self@.num_layers(),
                n == self.attention_layers@.len(),
                n == self.attn_norms@.len(),
                n == self.ff_norms@.len(),
                forall|k: int|
                    0 <= k < l ==> (#[trigger] self@.attention_layers[k]).num_heads
                        == config.num_heads,
                forall|k: int| 0 <= k < l ==> (#[trigger] self@.attn_norms[k]).epsilon == EPSILON,
                forall|k: int| 0 <= k < l ==> (#[trigger] self@.ff_norms[k]).epsilon == EPSILON,
            decreases n - l,
        {
            assert(self@.attention_layers[l as int] == self.attention_layers@[l as int]@);
            assert(self@.attn_norms[l as int] == self.attn_norms@[l as int]@);
            assert(self@.ff_norms[l as int] == self.ff_norms@[l as int]@);
            if self.attention_layers[l].num_heads != config.num_heads || self.attn_norms[l].epsilon
                != EPSILON || self.ff_norms[l].epsilon != EPSILON {
                return false;
            }
            l += 1;
        }
        true
    }

    /// The shape rule of a forward pass over a flattened input of
    /// `input_len` feature values; see [`sequence_shape`].
    pub fn forward_shape(&self, input_len: usize) -> (r: Result<ForwardShape, ModelError>)
        ensures
            r == sequence_shape(self@.hidden_size, self@.pos_encoding.len(), input_len as nat),
            r matches Ok(s) ==> s.output_len == s.seq_len * self@.hidden_size,
    {
        if self.hidden_size == 0 || input_len == 0 {
            return Err(ModelError::InvalidConfig);
        }
        if input_len % self.hidden_size != 0 {
            return Err(ModelError::ShapeMismatch);
        }
        let seq_len = input_len / self.hidden_size;
        if seq_len > self.pos_encoding.max_position() {
            return Err(ModelError::ShapeMismatch);
        }
        assert(input_len == seq_len * self.hidden_size) by (nonlinear_arith)
            requires
                self.hidden_size > 0,
                input_len % self.hidden_size == 0,
                seq_len == input_len / self.hidden_size,
        ;
        Ok(ForwardShape { seq_len, output_len: input_len })
    }

    /// The shape rule of a forward pass over token ids; see
    /// [`token_shape`].
    pub fn forward_tokens_shape(&self, token_ids: &[usize]) -> (r: Result<
        ForwardShape,
        ModelError,
    >)
        ensures
            r == token_shape(
                self@.hidden_size,
                self@.pos_encoding.len(),
                self@.token_embedding.len(),
                token_ids@,
            ),
    {
        if self.hidden_size == 0 || token_ids.len() == 0 {
            return Err(ModelError::InvalidConfig);
        }
        if token_ids.len() > self.pos_encoding.max_position() || !self.token_embedding.covers(
            token_ids,
        ) {
            return Err(ModelError::ShapeMismatch);
        }
        Ok(ForwardShape { seq_len: token_ids.len(), output_len: self.hidden_size })
    }

    /// Clears every gradient of the model: of the token embedding, of each
    /// attention layer and of each feed-forward layer. The values stay.
    pub fn zero_grad(&mut self)
        ensures
            final(self)@ == old(self)@.cleared(),
    {
        self.token_embedding.zero_grad();
        fill_attention_grads(&mut self.attention_layers, ZERO);
        fill_linear_grads(&mut self.ff_layers, ZERO);
    }

    /// The simulated backward pass: writes the gradient `0.001` into the
    /// embedding rows of the given tokens and into every slot of each
    /// attention and feed-forward layer. The values stay.
    pub fn backward(&mut self, token_ids: &[usize])
        requires
            ids_in_range(token_ids@, old(self)@.token_embedding.len()),
        ensures
            final(self)@ == old(self)@.dummy_grads(token_ids@),
    {
        self.token_embedding.fill_dummy_grads(token_ids);
        fill_attention_grads(&mut self.attention_layers, DUMMY_GRAD);
        fill_linear_grads(&mut self.ff_layers, DUMMY_GRAD);
    }
}

/// One block of a model whose configuration is valid and has at least one
/// block is small enough to be created: the square of the width fits the
/// machine.
pub proof fn lemma_layer_fits(config: ModelConfig)
    requires
        config.valid(),
        config.num_layers > 0,
    ensures
        config.hidden_size * config.hidden_size <= usize::MAX,
{
    let h = config.hidden_size as nat;
    let n = config.num_layers as nat;
    assert(n * layer_word_count(h) >= layer_word_count(h)) by (nonlinear_arith)
        requires
            n >= 1,
    ;
    assert(config.max_position_embeddings as nat * h >= 0 && config.vocab_size as nat * h >= 0)
        by (nonlinear_arith);
}

/// A forward pass over `seq_len` rows of features, with `seq_len` between
/// one and the number of positions the model covers, is accepted and
/// returns `seq_len * hidden` numbers.
pub proof fn lemma_forward_length(hidden: nat, max_position: nat, seq_len: nat)
    requires
        hidden > 0,
        0 < seq_len <= max_position,
        seq_len * hidden <= usize::MAX,
    ensures
        sequence_shape(hidden, max_position, seq_len * hidden) == Ok::<ForwardShape, ModelError>(
            ForwardShape { seq_len: seq_len as usize, output_len: (seq_len * hidden) as usize },
        ),
{
    assert((seq_len * hidden) % hidden == 0 && (seq_len * hidden) / hidden == seq_len && seq_len
        * hidden > 0) by (nonlinear_arith)
        requires
            hidden > 0,
            seq_len > 0,
    ;
}

} // verus!
