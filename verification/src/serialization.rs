//! The stored form of a model: every value as four little-endian bytes, in
//! a fixed order of the layers, with no header. The shape is not stored;
//! whoever loads a model names the configuration it was saved with.

use vstd::prelude::*;
use crate::bits::{repeat, EPSILON, ZERO};
use crate::codec::{
    lemma_store_next_part, lemma_words_bytes_concat, load_words, save_words, words_at,
    words_bytes, ByteReader,
};
use crate::config::{linear_word_count, ModelConfig};
use crate::error::ModelError;
use crate::model::attention::{lemma_heads_tile, AttentionView, MultiHeadAttention};
use crate::model::common::{Param, ParamView};
use crate::model::embedding::{table_parts, TokenEmbedding};
use crate::model::layernorm::{LayerNorm, LayerNormView};
use crate::model::linear::{Linear, LinearView};
use crate::model::positional::PositionalEncoding;
use crate::model::transformer::{
    attention_parts, linear_parts, norm_parts, SimpleTransformer, TransformerView,
};

verus! {

/// A parameter that holds `value`, with a cleared gradient.
pub open spec fn param_of(value: Seq<u32>) -> ParamView {
    ParamView { value, grad: repeat(ZERO, value.len()) }
}

/// The linear layer stored from byte `at` of `data`: the weight matrix
/// first, the bias behind it; every gradient is cleared.
pub open spec fn linear_at(data: Seq<u8>, at: int, inputs: nat, outputs: nat) -> LinearView {
    LinearView {
        weight: param_of(words_at(data, at, inputs * outputs)),
        bias: param_of(words_at(data, at + 4 * (inputs * outputs), outputs)),
        in_features: inputs,
        out_features: outputs,
    }
}

/// The normalization layer stored from byte `at` of `data`: the scale
/// first, the shift behind it; the offset is `1e-5`.
pub open spec fn layernorm_at(data: Seq<u8>, at: int, dim: nat) -> LayerNormView {
    LayerNormView {
        gamma: words_at(data, at, dim),
        beta: words_at(data, at + 4 * dim, dim),
        epsilon: EPSILON,
    }
}

/// The table of `rows` vectors of `dim` values stored from byte `at` of
/// `data`, row after row.
pub open spec fn rows_at(data: Seq<u8>, at: int, rows: nat, dim: nat) -> Seq<Seq<u32>> {
    Seq::new(rows, |p: int| words_at(data, at + 4 * (p * dim), dim))
}

/// The attention layer over `hidden` features in `heads` heads stored from
/// byte `at` of `data`: query, key, value and output projection, one
/// behind the other.
pub open spec fn attention_at(data: Seq<u8>, at: int, hidden: nat, heads: nat) -> AttentionView {
    let step = 4 * linear_word_count(hidden, hidden);
    AttentionView {
        num_heads: heads,
        head_dim: hidden / heads,
        query_proj: linear_at(data, at, hidden, hidden),
        key_proj: linear_at(data, at + step, hidden, hidden),
        value_proj: linear_at(data, at + 2 * step, hidden, hidden),
        output_proj: linear_at(data, at + 3 * step, hidden, hidden),
    }
}

/// Where each part of a stored model starts, counted in values from the
/// start of the model.
pub ghost struct Layout {
    pub attention: int,
    pub attn_norms: int,
    pub ff_layers: int,
    pub ff_norms: int,
    pub embedding: int,
    pub end: int,
}

/// The layout of a model of configuration `config`: the positional table
/// stands first, and each part starts where the one before it ends.
pub open spec fn layout(config: ModelConfig) -> Layout {
    let h = config.hidden_size as int;
    let n = config.num_layers as int;
    let linear = linear_word_count(h as nat, h as nat) as int;
    let attention = config.max_position_embeddings as int * h;
    let attn_norms = attention + n * (4 * linear);
    let ff_layers = attn_norms + n * (2 * h);
    let ff_norms = ff_layers + n * linear;
    let embedding = ff_norms + n * (2 * h);
    let end = embedding + config.vocab_size as int * h;
    Layout { attention, attn_norms, ff_layers, ff_norms, embedding, end }
}

/// The model of configuration `config` stored from byte `at` of `data`.
pub open spec fn model_at(data: Seq<u8>, at: int, config: ModelConfig) -> TransformerView {
    let h = config.hidden_size as nat;
    let n = config.num_layers as nat;
    let linear = linear_word_count(h, h) as int;
    let part = layout(config);
    TransformerView {
        hidden_size: h,
        pos_encoding: rows_at(data, at, config.max_position_embeddings as nat, h),
        attention_layers: Seq::new(
            n,
            |l: int|
                attention_at(
                    data,
                    at + 4 * (part.attention + l * (4 * linear)),
                    h,
                    config.num_heads as nat,
                ),
        ),
        attn_norms: Seq::new(
            n,
            |l: int| layernorm_at(data, at + 4 * (part.attn_norms + l * (2 * h)), h),
        ),
        ff_layers: Seq::new(
            n,
            |l: int| linear_at(data, at + 4 * (part.ff_layers + l * linear), h, h),
        ),
        ff_norms: Seq::new(
            n,
            |l: int| layernorm_at(data, at + 4 * (part.ff_norms + l * (2 * h)), h),
        ),
        token_embedding: Seq::new(
            config.vocab_size as nat,
            |t: int| param_of(words_at(data, at + 4 * (part.embedding + t * h), h)),
        ),
    }
}

/// Appends the stored form of a linear layer: its weights, then its biases.
pub fn save_linear(linear: &Linear, writer: &mut Vec<u8>)
    ensures
        final(writer)@ == old(writer)@ + words_bytes(linear@.words()),
{
    save_words(&linear.weight.value, writer);
    save_words(&linear.bias.value, writer);
    proof {
        lemma_words_bytes_concat(linear@.weight.value, linear@.bias.value);
    }
}

/// Reads a linear layer from `input_dim` to `output_dim` features. The
/// bytes left must hold all its values; with fewer they are corrupt and
/// the reader stays where it is.
pub fn load_linear(reader: &mut ByteReader, input_dim: usize, output_dim: usize) -> (r: Result<
    Linear,
    ModelError,
>)
    requires
        old(reader).wf(),
    ensures
        final(reader).wf(),
        final(reader).data@ == old(reader).data@,
        old(reader).remaining() >= 4 * linear_word_count(input_dim as nat, output_dim as nat)
            ==> r is Ok && r->Ok_0@ == linear_at(
            old(reader).data@,
            old(reader).pos as int,
            input_dim as nat,
            output_dim as nat,
        ) && final(reader).pos == old(reader).pos + 4 * linear_word_count(
            input_dim as nat,
            output_dim as nat,
        ),
        old(reader).remaining() < 4 * linear_word_count(input_dim as nat, output_dim as nat)
            ==> r == Err::<Linear, ModelError>(ModelError::CheckpointCorrupt) && final(reader).pos
            == old(reader).pos,
{
    assert(0 <= input_dim * output_dim) by (nonlinear_arith);
    assert(reader.data@.len() == reader.data.len());
    let weights = match input_dim.checked_mul(output_dim) {
        Some(n) => n,
        None => {
            return Err(ModelError::CheckpointCorrupt);
        },
    };
    match weights.checked_add(output_dim) {
        Some(total) => {
            if !reader.holds(total) {
                return Err(ModelError::CheckpointCorrupt);
            }
        },
        None => {
            return Err(ModelError::CheckpointCorrupt);
        },
    }
    let weight = match load_words(reader, weights) {
        Ok(ws) => ws,
        Err(e) => {
            return Err(e);
        },
    };
    let bias = match load_words(reader, output_dim) {
        Ok(ws) => ws,
        Err(e) => {
            return Err(e);
        },
    };
    Ok(
        Linear {
            weight: Param::from_values(weight),
            bias: Param::from_values(bias),
            in_features: input_dim,
            out_features: output_dim,
        },
    )
}

/// Appends the stored form of a normalization layer: its scale, then its
/// shift.
pub fn save_layernorm(ln: &LayerNorm, writer: &mut Vec<u8>)
    ensures
        final(writer)@ == old(writer)@ + words_bytes(ln@.words()),
{
    save_words(&ln.gamma, writer);
    save_words(&ln.beta, writer);
    proof {
        lemma_words_bytes_concat(ln@.gamma, ln@.beta);
    }
}

/// Reads a normalization layer over `dim` features. The bytes left must
/// hold its scale and shift; with fewer they are corrupt and the reader
/// stays where it is.
pub fn load_layernorm(reader: &mut ByteReader, dim: usize) -> (r: Result<LayerNorm, ModelError>)
    requires
        old(reader).wf(),
    ensures
        final(reader).wf(),
        final(reader).data@ == old(reader).data@,
        old(reader).remaining() >= 4 * (2 * dim) ==> r is Ok && r->Ok_0@ == layernorm_at(
            old(reader).data@,
            old(reader).pos as int,
            dim as nat,
        ) && final(reader).pos == old(reader).pos + 4 * (2 * dim),
        old(reader).remaining() < 4 * (2 * dim) ==> r == Err::<LayerNorm, ModelError>(
            ModelError::CheckpointCorrupt,
        ) && final(reader).pos == old(reader).pos,
{
    assert(reader.data@.len() == reader.data.len());
    match dim.checked_mul(2) {
        Some(total) => {
            if !reader.holds(total) {
                return Err(ModelError::CheckpointCorrupt);
            }
        },
        None => {
            return Err(ModelError::CheckpointCorrupt);
        },
    }
    let gamma = match load_words(reader, dim) {
        Ok(ws) => ws,
        Err(e) => {
            return Err(e);
        },
    };
    let beta = match load_words(reader, dim) {
        Ok(ws) => ws,
        Err(e) => {
            return Err(e);
        },
    };
    Ok(LayerNorm { gamma, beta, epsilon: EPSILON })
}

/// Appends the stored form of a positional table: its rows, first row
/// first.
pub fn save_positional(pos: &PositionalEncoding, writer: &mut Vec<u8>)
    ensures
        final(writer)@ == old(writer)@ + words_bytes(pos@.flatten()),
{
    let n = pos.embeddings.len();
    let mut p: usize = 0;
    while p < n
        invariant
            p <= n,
            n == pos@.len(),
            n == pos.embeddings@.len(),
            writer@ == old(writer)@ + words_bytes(pos@.take(p as int).flatten()),
        decreases n - p,
    {
        save_words(&pos.embeddings[p], writer);
        proof {
            assert(pos@[p as int] == pos.embeddings@[p as int]@);
            lemma_store_next_part(old(writer)@, pos@, p as int);
        }
        p += 1;
    }
    assert(pos@.take(n as int) =~= pos@);
}

/// Reads `rows` vectors of `dim` values each. The bytes left must hold
/// them all; with fewer they are corrupt and the reader stays where it is.
pub fn load_rows(reader: &mut ByteReader, rows: usize, dim: usize) -> (r: Result<
    Vec<Vec<u32>>,
    ModelError,
>)
    requires
        old(reader).wf(),
    ensures
        final(reader).wf(),
        final(reader).data@ == old(reader).data@,
        old(reader).remaining() >= 4 * (rows * dim) ==> r is Ok && r->Ok_0.deep_view() == rows_at(
            old(reader).data@,
            old(reader).pos as int,
            rows as nat,
            dim as nat,
        ) && final(reader).pos == old(reader).pos + 4 * (rows * dim),
        old(reader).remaining() < 4 * (rows * dim) ==> r == Err::<Vec<Vec<u32>>, ModelError>(
            ModelError::CheckpointCorrupt,
        ) && final(reader).pos == old(reader).pos,
{
    assert(0 <= rows * dim) by (nonlinear_arith);
    let total = match rows.checked_mul(dim) {
        Some(n) => n,
        None => {
            assert(reader.data@.len() == reader.data.len());
            return Err(ModelError::CheckpointCorrupt);
        },
    };
    if !reader.holds(total) {
        return Err(ModelError::CheckpointCorrupt);
    }
    let mut table: Vec<Vec<u32>> = Vec::new();
    let mut p: usize = 0;
    assert(0 * dim == 0);
    while p < rows
        invariant
            p <= rows,
            total == rows * dim,
            reader.wf(),
            reader.data@ == old(reader).data@,
            old(reader).remaining() >= 4 * total,
            reader.pos == old(reader).pos + 4 * (p * dim),
            table@.len() == p,
            forall|q: int|
                0 <= q < p ==> (#[trigger] table@[q])@ == words_at(
                    old(reader).data@,
                    old(reader).pos + 4 * (q * dim),
                    dim as nat,
                ),
        decreases rows - p,
    {
        assert((p + 1) * dim == p * dim + dim && (p + 1) * dim <= rows * dim) by (nonlinear_arith)
            requires
                p < rows,
        ;
        let row = match load_words(reader, dim) {
            Ok(ws) => ws,
            Err(e) => {
                return Err(e);
            },
        };
        table.push(row);
        p += 1;
    }
    assert forall|q: int| 0 <= q < rows implies table.deep_view()[q] == words_at(
        old(reader).data@,
        old(reader).pos + 4 * (q * dim),
        dim as nat,
    ) by {}
    Ok(table)
}

/// Reads a positional table of `max_pos` rows of `dim` values. The bytes
/// left must hold them all; with fewer they are corrupt and the reader
/// stays where it is.
pub fn load_positional(reader: &mut ByteReader, max_pos: usize, dim: usize) -> (r: Result<
    PositionalEncoding,
    ModelError,
>)
    requires
        old(reader).wf(),
    ensures
        final(reader).wf(),
        final(reader).data@ == old(reader).data@,
        old(reader).remaining() >= 4 * (max_pos * dim) ==> r is Ok && r->Ok_0@ == rows_at(
            old(reader).data@,
            old(reader).pos as int,
            max_pos as nat,
            dim as nat,
        ) && final(reader).pos == old(reader).pos + 4 * (max_pos * dim),
        old(reader).remaining() < 4 * (max_pos * dim) ==> r == Err::<
            PositionalEncoding,
            ModelError,
        >(ModelError::CheckpointCorrupt) && final(reader).pos == old(reader).pos,
{
    match load_rows(reader, max_pos, dim) {
        Ok(embeddings) => Ok(PositionalEncoding { embeddings }),
        Err(e) => Err(e),
    }
}

/// Appends the stored form of an attention layer: its query, key, value
/// and output projection.
pub fn save_attention(attn: &MultiHeadAttention, writer: &mut Vec<u8>)
    ensures
        final(writer)@ == old(writer)@ + words_bytes(attn@.words()),
{
    save_linear(&attn.query_proj, writer);
    save_linear(&attn.key_proj, writer);
    save_linear(&attn.value_proj, writer);
    save_linear(&attn.output_proj, writer);
    proof {
        let q = attn@.query_proj.words();
        let k = attn@.key_proj.words();
        let v = attn@.value_proj.words();
        let o = attn@.output_proj.words();
        lemma_words_bytes_concat(q, k);
        lemma_words_bytes_concat(q + k, v);
        lemma_words_bytes_concat(q + k + v, o);
    }
}

/// Reads an attention layer over `hidden` features in `heads` heads. The
/// bytes left must hold its four projections; with fewer they are corrupt
/// and the reader stays where it is.
pub fn load_attention(reader: &mut ByteReader, hidden: usize, heads: usize) -> (r: Result<
    MultiHeadAttention,
    ModelError,
>)
    requires
        old(reader).wf(),
        heads > 0,
    ensures
        final(reader).wf(),
        final(reader).data@ == old(reader).data@,
        old(reader).remaining() >= 4 * (4 * linear_word_count(hidden as nat, hidden as nat))
            ==> r is Ok && r->Ok_0@ == attention_at(
            old(reader).data@,
            old(reader).pos as int,
            hidden as nat,
            heads as nat,
        ) && final(reader).pos == old(reader).pos + 4 * (4 * linear_word_count(
            hidden as nat,
            hidden as nat,
        )),
        old(reader).remaining() < 4 * (4 * linear_word_count(hidden as nat, hidden as nat))
            ==> r == Err::<MultiHeadAttention, ModelError>(ModelError::CheckpointCorrupt)
            && final(reader).pos == old(reader).pos,
{
    assert(0 <= hidden * hidden) by (nonlinear_arith);
    assert(reader.data@.len() == reader.data.len());
    let weights = match hidden.checked_mul(hidden) {
        Some(n) => n,
        None => {
            return Err(ModelError::CheckpointCorrupt);
        },
    };
    let linear = match weights.checked_add(hidden) {
        Some(n) => n,
        None => {
            return Err(ModelError::CheckpointCorrupt);
        },
    };
    match linear.checked_mul(4) {
        Some(total) => {
            if !reader.holds(total) {
                return Err(ModelError::CheckpointCorrupt);
            }
        },
        None => {
            return Err(ModelError::CheckpointCorrupt);
        },
    }
    let query_proj = match load_linear(reader, hidden, hidden) {
        Ok(l) => l,
        Err(e) => {
            return Err(e);
        },
    };
    let key_proj = match load_linear(reader, hidden, hidden) {
        Ok(l) => l,
        Err(e) => {
            return Err(e);
        },
    };
    let value_proj = match load_linear(reader, hidden, hidden) {
        Ok(l) => l,
        Err(e) => {
            return Err(e);
        },
    };
    let output_proj = match load_linear(reader, hidden, hidden) {
        Ok(l) => l,
        Err(e) => {
            return Err(e);
        },
    };
    Ok(
        MultiHeadAttention {
            num_heads: heads,
            head_dim: hidden / heads,
            query_proj,
            key_proj,
            value_proj,
            output_proj,
        },
    )
}

/// Appends the stored form of a token embedding: its rows, first row first.
pub fn save_embedding(table: &TokenEmbedding, writer: &mut Vec<u8>)
    ensures
        final(writer)@ == old(writer)@ + words_bytes(table_parts(table@).flatten()),
{
    let ghost parts = table_parts(table@);
    let n = table.embeddings.len();
    let mut t: usize = 0;
    while t < n
        invariant
            t <= n,
            n == table.embeddings@.len(),
            parts == table_parts(table@),
            writer@ == old(writer)@ + words_bytes(parts.take(t as int).flatten()),
        decreases n - t,
    {
        save_words(&table.embeddings[t].value, writer);
        proof {
            lemma_store_next_part(old(writer)@, parts, t as int);
        }
        t += 1;
    }
    assert(parts.take(n as int) =~= parts);
}

/// Reads a token embedding of `vocab` rows of `dim` values. The bytes left
/// must hold them all; with fewer they are corrupt and the reader stays
/// where it is.
pub fn load_embedding(reader: &mut ByteReader, vocab: usize, dim: usize) -> (r: Result<
    TokenEmbedding,
    ModelError,
>)
    requires
        old(reader).wf(),
    ensures
        final(reader).wf(),
        final(reader).data@ == old(reader).data@,
        old(reader).remaining() >= 4 * (vocab * dim) ==> r is Ok && r->Ok_0@ == Seq::new(
            vocab as nat,
            |t: int|
                param_of(
                    words_at(old(reader).data@, old(reader).pos + 4 * (t * dim), dim as nat),
                ),
        ) && final(reader).pos == old(reader).pos + 4 * (vocab * dim),
        old(reader).remaining() < 4 * (vocab * dim) ==> r == Err::<TokenEmbedding, ModelError>(
            ModelError::CheckpointCorrupt,
        ) && final(reader).pos == old(reader).pos,
{
    assert(0 <= vocab * dim) by (nonlinear_arith);
    let total = match vocab.checked_mul(dim) {
        Some(n) => n,
        None => {
            assert(reader.data@.len() == reader.data.len());
            return Err(ModelError::CheckpointCorrupt);
        },
    };
    if !reader.holds(total) {
        return Err(ModelError::CheckpointCorrupt);
    }
    let mut embeddings: Vec<Param> = Vec::new();
    let mut t: usize = 0;
    assert(0 * dim == 0);
    while t < vocab
        invariant
            t <= vocab,
            total == vocab * dim,
            reader.wf(),
            reader.data@ == old(reader).data@,
            old(reader).remaining() >= 4 * total,
            reader.pos == old(reader).pos + 4 * (t * dim),
            embeddings@.len() == t,
            forall|u: int|
                0 <= u < t ==> (#[trigger] embeddings@[u])@ == param_of(
                    words_at(old(reader).data@, old(reader).pos + 4 * (u * dim), dim as nat),
                ),
        decreases vocab - t,
    {
        assert((t + 1) * dim == t * dim + dim && (t + 1) * dim <= vocab * dim) by (nonlinear_arith)
            requires
                t < vocab,
        ;
        let row = match load_words(reader, dim) {
            Ok(ws) => ws,
            Err(e) => {
                return Err(e);
            },
        };
        embeddings.push(Param::from_values(row));
        t += 1;
    }
    let table = TokenEmbedding { embeddings };
    Ok(table)
}

/// Storing a run of values and then all of some further runs stores both
/// as one run.
pub proof fn lemma_store_section(before: Seq<u8>, stored: Seq<u32>, parts: Seq<Seq<u32>>)
    ensures
        before + words_bytes(stored) + words_bytes(parts.take(0).flatten()) == before
            + words_bytes(stored),
        before + words_bytes(stored) + words_bytes(parts.take(parts.len() as int).flatten())
            == before + words_bytes(stored + parts.flatten()),
{
    assert(parts.take(parts.len() as int) =~= parts);
    lemma_words_bytes_concat(stored, parts.flatten());
}

/// Appends the stored form of a model: the positional table; then the
/// attention layer of every block; then the attention normalization of
/// every block; then the feed-forward layer of every block; then the
/// feed-forward normalization of every block; last the token embedding.
pub fn save_model(model: &SimpleTransformer, writer: &mut Vec<u8>)
    ensures
        final(writer)@ == old(writer)@ + words_bytes(model@.words()),
{
    let ghost start = writer@;
    save_positional(&model.pos_encoding, writer);
    let ghost mut stored = model@.pos_encoding.flatten();

    let ghost parts = attention_parts(model@.attention_layers);
    let n = model.attention_layers.len();
    let mut l: usize = 0;
    proof {
        lemma_store_section(start, stored, parts);
    }
    while l < n
        invariant
            l <= n,
            n == model.attention_layers@.len(),
            parts == attention_parts(model@.attention_layers),
            writer@ == start + words_bytes(stored) + words_bytes(parts.take(l as int).flatten()),
        decreases n - l,
    {
        save_attention(&model.attention_layers[l], writer);
        proof {
            lemma_store_next_part(start + words_bytes(stored), parts, l as int);
        }
        l += 1;
    }
    proof {
        lemma_store_section(start, stored, parts);
        stored = stored + parts.flatten();
    }

    let ghost parts = norm_parts(model@.attn_norms);
    let n = model.attn_norms.len();
    let mut l: usize = 0;
    proof {
        lemma_store_section(start, stored, parts);
    }
    while l < n
        invariant
            l <= n,
            n == model.attn_norms@.len(),
            parts == norm_parts(model@.attn_norms),
            writer@ == start + words_bytes(stored) + words_bytes(parts.take(l as int).flatten()),
        decreases n - l,
    {
        save_layernorm(&model.attn_norms[l], writer);
        proof {
            lemma_store_next_part(start + words_bytes(stored), parts, l as int);
        }
        l += 1;
    }
    proof {
        lemma_store_section(start, stored, parts);
        stored = stored + parts.flatten();
    }

    let ghost parts = linear_parts(model@.ff_layers);
    let n = model.ff_layers.len();
    let mut l: usize = 0;
    proof {
        lemma_store_section(start, stored, parts);
    }
    while l < n
        invariant
            l <= n,
            n == model.ff_layers@.len(),
            parts == linear_parts(model@.ff_layers),
            writer@ == start + words_bytes(stored) + words_bytes(parts.take(l as int).flatten()),
        decreases n - l,
    {
        save_linear(&model.ff_layers[l], writer);
        proof {
            lemma_store_next_part(start + words_bytes(stored), parts, l as int);
        }
        l += 1;
    }
    proof {
        lemma_store_section(start, stored, parts);
        stored = stored + parts.flatten();
    }

    let ghost parts = norm_parts(model@.ff_norms);
    let n = model.ff_norms.len();
    let mut l: usize = 0;
    proof {
        lemma_store_section(start, stored, parts);
    }
    while l < n
        invariant
            l <= n,
            n == model.ff_norms@.len(),
            parts == norm_parts(model@.ff_norms),
            writer@ == start + words_bytes(stored) + words_bytes(parts.take(l as int).flatten()),
        decreases n - l,
    {
        save_layernorm(&model.ff_norms[l], writer);
        proof {
            lemma_store_next_part(start + words_bytes(stored), parts, l as int);
        }
        l += 1;
    }
    proof {
        lemma_store_section(start, stored, parts);
        stored = stored + parts.flatten();
    }

    save_embedding(&model.token_embedding, writer);
    proof {
        let table = table_parts(model@.token_embedding).flatten();
        lemma_words_bytes_concat(stored, table);
    }
}

/// The parts of a stored model follow one another without gaps, and the
/// last ends where the model's values end.
pub proof fn lemma_layout_bounds(config: ModelConfig)
    ensures
        0 <= layout(config).attention <= layout(config).attn_norms <= layout(config).ff_layers
            <= layout(config).ff_norms <= layout(config).embedding <= layout(config).end,
        layout(config).end == config.word_count(),
{
    let h = config.hidden_size as int;
    let n = config.num_layers as int;
    let linear = linear_word_count(h as nat, h as nat) as int;
    assert(0 <= config.max_position_embeddings as int * h) by (nonlinear_arith)
        requires
            0 <= h,
    ;
    assert(0 <= config.vocab_size as int * h) by (nonlinear_arith)
        requires
            0 <= h,
    ;
    assert(0 <= n * (4 * linear) && 0 <= n * (2 * h) && 0 <= n * linear) by (nonlinear_arith)
        requires
            0 <= n,
            0 <= h,
            0 <= linear,
    ;
    assert(n * (4 * linear) + n * (2 * h) + n * linear + n * (2 * h) == n * (5 * linear + 4 * h))
        by (nonlinear_arith);
}

/// Part `l` of `n` parts of `size` values each starts `l * size` values
/// into its section and ends within it.
pub proof fn lemma_section_step(l: int, n: int, size: int)
    requires
        0 <= l < n,
        0 <= size,
    ensures
        0 <= l * size,
        (l + 1) * size == l * size + size,
        (l + 1) * size <= n * size,
{
    assert(0 <= l * size && (l + 1) * size == l * size + size && (l + 1) * size <= n * size)
        by (nonlinear_arith)
        requires
            0 <= l < n,
            0 <= size,
    ;
}

/// Whatever the bytes, the model read from them under a configuration that
/// describes a model has the shape that the configuration describes.
pub proof fn lemma_model_at_matches(data: Seq<u8>, at: int, config: ModelConfig)
    requires
        config.valid(),
    ensures
        model_at(data, at, config).matches(config),
{
    lemma_heads_tile(config.hidden_size as nat, config.num_heads as nat);
}

/// Reads a model of configuration `config`. A configuration that describes
/// no model is refused as invalid; bytes that do not hold every value of
/// the model are corrupt. In both cases the reader stays where it is.
pub fn load_model(reader: &mut ByteReader, config: &ModelConfig) -> (r: Result<
    SimpleTransformer,
    ModelError,
>)
    requires
        old(reader).wf(),
    ensures
        final(reader).wf(),
        final(reader).data@ == old(reader).data@,
        !config.valid() ==> r == Err::<SimpleTransformer, ModelError>(ModelError::InvalidConfig)
            && final(reader).pos == old(reader).pos,
        config.valid() && old(reader).remaining() < config.model_len() ==> r == Err::<
            SimpleTransformer,
            ModelError,
        >(ModelError::CheckpointCorrupt) && final(reader).pos == old(reader).pos,
        config.valid() && old(reader).remaining() >= config.model_len() ==> r is Ok && r->Ok_0@
            == model_at(old(reader).data@, old(reader).pos as int, *config) && r->Ok_0@.matches(
            *config,
        ) && final(reader).pos == old(reader).pos + config.model_len(),
{
    match config.validate() {
        Ok(()) => {},
        Err(e) => {
            return Err(e);
        },
    }
    let count = config.model_word_count();
    if !reader.holds(count) {
        return Err(ModelError::CheckpointCorrupt);
    }
    let h = config.hidden_size;
    let n = config.num_layers;
    let heads = config.num_heads;
    let ghost data = reader.data@;
    let ghost start = reader.pos as int;
    let ghost part = layout(*config);
    let ghost linear = linear_word_count(h as nat, h as nat) as int;
    proof {
        lemma_layout_bounds(*config);
    }

    let pos_encoding = match load_positional(reader, config.max_position_embeddings, h) {
        Ok(p) => p,
        Err(e) => {
            return Err(e);
        },
    };

    let mut attention_layers: Vec<MultiHeadAttention> = Vec::new();
    let mut l: usize = 0;
    assert(0 * (4 * linear) == 0);
    while l < n
        invariant
            l <= n,
            heads > 0,
            heads == config.num_heads,
            h == config.hidden_size,
            n == config.num_layers,
            linear == linear_word_count(h as nat, h as nat),
            part == layout(*config),
            part.attention + n * (4 * linear) == part.attn_norms <= count,
            reader.wf(),
            reader.data@ == data,
            data.len() - start >= 4 * count,
            0 <= start,
            reader.pos == start + 4 * (part.attention + l * (4 * linear)),
            attention_layers@.len() == l,
            forall|k: int|
                0 <= k < l ==> (#[trigger] attention_layers@[k])@ == attention_at(
                    data,
                    start + 4 * (part.attention + k * (4 * linear)),
                    h as nat,
                    heads as nat,
                ),
        decreases n - l,
    {
        proof {
            lemma_section_step(l as int, n as int, 4 * linear);
        }
        let layer = match load_attention(reader, h, heads) {
            Ok(a) => a,
            Err(e) => {
                return Err(e);
            },
        };
        attention_layers.push(layer);
        l += 1;
    }

    let mut attn_norms: Vec<LayerNorm> = Vec::new();
    let mut l: usize = 0;
    assert(0 * (2 * h) == 0);
    while l < n
        invariant
            l <= n,
            h == config.hidden_size,
            n == config.num_layers,
            part == layout(*config),
            part.attn_norms + n * (2 * h) == part.ff_layers <= count,
            0 <= part.attn_norms,
            reader.wf(),
            reader.data@ == data,
            data.len() - start >= 4 * count,
            0 <= start,
            reader.pos == start + 4 * (part.attn_norms + l * (2 * h)),
            attn_norms@.len() == l,
            forall|k: int|
                0 <= k < l ==> (#[trigger] attn_norms@[k])@ == layernorm_at(
                    data,
                    start + 4 * (part.attn_norms + k * (2 * h)),
                    h as nat,
                ),
        decreases n - l,
    {
        proof {
            lemma_section_step(l as int, n as int, 2 * h);
        }
        let layer = match load_layernorm(reader, h) {
            Ok(a) => a,
            Err(e) => {
                return Err(e);
            },
        };
        attn_norms.push(layer);
        l += 1;
    }

    let mut ff_layers: Vec<Linear> = Vec::new();
    let mut l: usize = 0;
    assert(0 * linear == 0);
    while l < n
        invariant
            l <= n,
            h == config.hidden_size,
            n == config.num_layers,
            linear == linear_word_count(h as nat, h as nat),
            part == layout(*config),
            part.ff_layers + n * linear == part.ff_norms <= count,
            0 <= part.ff_layers,
            reader.wf(),
            reader.data@ == data,
            data.len() - start >= 4 * count,
            0 <= start,
            reader.pos == start + 4 * (part.ff_layers + l * linear),
            ff_layers@.len() == l,
            forall|k: int|
                0 <= k < l ==> (#[trigger] ff_layers@[k])@ == linear_at(
                    data,
                    start + 4 * (part.ff_layers + k * linear),
                    h as nat,
                    h as nat,
                ),
        decreases n - l,
    {
        proof {
            lemma_section_step(l as int, n as int, linear);
        }
        let layer = match load_linear(reader, h, h) {
            Ok(a) => a,
            Err(e) => {
                return Err(e);
            },
        };
        ff_layers.push(layer);
        l += 1;
    }

    let mut ff_norms: Vec<LayerNorm> = Vec::new();
    let mut l: usize = 0;
    assert(0 * (2 * h) == 0);
    while l < n
        invariant
            l <= n,
            h == config.hidden_size,
            n == config.num_layers,
            part == layout(*config),
            part.ff_norms + n * (2 * h) == part.embedding <= count,
            0 <= part.ff_norms,
            reader.wf(),
            reader.data@ == data,
            data.len() - start >= 4 * count,
            0 <= start,
            reader.pos == start + 4 * (part.ff_norms + l * (2 * h)),
            ff_norms@.len() == l,
            forall|k: int|
                0 <= k < l ==> (#[trigger] ff_norms@[k])@ == layernorm_at(
                    data,
                    start + 4 * (part.ff_norms + k * (2 * h)),
                    h as nat,
                ),
        decreases n - l,
    {
        proof {
            lemma_section_step(l as int, n as int, 2 * h);
        }
        let layer = match load_layernorm(reader, h) {
            Ok(a) => a,
            Err(e) => {
                return Err(e);
            },
        };
        ff_norms.push(layer);
        l += 1;
    }

    let token_embedding = match load_embedding(reader, config.vocab_size, h) {
        Ok(t) => t,
        Err(e) => {
            return Err(e);
        },
    };
    let model = SimpleTransformer {
        hidden_size: h,
        token_embedding,
        pos_encoding,
        attention_layers,
        attn_norms,
        ff_layers,
        ff_norms,
    };
    proof {
        let want = model_at(data, start, *config);
        lemma_model_at_matches(data, start, *config);
        assert(model@.attention_layers =~= want.attention_layers);
        assert(model@.attn_norms =~= want.attn_norms);
        assert(model@.ff_layers =~= want.ff_layers);
        assert(model@.ff_norms =~= want.ff_norms);
        assert(model@.token_embedding =~= want.token_embedding);
    }
    Ok(model)
}

} // verus!
