//! Why a stored model is read back as it was saved: every part of a model
//! stands in the stored values at the place where loading looks for it.

use vstd::prelude::*;
use crate::bits::{EPSILON, ZERO};
use crate::codec::{lemma_stored_words, lemma_words_at_part, words_at, words_bytes};
use crate::config::{linear_word_count, ModelConfig};
use crate::model::attention::AttentionView;
use crate::model::embedding::table_parts;
use crate::model::layernorm::LayerNormView;
use crate::model::linear::LinearView;
use crate::model::transformer::{attention_parts, linear_parts, norm_parts, TransformerView};
use crate::placement::{lemma_located_within, lemma_uniform_flatten, located};
use crate::serialization::{
    attention_at, layernorm_at, layout, lemma_layout_bounds, linear_at, model_at,
};

verus! {

/// A piece of a run of values that is read from some bytes is read from
/// its own place in them.
pub proof fn lemma_read_piece(data: Seq<u8>, base: int, ws: Seq<u32>, at: int, piece: Seq<u32>)
    requires
        words_at(data, base, ws.len()) == ws,
        located(ws, at, piece),
    ensures
        words_at(data, base + 4 * at, piece.len()) == piece,
{
    lemma_words_at_part(data, base, ws.len(), at, piece.len());
}

/// A linear layer that stands in the values read from some bytes is read
/// from its place as itself, with its gradients cleared.
pub proof fn lemma_read_linear(data: Seq<u8>, base: int, ws: Seq<u32>, at: int, l: LinearView)
    requires
        words_at(data, base, ws.len()) == ws,
        located(ws, at, l.words()),
        l.wf(),
    ensures
        linear_at(data, base + 4 * at, l.in_features, l.out_features) == l.with_grad(ZERO),
{
    let w = l.weight.value;
    let b = l.bias.value;
    assert(l.words().subrange(0, w.len() as int) =~= w);
    assert(l.words().subrange(w.len() as int, (w.len() + b.len()) as int) =~= b);
    lemma_located_within(ws, at, l.words(), 0, w);
    lemma_located_within(ws, at, l.words(), w.len() as int, b);
    lemma_read_piece(data, base, ws, at, w);
    lemma_read_piece(data, base, ws, at + w.len(), b);
}

/// A normalization layer with the offset `1e-5` that stands in the values
/// read from some bytes is read from its place as itself.
pub proof fn lemma_read_layernorm(
    data: Seq<u8>,
    base: int,
    ws: Seq<u32>,
    at: int,
    n: LayerNormView,
    dim: nat,
)
    requires
        words_at(data, base, ws.len()) == ws,
        located(ws, at, n.words()),
        n.wf(dim),
        n.epsilon == EPSILON,
    ensures
        layernorm_at(data, base + 4 * at, dim) == n,
{
    assert(n.words().subrange(0, dim as int) =~= n.gamma);
    assert(n.words().subrange(dim as int, (dim + dim) as int) =~= n.beta);
    lemma_located_within(ws, at, n.words(), 0, n.gamma);
    lemma_located_within(ws, at, n.words(), dim as int, n.beta);
    lemma_read_piece(data, base, ws, at, n.gamma);
    lemma_read_piece(data, base, ws, at + dim, n.beta);
}

/// An attention layer that stands in the values read from some bytes is
/// read from its place as itself, with its gradients cleared.
pub proof fn lemma_read_attention(
    data: Seq<u8>,
    base: int,
    ws: Seq<u32>,
    at: int,
    a: AttentionView,
    hidden: nat,
)
    requires
        words_at(data, base, ws.len()) == ws,
        located(ws, at, a.words()),
        a.wf(),
        a.hidden_size() == hidden,
    ensures
        attention_at(data, base + 4 * at, hidden, a.num_heads) == a.with_grad(ZERO),
{
    let step = linear_word_count(hidden, hidden) as int;
    let q = a.query_proj.words();
    let k = a.key_proj.words();
    let v = a.value_proj.words();
    let o = a.output_proj.words();
    assert(a.words().subrange(0, step) =~= q);
    assert(a.words().subrange(step, 2 * step) =~= k);
    assert(a.words().subrange(2 * step, 3 * step) =~= v);
    assert(a.words().subrange(3 * step, 4 * step) =~= o);
    lemma_located_within(ws, at, a.words(), 0, q);
    lemma_located_within(ws, at, a.words(), step, k);
    lemma_located_within(ws, at, a.words(), 2 * step, v);
    lemma_located_within(ws, at, a.words(), 3 * step, o);
    lemma_read_linear(data, base, ws, at, a.query_proj);
    lemma_read_linear(data, base, ws, at + step, a.key_proj);
    lemma_read_linear(data, base, ws, at + 2 * step, a.value_proj);
    lemma_read_linear(data, base, ws, at + 3 * step, a.output_proj);
    assert(hidden / a.num_heads == a.head_dim) by (nonlinear_arith)
        requires
            a.num_heads > 0,
            a.num_heads * a.head_dim == hidden,
    ;
}

/// The stored values of a model of configuration `config` are as many as
/// the configuration says, and each section of them stands where the
/// layout puts it.
pub proof fn lemma_model_sections(m: TransformerView, config: ModelConfig)
    requires
        m.matches(config),
    ensures
        m.words().len() == config.word_count(),
        located(m.words(), 0, m.pos_encoding.flatten()),
        located(m.words(), layout(config).attention, attention_parts(m.attention_layers).flatten()),
        located(m.words(), layout(config).attn_norms, norm_parts(m.attn_norms).flatten()),
        located(m.words(), layout(config).ff_layers, linear_parts(m.ff_layers).flatten()),
        located(m.words(), layout(config).ff_norms, norm_parts(m.ff_norms).flatten()),
        located(m.words(), layout(config).embedding, table_parts(m.token_embedding).flatten()),
{
    let h = config.hidden_size as nat;
    let linear = linear_word_count(h, h);
    let s0 = m.pos_encoding.flatten();
    let s1 = attention_parts(m.attention_layers).flatten();
    let s2 = norm_parts(m.attn_norms).flatten();
    let s3 = linear_parts(m.ff_layers).flatten();
    let s4 = norm_parts(m.ff_norms).flatten();
    let s5 = table_parts(m.token_embedding).flatten();
    lemma_layout_bounds(config);
    lemma_uniform_flatten(m.pos_encoding, h);
    lemma_uniform_flatten(attention_parts(m.attention_layers), 4 * linear);
    lemma_uniform_flatten(norm_parts(m.attn_norms), 2 * h);
    lemma_uniform_flatten(linear_parts(m.ff_layers), linear);
    lemma_uniform_flatten(norm_parts(m.ff_norms), 2 * h);
    lemma_uniform_flatten(table_parts(m.token_embedding), h);
    let ws = m.words();
    let at = layout(config);
    assert(ws.subrange(0, s0.len() as int) =~= s0);
    assert(ws.subrange(at.attention, at.attention + s1.len()) =~= s1);
    assert(ws.subrange(at.attn_norms, at.attn_norms + s2.len()) =~= s2);
    assert(ws.subrange(at.ff_layers, at.ff_layers + s3.len()) =~= s3);
    assert(ws.subrange(at.ff_norms, at.ff_norms + s4.len()) =~= s4);
    assert(ws.subrange(at.embedding, at.embedding + s5.len()) =~= s5);
}

/// A model of configuration `config` whose stored values are read from
/// some bytes is read from them as itself, with its gradients cleared.
pub proof fn lemma_read_model(data: Seq<u8>, base: int, m: TransformerView, config: ModelConfig)
    requires
        m.matches(config),
        words_at(data, base, m.words().len()) == m.words(),
    ensures
        model_at(data, base, config) == m.cleared(),
{
    let h = config.hidden_size as nat;
    let n = config.num_layers as nat;
    let linear = linear_word_count(h, h);
    let ws = m.words();
    let at = layout(config);
    let got = model_at(data, base, config);
    let want = m.cleared();
    lemma_model_sections(m, config);
    lemma_layout_bounds(config);

    lemma_uniform_flatten(m.pos_encoding, h);
    assert forall|p: int| 0 <= p < m.pos_encoding.len() implies got.pos_encoding[p]
        == want.pos_encoding[p] by {
        let row = m.pos_encoding[p];
        lemma_located_within(ws, 0, m.pos_encoding.flatten(), p * h, row);
        lemma_read_piece(data, base, ws, p * h, row);
    }
    assert(got.pos_encoding =~= want.pos_encoding);

    let parts = attention_parts(m.attention_layers);
    lemma_uniform_flatten(parts, 4 * linear);
    assert forall|l: int| 0 <= l < n implies got.attention_layers[l]
        == want.attention_layers[l] by {
        let a = m.attention_layers[l];
        assert(parts[l] == a.words());
        lemma_located_within(ws, at.attention, parts.flatten(), l * (4 * linear), a.words());
        lemma_read_attention(data, base, ws, at.attention + l * (4 * linear), a, h);
    }
    assert(got.attention_layers =~= want.attention_layers);

    let parts = norm_parts(m.attn_norms);
    lemma_uniform_flatten(parts, 2 * h);
    assert forall|l: int| 0 <= l < n implies got.attn_norms[l] == want.attn_norms[l] by {
        let norm = m.attn_norms[l];
        assert(parts[l] == norm.words());
        lemma_located_within(ws, at.attn_norms, parts.flatten(), l * (2 * h), norm.words());
        lemma_read_layernorm(data, base, ws, at.attn_norms + l * (2 * h), norm, h);
    }
    assert(got.attn_norms =~= want.attn_norms);

    let parts = linear_parts(m.ff_layers);
    lemma_uniform_flatten(parts, linear);
    assert forall|l: int| 0 <= l < n implies got.ff_layers[l] == want.ff_layers[l] by {
        let f = m.ff_layers[l];
        assert(parts[l] == f.words());
        lemma_located_within(ws, at.ff_layers, parts.flatten(), l * linear, f.words());
        lemma_read_linear(data, base, ws, at.ff_layers + l * linear, f);
    }
    assert(got.ff_layers =~= want.ff_layers);

    let parts = norm_parts(m.ff_norms);
    lemma_uniform_flatten(parts, 2 * h);
    assert forall|l: int| 0 <= l < n implies got.ff_norms[l] == want.ff_norms[l] by {
        let norm = m.ff_norms[l];
        assert(parts[l] == norm.words());
        lemma_located_within(ws, at.ff_norms, parts.flatten(), l * (2 * h), norm.words());
        lemma_read_layernorm(data, base, ws, at.ff_norms + l * (2 * h), norm, h);
    }
    assert(got.ff_norms =~= want.ff_norms);

    let parts = table_parts(m.token_embedding);
    lemma_uniform_flatten(parts, h);
    assert forall|t: int| 0 <= t < m.token_embedding.len() implies got.token_embedding[t]
        == want.token_embedding[t] by {
        let row = m.token_embedding[t];
        assert(parts[t] == row.value);
        lemma_located_within(ws, at.embedding, parts.flatten(), t * h, row.value);
        lemma_read_piece(data, base, ws, at.embedding + t * h, row.value);
    }
    assert(got.token_embedding =~= want.token_embedding);
}

/// Saving and loading give the model back. Whatever bytes stand before
/// and after it, the stored form of a model of configuration `config` is
/// read, under that configuration, as the same model with every value
/// bit for bit as it was and every gradient cleared.
pub proof fn lemma_model_round_trip(
    m: TransformerView,
    config: ModelConfig,
    before: Seq<u8>,
    after: Seq<u8>,
)
    requires
        m.matches(config),
    ensures
        words_bytes(m.words()).len() == config.model_len(),
        model_at(before + words_bytes(m.words()) + after, before.len() as int, config)
            == m.cleared(),
{
    lemma_model_sections(m, config);
    crate::codec::lemma_words_bytes_len(m.words());
    lemma_stored_words(before, m.words(), after);
    lemma_read_model(before + words_bytes(m.words()) + after, before.len() as int, m, config);
}

} // verus!
