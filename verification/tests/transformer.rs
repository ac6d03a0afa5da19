use mini_transformer::bits::{DUMMY_GRAD, EPSILON, INIT_WEIGHT, ONE, ZERO};
use mini_transformer::config::ModelConfig;
use mini_transformer::error::ModelError;
use mini_transformer::model::attention::MultiHeadAttention;
use mini_transformer::model::layernorm::LayerNorm;
use mini_transformer::model::linear::Linear;
use mini_transformer::model::positional::PositionalEncoding;
use mini_transformer::model::transformer::{ForwardShape, SimpleTransformer};

fn config(layers: usize, vocab: usize) -> ModelConfig {
    ModelConfig {
        hidden_size: 4,
        num_heads: 2,
        num_layers: layers,
        max_position_embeddings: 3,
        vocab_size: vocab,
        ..ModelConfig::default()
    }
}

fn table() -> PositionalEncoding {
    PositionalEncoding { embeddings: vec![vec![1, 2, 3, 4], vec![5, 6, 7, 8], vec![9, 10, 11, 12]] }
}

#[test]
fn a_new_model_has_one_of_each_layer_for_each_block() {
    let m = SimpleTransformer::new(&config(2, 5), table());
    assert_eq!(m.hidden_size, 4);
    assert_eq!(m.pos_encoding, table());
    assert_eq!(m.attention_layers, vec![MultiHeadAttention::new(4, 2), MultiHeadAttention::new(4, 2)]);
    assert_eq!(m.attn_norms, vec![LayerNorm::new(4), LayerNorm::new(4)]);
    assert_eq!(m.ff_layers, vec![Linear::new(4, 4), Linear::new(4, 4)]);
    assert_eq!(m.ff_norms, vec![LayerNorm::new(4), LayerNorm::new(4)]);
    assert_eq!(m.token_embedding.vocab_size(), 5);
    for row in &m.token_embedding.embeddings {
        assert_eq!(row.value, vec![INIT_WEIGHT; 4]);
        assert_eq!(row.grad, vec![ZERO; 4]);
    }
    assert_eq!(m.attn_norms[0].gamma, vec![ONE; 4]);
    assert_eq!(m.attn_norms[0].epsilon, EPSILON);
}

#[test]
fn a_model_without_blocks_is_only_its_tables() {
    let m = SimpleTransformer::new(&config(0, 0), table());
    assert!(m.attention_layers.is_empty());
    assert!(m.attn_norms.is_empty());
    assert!(m.ff_layers.is_empty());
    assert!(m.ff_norms.is_empty());
    assert_eq!(m.token_embedding.vocab_size(), 0);
}

#[test]
fn the_output_is_as_long_as_the_rows_of_the_input() {
    let m = SimpleTransformer::new(&config(1, 0), table());
    for seq_len in 1..=3 {
        assert_eq!(
            m.forward_shape(seq_len * 4),
            Ok(ForwardShape { seq_len, output_len: seq_len * 4 })
        );
    }
}

#[test]
fn an_input_must_be_whole_rows_that_fit_the_table() {
    let m = SimpleTransformer::new(&config(1, 0), table());
    assert_eq!(m.forward_shape(0), Err(ModelError::InvalidConfig));
    assert_eq!(m.forward_shape(3), Err(ModelError::ShapeMismatch));
    assert_eq!(m.forward_shape(5), Err(ModelError::ShapeMismatch));
    assert_eq!(m.forward_shape(16), Err(ModelError::ShapeMismatch));
    assert_eq!(m.forward_shape(usize::MAX), Err(ModelError::ShapeMismatch));
    let mut flat = SimpleTransformer::new(&config(0, 0), table());
    flat.hidden_size = 0;
    assert_eq!(flat.forward_shape(4), Err(ModelError::InvalidConfig));
}

#[test]
fn tokens_are_pooled_into_one_row() {
    let m = SimpleTransformer::new(&config(1, 5), table());
    assert_eq!(m.forward_tokens_shape(&[4, 0, 2]), Ok(ForwardShape { seq_len: 3, output_len: 4 }));
    assert_eq!(m.forward_tokens_shape(&[1]), Ok(ForwardShape { seq_len: 1, output_len: 4 }));
    assert_eq!(m.forward_tokens_shape(&[]), Err(ModelError::InvalidConfig));
    assert_eq!(m.forward_tokens_shape(&[0, 1, 2, 3]), Err(ModelError::ShapeMismatch));
    assert_eq!(m.forward_tokens_shape(&[0, 5]), Err(ModelError::ShapeMismatch));
}

#[test]
fn the_simulated_backward_pass_fills_what_was_used() {
    let mut m = SimpleTransformer::new(&config(2, 4), table());
    m.backward(&[1, 3]);
    for a in &m.attention_layers {
        for l in [&a.query_proj, &a.key_proj, &a.value_proj, &a.output_proj] {
            assert_eq!(l.weight.grad, vec![DUMMY_GRAD; 16]);
            assert_eq!(l.bias.grad, vec![DUMMY_GRAD; 4]);
            assert_eq!(l.weight.value, vec![INIT_WEIGHT; 16]);
        }
    }
    for f in &m.ff_layers {
        assert_eq!(f.weight.grad, vec![DUMMY_GRAD; 16]);
        assert_eq!(f.bias.grad, vec![DUMMY_GRAD; 4]);
    }
    let grads: Vec<Vec<u32>> = m.token_embedding.embeddings.iter().map(|p| p.grad.clone()).collect();
    assert_eq!(grads, vec![vec![ZERO; 4], vec![DUMMY_GRAD; 4], vec![ZERO; 4], vec![DUMMY_GRAD; 4]]);
    assert_eq!(m.pos_encoding, table());
    assert_eq!(m.attn_norms, vec![LayerNorm::new(4), LayerNorm::new(4)]);
}

#[test]
fn clearing_the_gradients_brings_a_fresh_model_back() {
    let fresh = SimpleTransformer::new(&config(2, 4), table());
    let mut m = fresh.clone();
    m.backward(&[0, 1, 2, 3]);
    assert_ne!(m, fresh);
    m.zero_grad();
    assert_eq!(m, fresh);
}

#[test]
fn a_model_without_width_takes_no_tokens() {
    let mut m = SimpleTransformer::new(&config(0, 3), table());
    m.hidden_size = 0;
    assert_eq!(m.forward_tokens_shape(&[1]), Err(ModelError::InvalidConfig));
}

#[test]
fn a_model_knows_whether_it_is_well_formed() {
    let m = SimpleTransformer::new(&config(2, 3), table());
    assert!(m.is_well_formed());
    assert!(m.matches_config(&config(2, 3)));
    assert!(!m.matches_config(&config(1, 3)));
    assert!(!m.matches_config(&config(2, 4)));
    assert!(!m.matches_config(&ModelConfig { num_heads: 1, ..config(2, 3) }));
    assert!(!m.matches_config(&ModelConfig { max_position_embeddings: 4, ..config(2, 3) }));
    let mut broken = m.clone();
    broken.ff_norms.pop();
    assert!(!broken.is_well_formed());
    let mut broken = m.clone();
    broken.attention_layers[1].head_dim = 4;
    assert!(!broken.is_well_formed());
    let mut broken = m.clone();
    broken.pos_encoding.embeddings[2].push(0);
    assert!(!broken.is_well_formed());
    let mut broken = m.clone();
    broken.token_embedding.embeddings[0].grad.clear();
    assert!(!broken.is_well_formed());
    let mut broken = m.clone();
    broken.ff_layers[0] = Linear::new(4, 3);
    assert!(!broken.is_well_formed());
    let mut broken = m.clone();
    broken.attn_norms[1].beta.push(0);
    assert!(!broken.is_well_formed());
    let mut odd = m.clone();
    odd.ff_norms[0].epsilon = 1e-6f32.to_bits();
    assert!(odd.is_well_formed());
    assert!(!odd.matches_config(&config(2, 3)));
    odd.ff_norms[0].epsilon = 0;
    assert!(!odd.is_well_formed());
}

#[test]
fn a_model_is_not_made_of_what_does_not_fit() {
    assert_eq!(
        SimpleTransformer::try_new(&config(2, 3), table()),
        Ok(SimpleTransformer::new(&config(2, 3), table()))
    );
    let bad = ModelConfig { num_heads: 3, ..config(2, 3) };
    assert_eq!(SimpleTransformer::try_new(&bad, table()), Err(ModelError::InvalidConfig));
    let short = PositionalEncoding { embeddings: vec![vec![1, 2, 3, 4], vec![5, 6, 7, 8]] };
    assert_eq!(SimpleTransformer::try_new(&config(2, 3), short), Err(ModelError::ShapeMismatch));
    let ragged =
        PositionalEncoding { embeddings: vec![vec![1, 2, 3, 4], vec![5, 6, 7], vec![9, 10, 11, 12]] };
    assert_eq!(SimpleTransformer::try_new(&config(2, 3), ragged), Err(ModelError::ShapeMismatch));
    assert_eq!(SimpleTransformer::try_new(&bad, PositionalEncoding { embeddings: vec![] }),
        Err(ModelError::InvalidConfig));
}
