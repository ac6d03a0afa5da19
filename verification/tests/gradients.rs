use mini_transformer::bits::{DUMMY_GRAD, ZERO};
use mini_transformer::config::ModelConfig;
use mini_transformer::error::ModelError;
use mini_transformer::model::common::Param;
use mini_transformer::model::positional::PositionalEncoding;
use mini_transformer::model::transformer::SimpleTransformer;
use mini_transformer::serialization::save_model;

fn model(layers: usize, vocab: usize) -> SimpleTransformer {
    let config = ModelConfig {
        hidden_size: 2,
        num_heads: 1,
        num_layers: layers,
        max_position_embeddings: 1,
        vocab_size: vocab,
        ..ModelConfig::default()
    };
    SimpleTransformer::new(&config, PositionalEncoding { embeddings: vec![vec![7, 8]] })
}

/// The number of gradients of a model of two-wide rows: two for each
/// embedding row, four projections of six in each attention layer, six in
/// each feed-forward layer.
fn count(layers: usize, vocab: usize) -> usize {
    2 * vocab + layers * (4 * 6 + 6)
}

#[test]
fn a_fresh_model_has_only_cleared_gradients() {
    let m = model(2, 3);
    assert_eq!(m.gradient_count(), Some(count(2, 3)));
    assert_eq!(m.gradients(), vec![ZERO; 66]);
    assert_eq!(model(0, 0).gradients(), Vec::<u32>::new());
    assert_eq!(model(0, 0).gradient_count(), Some(0));
}

#[test]
fn gradients_are_set_in_the_order_in_which_they_are_read() {
    let mut m = model(2, 3);
    let run: Vec<u32> = (100..166).collect();
    assert_eq!(m.set_gradients(&run), Ok(()));
    assert_eq!(m.gradients(), run);
    assert_eq!(m.token_embedding.embeddings[0].grad, vec![100, 101]);
    assert_eq!(m.token_embedding.embeddings[2].grad, vec![104, 105]);
    let first = &m.attention_layers[0];
    assert_eq!(first.query_proj.weight.grad, vec![106, 107, 108, 109]);
    assert_eq!(first.query_proj.bias.grad, vec![110, 111]);
    assert_eq!(first.key_proj.weight.grad, vec![112, 113, 114, 115]);
    assert_eq!(first.value_proj.bias.grad, vec![122, 123]);
    assert_eq!(first.output_proj.weight.grad, vec![124, 125, 126, 127]);
    assert_eq!(first.output_proj.bias.grad, vec![128, 129]);
    assert_eq!(m.attention_layers[1].query_proj.weight.grad, vec![130, 131, 132, 133]);
    assert_eq!(m.ff_layers[0].weight.grad, vec![154, 155, 156, 157]);
    assert_eq!(m.ff_layers[0].bias.grad, vec![158, 159]);
    assert_eq!(m.ff_layers[1].bias.grad, vec![164, 165]);
}

#[test]
fn setting_gradients_leaves_the_values_alone() {
    let fresh = model(2, 3);
    let mut m = fresh.clone();
    let run: Vec<u32> = (100..166).collect();
    m.set_gradients(&run).unwrap();
    let mut before = Vec::new();
    save_model(&fresh, &mut before);
    let mut after = Vec::new();
    save_model(&m, &mut after);
    assert_eq!(after, before);
    m.zero_grad();
    assert_eq!(m, fresh);
}

#[test]
fn a_run_of_another_length_is_refused() {
    let fresh = model(2, 3);
    for len in [0, 1, 65, 67, 200] {
        let mut m = fresh.clone();
        assert_eq!(m.set_gradients(&vec![9; len]), Err(ModelError::ShapeMismatch));
        assert_eq!(m, fresh);
    }
}

#[test]
fn the_gradients_of_a_model_can_be_set_again() {
    let mut m = model(1, 4);
    m.backward(&[1, 3]);
    let run = m.gradients();
    let mut want = vec![ZERO, ZERO, DUMMY_GRAD, DUMMY_GRAD, ZERO, ZERO, DUMMY_GRAD, DUMMY_GRAD];
    want.extend(vec![DUMMY_GRAD; 30]);
    assert_eq!(run, want);
    let before = m.clone();
    assert_eq!(m.set_gradients(&run), Ok(()));
    assert_eq!(m, before);
}

#[test]
fn buffers_of_any_length_keep_their_length() {
    let mut m = model(1, 2);
    m.token_embedding.embeddings[1] = Param { value: vec![1, 2], grad: vec![0; 5] };
    m.ff_layers[0].bias.grad = Vec::new();
    assert_eq!(m.gradient_count(), Some(2 + 5 + 24 + 4));
    let run: Vec<u32> = (0..35).collect();
    assert_eq!(m.set_gradients(&run), Ok(()));
    assert_eq!(m.token_embedding.embeddings[1].grad, vec![2, 3, 4, 5, 6]);
    assert_eq!(m.ff_layers[0].weight.grad, vec![31, 32, 33, 34]);
    assert_eq!(m.ff_layers[0].bias.grad, Vec::<u32>::new());
    assert_eq!(m.gradients(), run);
}
