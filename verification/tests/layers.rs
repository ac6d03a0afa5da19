use mini_transformer::bits::{
    fill, filled, is_positive, DUMMY_GRAD, EPSILON, INIT_WEIGHT, ONE, ZERO,
};
use mini_transformer::error::ModelError;
use mini_transformer::model::attention::MultiHeadAttention;
use mini_transformer::model::common::Param;
use mini_transformer::model::embedding::TokenEmbedding;
use mini_transformer::model::layernorm::LayerNorm;
use mini_transformer::model::linear::Linear;
use mini_transformer::model::positional::PositionalEncoding;

#[test]
fn the_constants_are_the_bits_of_their_floats() {
    assert_eq!(ZERO, 0.0f32.to_bits());
    assert_eq!(ONE, 1.0f32.to_bits());
    assert_eq!(INIT_WEIGHT, 0.01f32.to_bits());
    assert_eq!(DUMMY_GRAD, 0.001f32.to_bits());
    assert_eq!(EPSILON, 1e-5f32.to_bits());
    assert!(f32::from_bits(EPSILON) > 0.0);
}

#[test]
fn filling_keeps_the_length() {
    assert_eq!(filled(7, 3), vec![7, 7, 7]);
    assert_eq!(filled(7, 0), Vec::<u32>::new());
    let mut v = vec![1, 2, 3, 4];
    fill(&mut v, 9);
    assert_eq!(v, vec![9, 9, 9, 9]);
}

#[test]
fn a_new_parameter_holds_small_values_and_no_gradient() {
    let p = Param::new(3);
    assert_eq!(p.value, vec![INIT_WEIGHT; 3]);
    assert_eq!(p.grad, vec![ZERO; 3]);
    let p = Param::new(0);
    assert!(p.value.is_empty() && p.grad.is_empty());
    let p = Param::from_values(vec![5, 6]);
    assert_eq!(p.value, vec![5, 6]);
    assert_eq!(p.grad, vec![0, 0]);
}

#[test]
fn clearing_a_gradient_keeps_the_values() {
    let mut p = Param { value: vec![1, 2, 3], grad: vec![4, 5, 6] };
    p.zero_grad();
    assert_eq!(p, Param { value: vec![1, 2, 3], grad: vec![0, 0, 0] });
    p.fill_grad(DUMMY_GRAD);
    assert_eq!(p, Param { value: vec![1, 2, 3], grad: vec![DUMMY_GRAD; 3] });
}

#[test]
fn a_new_linear_layer_has_a_weight_for_each_pair() {
    let l = Linear::new(3, 2);
    assert_eq!(l.in_features, 3);
    assert_eq!(l.out_features, 2);
    assert_eq!(l.weight.value, vec![INIT_WEIGHT; 6]);
    assert_eq!(l.weight.grad, vec![ZERO; 6]);
    assert_eq!(l.bias.value, vec![INIT_WEIGHT; 2]);
    assert_eq!(l.bias.grad, vec![ZERO; 2]);
    assert!(l.is_well_formed());
}

#[test]
fn weights_are_stored_row_by_row() {
    let l = Linear::new(3, 2);
    assert_eq!(l.weight_index(0, 0), 0);
    assert_eq!(l.weight_index(0, 2), 2);
    assert_eq!(l.weight_index(1, 0), 3);
    assert_eq!(l.weight_index(1, 2), 5);
}

#[test]
fn a_linear_layer_takes_inputs_of_its_width_only() {
    let l = Linear::new(3, 2);
    assert_eq!(l.output_len(3), Ok(2));
    assert_eq!(l.output_len(2), Err(ModelError::ShapeMismatch));
    assert_eq!(l.output_len(4), Err(ModelError::ShapeMismatch));
    assert_eq!(l.output_len(0), Err(ModelError::ShapeMismatch));
}

#[test]
fn a_malformed_linear_layer_is_recognized() {
    let mut l = Linear::new(3, 2);
    l.weight.value.pop();
    assert!(!l.is_well_formed());
    let mut l = Linear::new(3, 2);
    l.bias.grad.push(0);
    assert!(!l.is_well_formed());
    let mut l = Linear::new(3, 2);
    l.in_features = usize::MAX;
    assert!(!l.is_well_formed());
    let mut l = Linear::new(0, 0);
    assert!(l.is_well_formed());
    l.out_features = 1;
    assert!(!l.is_well_formed());
}

#[test]
fn gradients_of_a_linear_layer_are_set_together() {
    let mut l = Linear::new(2, 2);
    l.weight.value = vec![1, 2, 3, 4];
    l.fill_grad(DUMMY_GRAD);
    assert_eq!(l.weight.grad, vec![DUMMY_GRAD; 4]);
    assert_eq!(l.bias.grad, vec![DUMMY_GRAD; 2]);
    assert_eq!(l.weight.value, vec![1, 2, 3, 4]);
    l.zero_grad();
    assert_eq!(l.weight.grad, vec![ZERO; 4]);
    assert_eq!(l.bias.grad, vec![ZERO; 2]);
    assert_eq!(l.weight.value, vec![1, 2, 3, 4]);
    assert_eq!(l.bias.value, vec![INIT_WEIGHT; 2]);
}

#[test]
fn a_new_normalization_is_the_identity_scale() {
    let n = LayerNorm::new(4);
    assert_eq!(n.gamma, vec![ONE; 4]);
    assert_eq!(n.beta, vec![ZERO; 4]);
    assert_eq!(n.epsilon, EPSILON);
    assert_eq!(n.dim(), 4);
    assert_eq!(n.output_len(4), Ok(4));
    assert_eq!(n.output_len(3), Err(ModelError::ShapeMismatch));
    assert_eq!(n.output_len(8), Err(ModelError::ShapeMismatch));
}

#[test]
fn a_positional_table_must_be_rectangular() {
    let table = PositionalEncoding::from_rows(vec![vec![1, 2], vec![3, 4], vec![5, 6]], 2).unwrap();
    assert_eq!(table.embeddings, vec![vec![1, 2], vec![3, 4], vec![5, 6]]);
    assert_eq!(table.max_position(), 3);
    assert_eq!(
        PositionalEncoding::from_rows(vec![vec![1, 2], vec![3]], 2),
        Err(ModelError::ShapeMismatch)
    );
    assert_eq!(PositionalEncoding::from_rows(vec![vec![1, 2]], 3), Err(ModelError::ShapeMismatch));
    assert_eq!(PositionalEncoding::from_rows(vec![], 3).unwrap().max_position(), 0);
}

#[test]
fn the_encoding_of_a_sequence_is_the_head_of_the_table() {
    let table = PositionalEncoding { embeddings: vec![vec![1, 2], vec![3, 4], vec![5, 6]] };
    assert_eq!(table.get_encoding(0), &[] as &[Vec<u32>]);
    assert_eq!(table.get_encoding(2), &[vec![1, 2], vec![3, 4]][..]);
    assert_eq!(table.get_encoding(3), &table.embeddings[..]);
}

#[test]
fn sequences_must_fit_the_table() {
    let table = PositionalEncoding { embeddings: vec![vec![1, 2], vec![3, 4], vec![5, 6]] };
    assert_eq!(table.check_sequence(0), Ok(()));
    assert_eq!(table.check_sequence(1), Ok(()));
    assert_eq!(table.check_sequence(3), Ok(()));
    assert_eq!(table.check_sequence(4), Err(ModelError::ShapeMismatch));
}

#[test]
fn sinusoid_features_come_in_pairs() {
    let want = [(0, true), (0, false), (2, true), (2, false), (4, true), (4, false), (6, true)];
    for (i, (frequency, sine)) in want.iter().enumerate() {
        assert_eq!(PositionalEncoding::frequency_index(i), *frequency);
        assert_eq!(PositionalEncoding::uses_sine(i), *sine);
    }
    assert_eq!(PositionalEncoding::frequency_index(usize::MAX), usize::MAX - 1);
    assert!(!PositionalEncoding::uses_sine(usize::MAX));
}

#[test]
fn a_new_attention_layer_splits_the_width_into_heads() {
    let a = MultiHeadAttention::new(4, 2);
    assert_eq!(a.num_heads, 2);
    assert_eq!(a.head_dim, 2);
    for l in [&a.query_proj, &a.key_proj, &a.value_proj, &a.output_proj] {
        assert_eq!(*l, Linear::new(4, 4));
    }
    assert!(a.is_well_formed());
    let a = MultiHeadAttention::new(6, 1);
    assert_eq!(a.head_dim, 6);
    assert!(a.is_well_formed());
}

#[test]
fn an_attention_layer_needs_heads_that_divide_the_width() {
    assert_eq!(MultiHeadAttention::try_new(4, 2), Ok(MultiHeadAttention::new(4, 2)));
    assert_eq!(MultiHeadAttention::try_new(0, 3), Ok(MultiHeadAttention::new(0, 3)));
    assert_eq!(MultiHeadAttention::try_new(4, 0), Err(ModelError::InvalidConfig));
    assert_eq!(MultiHeadAttention::try_new(4, 3), Err(ModelError::InvalidConfig));
    assert_eq!(MultiHeadAttention::try_new(usize::MAX, 1), Err(ModelError::InvalidConfig));
}

#[test]
fn a_malformed_attention_layer_is_recognized() {
    let mut a = MultiHeadAttention::new(4, 2);
    a.head_dim = 3;
    assert!(!a.is_well_formed());
    let mut a = MultiHeadAttention::new(4, 2);
    a.num_heads = 0;
    assert!(!a.is_well_formed());
    let mut a = MultiHeadAttention::new(4, 2);
    a.key_proj = Linear::new(4, 3);
    assert!(!a.is_well_formed());
    let mut a = MultiHeadAttention::new(4, 2);
    a.num_heads = usize::MAX;
    assert!(!a.is_well_formed());
}

#[test]
fn attention_returns_as_many_numbers_as_it_gets() {
    let a = MultiHeadAttention::new(4, 2);
    assert_eq!(a.output_len(12, 3), Ok(12));
    assert_eq!(a.output_len(4, 1), Ok(4));
    assert_eq!(a.output_len(12, 0), Err(ModelError::InvalidConfig));
    assert_eq!(a.output_len(0, 0), Err(ModelError::InvalidConfig));
    assert_eq!(a.output_len(12, 2), Err(ModelError::ShapeMismatch));
    assert_eq!(a.output_len(11, 3), Err(ModelError::ShapeMismatch));
    assert_eq!(a.output_len(12, usize::MAX), Err(ModelError::ShapeMismatch));
}

#[test]
fn the_causal_mask_hides_later_positions() {
    for i in 0..4 {
        for j in 0..4 {
            assert_eq!(MultiHeadAttention::is_masked(i, j, true), j > i);
            assert!(!MultiHeadAttention::is_masked(i, j, false));
        }
    }
}

#[test]
fn gradients_of_an_attention_layer_are_set_together() {
    let mut a = MultiHeadAttention::new(2, 1);
    a.value_proj.weight.value = vec![9, 8, 7, 6];
    a.fill_dummy_grads();
    for l in [&a.query_proj, &a.key_proj, &a.value_proj, &a.output_proj] {
        assert_eq!(l.weight.grad, vec![DUMMY_GRAD; 4]);
        assert_eq!(l.bias.grad, vec![DUMMY_GRAD; 2]);
    }
    assert_eq!(a.value_proj.weight.value, vec![9, 8, 7, 6]);
    a.zero_grad();
    for l in [&a.query_proj, &a.key_proj, &a.value_proj, &a.output_proj] {
        assert_eq!(l.weight.grad, vec![ZERO; 4]);
        assert_eq!(l.bias.grad, vec![ZERO; 2]);
    }
    assert_eq!(a.value_proj.weight.value, vec![9, 8, 7, 6]);
    a.fill_grad(5);
    assert_eq!(a.output_proj.bias.grad, vec![5, 5]);
}

#[test]
fn tokens_are_looked_up_in_order() {
    let mut e = TokenEmbedding::new(3, 2);
    assert_eq!(e.vocab_size(), 3);
    assert_eq!(e.embeddings, vec![Param::new(2), Param::new(2), Param::new(2)]);
    e.embeddings[0].value = vec![1, 2];
    e.embeddings[1].value = vec![3, 4];
    e.embeddings[2].value = vec![5, 6];
    assert_eq!(e.forward(&[2, 0, 2, 1]), vec![vec![5, 6], vec![1, 2], vec![5, 6], vec![3, 4]]);
    assert_eq!(e.forward(&[]), Vec::<Vec<u32>>::new());
    assert!(e.covers(&[0, 1, 2]));
    assert!(e.covers(&[]));
    assert!(!e.covers(&[0, 3]));
}

#[test]
fn only_the_rows_of_the_given_tokens_get_a_gradient() {
    let mut e = TokenEmbedding::new(4, 2);
    e.fill_dummy_grads(&[3, 1, 3]);
    assert_eq!(e.embeddings[0].grad, vec![ZERO; 2]);
    assert_eq!(e.embeddings[1].grad, vec![DUMMY_GRAD; 2]);
    assert_eq!(e.embeddings[2].grad, vec![ZERO; 2]);
    assert_eq!(e.embeddings[3].grad, vec![DUMMY_GRAD; 2]);
    for row in &e.embeddings {
        assert_eq!(row.value, vec![INIT_WEIGHT; 2]);
    }
    e.zero_grad();
    for row in &e.embeddings {
        assert_eq!(row.grad, vec![ZERO; 2]);
        assert_eq!(row.value, vec![INIT_WEIGHT; 2]);
    }
}

#[test]
fn positive_bit_patterns_are_those_of_positive_numbers() {
    let samples = [
        0.0f32,
        -0.0,
        1.0,
        -1.0,
        1e-5,
        f32::MIN_POSITIVE,
        1e-45,
        f32::MAX,
        f32::MIN,
        f32::INFINITY,
        f32::NEG_INFINITY,
        f32::NAN,
        -f32::NAN,
    ];
    for x in samples {
        assert_eq!(is_positive(x.to_bits()), x > 0.0, "{}", x);
    }
    for w in (0..=u32::MAX).step_by(65_521) {
        assert_eq!(is_positive(w), f32::from_bits(w) > 0.0, "{:#x}", w);
    }
}

#[test]
fn a_normalization_needs_a_positive_offset() {
    let mut n = LayerNorm::new(4);
    assert!(n.is_well_formed(4));
    assert!(!n.is_well_formed(3));
    n.epsilon = ZERO;
    assert!(!n.is_well_formed(4));
    n.epsilon = (-1e-5f32).to_bits();
    assert!(!n.is_well_formed(4));
    n.epsilon = f32::NAN.to_bits();
    assert!(!n.is_well_formed(4));
    n.epsilon = EPSILON;
    n.beta.pop();
    assert!(!n.is_well_formed(4));
}
