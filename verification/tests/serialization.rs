use mini_transformer::codec::ByteReader;
use mini_transformer::config::ModelConfig;
use mini_transformer::error::ModelError;
use mini_transformer::model::attention::MultiHeadAttention;
use mini_transformer::model::common::Param;
use mini_transformer::model::embedding::TokenEmbedding;
use mini_transformer::model::layernorm::LayerNorm;
use mini_transformer::model::linear::Linear;
use mini_transformer::model::positional::PositionalEncoding;
use mini_transformer::model::transformer::SimpleTransformer;
use mini_transformer::serialization::{
    load_attention, load_embedding, load_layernorm, load_linear, load_model, load_positional,
    load_rows, save_attention, save_embedding, save_layernorm, save_linear, save_model,
    save_positional,
};

fn config(layers: usize, vocab: usize) -> ModelConfig {
    ModelConfig {
        hidden_size: 2,
        num_heads: 1,
        num_layers: layers,
        max_position_embeddings: 2,
        vocab_size: vocab,
        ..ModelConfig::default()
    }
}

fn words(bytes: &[u8]) -> Vec<u32> {
    bytes.chunks(4).map(|c| u32::from_le_bytes([c[0], c[1], c[2], c[3]])).collect()
}

fn bytes(words: &[u32]) -> Vec<u8> {
    words.iter().flat_map(|w| w.to_le_bytes()).collect()
}

fn linear(first: u32) -> Linear {
    Linear {
        weight: Param::from_values((first..first + 4).collect()),
        bias: Param::from_values((first + 4..first + 6).collect()),
        in_features: 2,
        out_features: 2,
    }
}

fn attention(first: u32) -> MultiHeadAttention {
    MultiHeadAttention {
        num_heads: 1,
        head_dim: 2,
        query_proj: linear(first),
        key_proj: linear(first + 6),
        value_proj: linear(first + 12),
        output_proj: linear(first + 18),
    }
}

fn norm(first: u32) -> LayerNorm {
    LayerNorm {
        gamma: vec![first, first + 1],
        beta: vec![first + 2, first + 3],
        epsilon: 1e-5f32.to_bits(),
    }
}

/// A model of two blocks whose stored values are 0, 1, 2, ... in order.
fn counting_model() -> SimpleTransformer {
    SimpleTransformer {
        hidden_size: 2,
        pos_encoding: PositionalEncoding { embeddings: vec![vec![0, 1], vec![2, 3]] },
        attention_layers: vec![attention(4), attention(28)],
        attn_norms: vec![norm(52), norm(56)],
        ff_layers: vec![linear(60), linear(66)],
        ff_norms: vec![norm(72), norm(76)],
        token_embedding: TokenEmbedding {
            embeddings: vec![
                Param::from_values(vec![80, 81]),
                Param::from_values(vec![82, 83]),
                Param::from_values(vec![84, 85]),
            ],
        },
    }
}

#[test]
fn a_linear_layer_is_stored_weights_first() {
    let mut out = vec![0xffu8];
    save_linear(&linear(10), &mut out);
    assert_eq!(out[0], 0xff);
    assert_eq!(words(&out[1..]), vec![10, 11, 12, 13, 14, 15]);
    let mut reader = ByteReader { data: &out, pos: 1 };
    assert_eq!(load_linear(&mut reader, 2, 2), Ok(linear(10)));
    assert_eq!(reader.pos, 25);
}

#[test]
fn a_loaded_layer_has_no_gradient() {
    let mut l = linear(10);
    l.fill_grad(77);
    let mut out = Vec::new();
    save_linear(&l, &mut out);
    let mut reader = ByteReader::new(&out);
    assert_eq!(load_linear(&mut reader, 2, 2), Ok(linear(10)));
}

#[test]
fn a_linear_layer_needs_all_its_bytes() {
    let mut out = Vec::new();
    save_linear(&linear(10), &mut out);
    for cut in 0..out.len() {
        let mut reader = ByteReader::new(&out[..cut]);
        assert_eq!(load_linear(&mut reader, 2, 2), Err(ModelError::CheckpointCorrupt), "{}", cut);
    }
    let mut reader = ByteReader::new(&out);
    assert_eq!(load_linear(&mut reader, 3, 2), Err(ModelError::CheckpointCorrupt));
    let mut reader = ByteReader::new(&out);
    assert_eq!(load_linear(&mut reader, usize::MAX, 2), Err(ModelError::CheckpointCorrupt));
    let mut reader = ByteReader::new(&out);
    let narrow = load_linear(&mut reader, 1, 2).unwrap();
    assert_eq!(narrow.weight.value, vec![10, 11]);
    assert_eq!(narrow.bias.value, vec![12, 13]);
}

#[test]
fn a_normalization_is_stored_scale_first() {
    let mut out = Vec::new();
    save_layernorm(&norm(20), &mut out);
    assert_eq!(words(&out), vec![20, 21, 22, 23]);
    let mut reader = ByteReader::new(&out);
    assert_eq!(load_layernorm(&mut reader, 2), Ok(norm(20)));
    let mut reader = ByteReader::new(&out[..15]);
    assert_eq!(load_layernorm(&mut reader, 2), Err(ModelError::CheckpointCorrupt));
}

#[test]
fn a_positional_table_is_stored_row_by_row() {
    let table = PositionalEncoding { embeddings: vec![vec![1, 2, 3], vec![4, 5, 6]] };
    let mut out = Vec::new();
    save_positional(&table, &mut out);
    assert_eq!(words(&out), vec![1, 2, 3, 4, 5, 6]);
    let mut reader = ByteReader::new(&out);
    assert_eq!(load_positional(&mut reader, 2, 3), Ok(table));
    let mut reader = ByteReader::new(&out);
    assert_eq!(load_rows(&mut reader, 3, 2), Ok(vec![vec![1, 2], vec![3, 4], vec![5, 6]]));
    let mut reader = ByteReader::new(&out);
    assert_eq!(load_positional(&mut reader, 2, 4), Err(ModelError::CheckpointCorrupt));
    assert_eq!(reader.pos, 0);
    let mut reader = ByteReader::new(&out);
    assert_eq!(load_positional(&mut reader, usize::MAX, 2), Err(ModelError::CheckpointCorrupt));
    let mut reader = ByteReader::new(&out);
    assert_eq!(load_rows(&mut reader, 2, 0), Ok(vec![vec![], vec![]]));
    assert_eq!(reader.pos, 0);
}

#[test]
fn an_attention_layer_is_stored_query_key_value_output() {
    let mut out = Vec::new();
    save_attention(&attention(100), &mut out);
    assert_eq!(words(&out), (100..124).collect::<Vec<u32>>());
    let mut reader = ByteReader::new(&out);
    assert_eq!(load_attention(&mut reader, 2, 1), Ok(attention(100)));
    let mut reader = ByteReader::new(&out);
    let two_heads = load_attention(&mut reader, 2, 2).unwrap();
    assert_eq!(two_heads.num_heads, 2);
    assert_eq!(two_heads.head_dim, 1);
    let mut reader = ByteReader::new(&out[..95]);
    assert_eq!(load_attention(&mut reader, 2, 1), Err(ModelError::CheckpointCorrupt));
}

#[test]
fn an_embedding_is_stored_row_by_row() {
    let table = counting_model().token_embedding;
    let mut out = Vec::new();
    save_embedding(&table, &mut out);
    assert_eq!(words(&out), vec![80, 81, 82, 83, 84, 85]);
    let mut reader = ByteReader::new(&out);
    assert_eq!(load_embedding(&mut reader, 3, 2), Ok(table));
    let mut reader = ByteReader::new(&out);
    assert_eq!(load_embedding(&mut reader, 4, 2), Err(ModelError::CheckpointCorrupt));
}

#[test]
fn a_model_is_stored_part_by_part() {
    let mut out = Vec::new();
    save_model(&counting_model(), &mut out);
    assert_eq!(words(&out), (0..86).collect::<Vec<u32>>());
    assert_eq!(config(2, 3).model_word_count(), 86);
}

#[test]
fn a_saved_model_is_loaded_back() {
    let model = counting_model();
    let mut out = vec![1u8, 2, 3];
    save_model(&model, &mut out);
    out.extend_from_slice(&[9, 9]);
    let mut reader = ByteReader { data: &out, pos: 3 };
    assert_eq!(load_model(&mut reader, &config(2, 3)), Ok(model));
    assert_eq!(reader.pos, 3 + 4 * 86);
    assert_eq!(reader.bytes_left(), 2);
}

#[test]
fn loading_clears_the_gradients_and_keeps_the_values() {
    let mut model = counting_model();
    model.backward(&[0, 2]);
    let mut out = Vec::new();
    save_model(&model, &mut out);
    let mut reader = ByteReader::new(&out);
    let loaded = load_model(&mut reader, &config(2, 3)).unwrap();
    assert_ne!(loaded, model);
    model.zero_grad();
    assert_eq!(loaded, model);
}

#[test]
fn a_truncated_model_is_corrupt() {
    let mut out = Vec::new();
    save_model(&counting_model(), &mut out);
    for cut in [0, 1, 4, 100, out.len() - 4, out.len() - 1] {
        let mut reader = ByteReader::new(&out[..cut]);
        assert_eq!(
            load_model(&mut reader, &config(2, 3)),
            Err(ModelError::CheckpointCorrupt),
            "{}",
            cut
        );
        assert_eq!(reader.pos, 0);
    }
    let mut reader = ByteReader::new(&out);
    assert_eq!(load_model(&mut reader, &config(3, 3)), Err(ModelError::CheckpointCorrupt));
}

#[test]
fn a_model_is_not_loaded_under_an_invalid_configuration() {
    let mut out = Vec::new();
    save_model(&counting_model(), &mut out);
    let bad = ModelConfig { num_heads: 0, ..config(2, 3) };
    let mut reader = ByteReader::new(&out);
    assert_eq!(load_model(&mut reader, &bad), Err(ModelError::InvalidConfig));
    let bad = ModelConfig { hidden_size: 3, num_heads: 2, ..config(2, 3) };
    let mut reader = ByteReader::new(&out);
    assert_eq!(load_model(&mut reader, &bad), Err(ModelError::InvalidConfig));
    let bad = ModelConfig { vocab_size: usize::MAX, ..config(2, 3) };
    let mut reader = ByteReader::new(&out);
    assert_eq!(load_model(&mut reader, &bad), Err(ModelError::InvalidConfig));
    assert_eq!(reader.pos, 0);
}

#[test]
fn any_bytes_of_the_right_length_make_a_model_of_the_right_shape() {
    let stored: Vec<u32> = (0..86).map(|w| w * 0x0101_0101 + 7).collect();
    let data = bytes(&stored);
    let mut reader = ByteReader::new(&data);
    let model = load_model(&mut reader, &config(2, 3)).unwrap();
    assert_eq!(model.attention_layers.len(), 2);
    assert!(model.attention_layers.iter().all(|a| a.is_well_formed()));
    assert!(model.ff_layers.iter().all(|f| f.is_well_formed()));
    let mut out = Vec::new();
    save_model(&model, &mut out);
    assert_eq!(out, data);
}

#[test]
fn floats_survive_bit_for_bit() {
    let values = [0.5f32, -0.0, f32::NAN, f32::INFINITY, 1e-40, 3.4e38, -7.25, 0.1];
    let mut model = SimpleTransformer::new(
        &config(0, 0),
        PositionalEncoding { embeddings: vec![vec![0, 0], vec![0, 0]] },
    );
    model.pos_encoding.embeddings = vec![
        vec![values[0].to_bits(), values[1].to_bits()],
        vec![values[2].to_bits(), values[3].to_bits()],
    ];
    let mut out = Vec::new();
    save_model(&model, &mut out);
    let want: Vec<u8> = values[..4].iter().flat_map(|x| x.to_le_bytes()).collect();
    assert_eq!(out, want);
    let mut reader = ByteReader::new(&out);
    let loaded = load_model(&mut reader, &config(0, 0)).unwrap();
    assert_eq!(loaded.pos_encoding, model.pos_encoding);
}

#[test]
fn a_failed_read_leaves_the_reader_where_it_was() {
    let mut out = vec![0u8; 3];
    save_attention(&attention(100), &mut out);
    let short = &out[..out.len() - 1];
    let mut reader = ByteReader { data: short, pos: 3 };
    assert_eq!(load_attention(&mut reader, 2, 1), Err(ModelError::CheckpointCorrupt));
    assert_eq!(reader.pos, 3);
    assert_eq!(load_linear(&mut reader, 2, 11), Err(ModelError::CheckpointCorrupt));
    assert_eq!(reader.pos, 3);
    assert_eq!(load_linear(&mut reader, 5, 4), Err(ModelError::CheckpointCorrupt));
    assert_eq!(reader.pos, 3);
    assert_eq!(load_layernorm(&mut reader, 12), Err(ModelError::CheckpointCorrupt));
    assert_eq!(reader.pos, 3);
    assert_eq!(load_layernorm(&mut reader, usize::MAX), Err(ModelError::CheckpointCorrupt));
    assert_eq!(load_embedding(&mut reader, 6, 4), Err(ModelError::CheckpointCorrupt));
    assert_eq!(load_rows(&mut reader, 24, 1), Err(ModelError::CheckpointCorrupt));
    assert_eq!(load_attention(&mut reader, usize::MAX, 1), Err(ModelError::CheckpointCorrupt));
    assert_eq!(reader.pos, 3);
    assert!(reader.holds(23));
    assert!(!reader.holds(24));
    assert_eq!(load_linear(&mut reader, 4, 3).map(|l| l.bias.value), Ok(vec![112, 113, 114]));
    assert_eq!(reader.pos, 3 + 4 * 15);
}
