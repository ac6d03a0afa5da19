//! The one configuration a model is built from, saved against and loaded
//! with.

use vstd::prelude::*;
use crate::bits::DEFAULT_DROPOUT;
use crate::error::ModelError;

verus! {

/// Every recognized option of a model.
#[derive(Debug, Clone, PartialEq, Eq)]
pub struct ModelConfig {
    /// Width of a token row.
    pub hidden_size: usize,
    /// Number of attention heads; must divide `hidden_size`.
    pub num_heads: usize,
    /// Number of attention and feed-forward blocks.
    pub num_layers: usize,
    /// Longest sequence the positional table covers.
    pub max_position_embeddings: usize,
    /// Number of rows of the token embedding table; `0` for a model that is
    /// fed feature rows directly.
    pub vocab_size: usize,
    /// Width of the hidden layer of a feed-forward block.
    pub ff_hidden_size: usize,
    /// Dropout rate, as the bit pattern of a single-precision number.
    pub dropout: u32,
    /// Whether input and output embeddings share their weights.
    pub weight_sharing: bool,
    /// Whether normalization comes before the residual connection.
    pub pre_layer_norm: bool,
    /// Whether the positional table is learned rather than sinusoidal.
    pub learned_positional_encoding: bool,
    /// Whether linear layers are quantized.
    pub use_quantization: bool,
    /// Seed of the random initial values, if fixed.
    pub seed: Option<u64>,
}

/// The application's configuration.
#[derive(Debug, Clone, PartialEq, Eq)]
pub struct AppConfig {
    pub model_config: ModelConfig,
}

/// The number of values of a linear layer from `inputs` to `outputs`
/// features: the weight matrix and the bias.
pub open spec fn linear_word_count(inputs: nat, outputs: nat) -> nat {
    inputs * outputs + outputs
}

/// The number of values of one block: four attention projections, the
/// attention normalization, the feed-forward layer and its normalization.
pub open spec fn layer_word_count(hidden: nat) -> nat {
    5 * linear_word_count(hidden, hidden) + 4 * hidden
}

impl ModelConfig {
    /// The number of values a model of this configuration stores.
    pub open spec fn word_count(&self) -> nat {
        self.max_position_embeddings as nat * self.hidden_size as nat + self.num_layers as nat
            * layer_word_count(self.hidden_size as nat) + self.vocab_size as nat
            * self.hidden_size as nat
    }

    /// The length in bytes of the stored form of such a model: four bytes
    /// for each value.
    pub open spec fn model_len(&self) -> nat {
        4 * self.word_count()
    }

    /// The configuration describes a model: the width is positive, the
    /// heads divide it evenly, and a checkpoint of the model (its stored
    /// form and two counters of eight bytes) has a length that fits the
    /// machine.
    pub open spec fn valid(&self) -> bool {
        &&& self.hidden_size > 0
        &&& self.num_heads > 0
        &&& self.hidden_size % self.num_heads == 0
        &&& self.model_len() + 16 <= usize::MAX
    }

    /// Accepts a configuration that describes a model and refuses any other
    /// as invalid.
    pub fn validate(&self) -> (r: Result<(), ModelError>)
        ensures
            self.valid() ==> r == Ok::<(), ModelError>(()),
            !self.valid() ==> r == Err::<(), ModelError>(ModelError::InvalidConfig),
    {
        if self.hidden_size == 0 || self.num_heads == 0 || self.hidden_size % self.num_heads != 0 {
            return Err(ModelError::InvalidConfig);
        }
        match self.checked_word_count() {
            Some(count) => {
                if count <= (usize::MAX - 16) / 4 {
                    Ok(())
                } else {
                    Err(ModelError::InvalidConfig)
                }
            },
            None => Err(ModelError::InvalidConfig),
        }
    }

    /// The number of values the model stores, if that number fits the
    /// machine.
    pub fn checked_word_count(&self) -> (r: Option<usize>)
        ensures
            self.word_count() <= usize::MAX ==> r == Some(self.word_count() as usize),
            self.word_count() > usize::MAX ==> r is None,
    {
        let h = self.hidden_size;
        let ghost hn = h as nat;
        let ghost n = self.num_layers as nat;
        let ghost layer = layer_word_count(hn);
        let ghost positions = self.max_position_embeddings as nat * hn;
        let ghost blocks = n * layer;
        let ghost table = self.vocab_size as nat * hn;
        assert(0 <= positions && 0 <= blocks && 0 <= table) by (nonlinear_arith)
            requires
                positions == self.max_position_embeddings as nat * hn,
                blocks == n * layer,
                table == self.vocab_size as nat * hn,
        ;
        let positions_x = match self.max_position_embeddings.checked_mul(h) {
            Some(x) => x,
            None => {
                return None;
            },
        };
        let table_x = match self.vocab_size.checked_mul(h) {
            Some(x) => x,
            None => {
                return None;
            },
        };
        let layer_x = if self.num_layers == 0 {
            assert(blocks == 0) by (nonlinear_arith)
                requires
                    blocks == n * layer,
                    n == 0,
            ;
            0
        } else {
            assert(blocks >= layer) by (nonlinear_arith)
                requires
                    blocks == n * layer,
                    n >= 1,
            ;
            let square = match h.checked_mul(h) {
                Some(x) => x,
                None => {
                    return None;
                },
            };
            let linear = match square.checked_add(h) {
                Some(x) => x,
                None => {
                    return None;
                },
            };
            let five = match linear.checked_mul(5) {
                Some(x) => x,
                None => {
                    return None;
                },
            };
            let four = match h.checked_mul(4) {
                Some(x) => x,
                None => {
                    return None;
                },
            };
            match five.checked_add(four) {
                Some(x) => x,
                None => {
                    return None;
                },
            }
        };
        let blocks_x = match self.num_layers.checked_mul(layer_x) {
            Some(x) => x,
            None => {
                return None;
            },
        };
        let partial = match positions_x.checked_add(blocks_x) {
            Some(x) => x,
            None => {
                return None;
            },
        };
        partial.checked_add(table_x)
    }

    /// The number of values the model stores.
    pub fn model_word_count(&self) -> (count: usize)
        requires
            self.valid(),
        ensures
            count == self.word_count(),
            4 * count + 16 <= usize::MAX,
    {
        match self.checked_word_count() {
            Some(count) => count,
            None => 0,
        }
    }
}

impl Default for ModelConfig {
    /// A model of four blocks over rows of 128 features in eight heads,
    /// for sequences of up to 128 tokens out of a vocabulary of 10000.
    fn default() -> (c: Self)
        ensures
            c.hidden_size == 128,
            c.num_heads == 8,
            c.num_layers == 4,
            c.max_position_embeddings == 128,
            c.vocab_size == 10000,
            c.ff_hidden_size == 512,
            c.dropout == DEFAULT_DROPOUT,
            !c.weight_sharing,
            c.pre_layer_norm,
            !c.learned_positional_encoding,
            !c.use_quantization,
            c.seed == Some(42u64),
    {
        ModelConfig {
            hidden_size: 128,
            num_heads: 8,
            num_layers: 4,
            max_position_embeddings: 128,
            vocab_size: 10000,
            ff_hidden_size: 512,
            dropout: DEFAULT_DROPOUT,
            weight_sharing: false,
            pre_layer_norm: true,
            learned_positional_encoding: false,
            use_quantization: false,
            seed: Some(42),
        }
    }
}

} // verus!
