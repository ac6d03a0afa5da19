//! The ways in which a model operation can be refused.

use vstd::prelude::*;

verus! {

/// Why a layer, a model or a checkpoint was refused.
#[derive(Debug, Clone, Copy, PartialEq, Eq)]
pub enum ModelError {
    /// An input's length does not match the dimension a layer expects.
    ShapeMismatch,
    /// The configuration cannot describe a model, or a sequence is empty.
    InvalidConfig,
    /// Checkpoint bytes are truncated or otherwise malformed.
    CheckpointCorrupt,
}

} // verus!
