//! Checkpoints: a model together with the epoch and step it was saved at,
//! as one run of bytes.
//!
//! A checkpoint is the stored form of the model followed by the epoch and
//! the step, each as eight little-endian bytes. Nothing else is stored:
//! the configuration of the model is named again when the checkpoint is
//! loaded.

use vstd::prelude::*;
use crate::codec::{
    lemma_stored_word, read_word, word_at, word_bytes, words_bytes, write_word, ByteReader,
};
use crate::config::ModelConfig;
use crate::error::ModelError;
use crate::model::transformer::{SimpleTransformer, TransformerView};
use crate::round_trip::lemma_model_round_trip;
use crate::serialization::{load_model, model_at, save_model};

verus! {

/// A model and the point of training it was saved at.
#[derive(Debug, Clone, PartialEq, Eq)]
pub struct Checkpoint {
    pub model: SimpleTransformer,
    pub epoch: usize,
    pub step: usize,
}

/// What a [`Checkpoint`] holds.
pub ghost struct CheckpointView {
    pub model: TransformerView,
    pub epoch: nat,
    pub step: nat,
}

impl View for Checkpoint {
    type V = CheckpointView;

    open spec fn view(&self) -> CheckpointView {
        CheckpointView { model: self.model@, epoch: self.epoch as nat, step: self.step as nat }
    }
}

/// The eight bytes of a counter, least significant first.
pub open spec fn counter_bytes(x: u64) -> Seq<u8> {
    word_bytes((x % 0x1_0000_0000) as u32) + word_bytes((x / 0x1_0000_0000) as u32)
}

/// The counter whose eight bytes, least significant first, stand at `at`.
pub open spec fn counter_at(data: Seq<u8>, at: int) -> nat {
    (word_at(data, at) + 0x1_0000_0000 * word_at(data, at + 4)) as nat
}

/// The bytes of a checkpoint: the stored model, the epoch, the step.
pub open spec fn checkpoint_bytes(model: TransformerView, epoch: usize, step: usize) -> Seq<u8> {
    words_bytes(model.words()) + counter_bytes(epoch as u64) + counter_bytes(step as u64)
}

/// What `data` holds when read as a checkpoint of a model of configuration
/// `config`. A configuration that describes no model is invalid. The bytes
/// are corrupt unless they are exactly as long as the model and two
/// counters, and both counters fit the machine.
pub open spec fn decode_checkpoint(data: Seq<u8>, config: ModelConfig) -> Result<
    CheckpointView,
    ModelError,
> {
    let at = config.model_len() as int;
    if !config.valid() {
        Err(ModelError::InvalidConfig)
    } else if data.len() != at + 16 || counter_at(data, at) > usize::MAX || counter_at(
        data,
        at + 8,
    ) > usize::MAX {
        Err(ModelError::CheckpointCorrupt)
    } else {
        Ok(
            CheckpointView {
                model: model_at(data, 0, config),
                epoch: counter_at(data, at),
                step: counter_at(data, at + 8),
            },
        )
    }
}

/// Appends the eight bytes of `x` to `writer`.
fn write_counter(x: u64, writer: &mut Vec<u8>)
    ensures
        final(writer)@ == old(writer)@ + counter_bytes(x),
{
    write_word((x % 0x1_0000_0000) as u32, writer);
    write_word((x / 0x1_0000_0000) as u32, writer);
}

/// Reads a counter of eight bytes, which must be left.
fn read_counter(reader: &mut ByteReader) -> (r: Result<u64, ModelError>)
    requires
        old(reader).wf(),
        old(reader).remaining() >= 8,
    ensures
        final(reader).wf(),
        final(reader).data@ == old(reader).data@,
        final(reader).pos == old(reader).pos + 8,
        r == Ok::<u64, ModelError>(counter_at(old(reader).data@, old(reader).pos as int) as u64),
{
    let low = match read_word(reader) {
        Ok(w) => w,
        Err(e) => {
            return Err(e);
        },
    };
    let high = match read_word(reader) {
        Ok(w) => w,
        Err(e) => {
            return Err(e);
        },
    };
    Ok(low as u64 + 0x1_0000_0000 * (high as u64))
}

/// The bytes of a checkpoint of `model` at the given epoch and step.
pub fn save_checkpoint(model: &SimpleTransformer, epoch: usize, step: usize) -> (bytes: Vec<u8>)
    ensures
        bytes@ == checkpoint_bytes(model@, epoch, step),
{
    let mut bytes: Vec<u8> = Vec::new();
    save_model(model, &mut bytes);
    write_counter(epoch as u64, &mut bytes);
    write_counter(step as u64, &mut bytes);
    bytes
}

/// Reads a checkpoint of a model of configuration `config`. Truncated
/// bytes, bytes with anything behind the checkpoint, and counters too
/// large for the machine are all corrupt; no partly read model is ever
/// handed out.
pub fn load_checkpoint(bytes: &[u8], config: &ModelConfig) -> (r: Result<Checkpoint, ModelError>)
    ensures
        match r {
            Ok(c) => decode_checkpoint(bytes@, *config) == Ok::<CheckpointView, ModelError>(c@)
                && c.model@.matches(*config),
            Err(e) => decode_checkpoint(bytes@, *config) == Err::<CheckpointView, ModelError>(e),
        },
{
    match config.validate() {
        Ok(()) => {},
        Err(e) => {
            return Err(e);
        },
    }
    let count = config.model_word_count();
    if bytes.len() != 4 * count + 16 {
        return Err(ModelError::CheckpointCorrupt);
    }
    let mut reader = ByteReader::new(bytes);
    let model = match load_model(&mut reader, config) {
        Ok(m) => m,
        Err(e) => {
            return Err(e);
        },
    };
    let epoch = match read_counter(&mut reader) {
        Ok(x) => x,
        Err(e) => {
            return Err(e);
        },
    };
    let step = match read_counter(&mut reader) {
        Ok(x) => x,
        Err(e) => {
            return Err(e);
        },
    };
    if epoch > usize::MAX as u64 || step > usize::MAX as u64 {
        return Err(ModelError::CheckpointCorrupt);
    }
    Ok(Checkpoint { model, epoch: epoch as usize, step: step as usize })
}

/// A counter is read back from its own bytes, whatever stands before and
/// after them.
pub proof fn lemma_counter_round_trip(before: Seq<u8>, x: u64, after: Seq<u8>)
    ensures
        counter_bytes(x).len() == 8,
        counter_at(before + counter_bytes(x) + after, before.len() as int) == x,
{
    let low = (x % 0x1_0000_0000) as u32;
    let high = (x / 0x1_0000_0000) as u32;
    let ws = seq![low, high];
    assert(ws.drop_last() =~= seq![low]);
    assert(words_bytes(seq![low]) =~= word_bytes(low)) by {
        reveal_with_fuel(words_bytes, 2);
    }
    lemma_stored_word(before, ws, after, 0);
    lemma_stored_word(before, ws, after, 1);
}

/// A checkpoint is read back as it was saved. The bytes of a checkpoint
/// of a model of configuration `config`, read under that configuration,
/// give the same epoch and step and the same model: every value bit for
/// bit, every gradient cleared.
pub proof fn lemma_checkpoint_round_trip(
    model: TransformerView,
    epoch: usize,
    step: usize,
    config: ModelConfig,
)
    requires
        config.valid(),
        model.matches(config),
    ensures
        decode_checkpoint(checkpoint_bytes(model, epoch, step), config) == Ok::<
            CheckpointView,
            ModelError,
        >(CheckpointView { model: model.cleared(), epoch: epoch as nat, step: step as nat }),
{
    let stored = words_bytes(model.words());
    let e = counter_bytes(epoch as u64);
    let s = counter_bytes(step as u64);
    let data = checkpoint_bytes(model, epoch, step);
    let none = Seq::<u8>::empty();
    lemma_model_round_trip(model, config, none, e + s);
    assert(none + stored + (e + s) =~= data);
    lemma_counter_round_trip(stored, epoch as u64, s);
    lemma_counter_round_trip(stored + e, step as u64, none);
}

} // verus!
