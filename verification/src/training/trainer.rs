//! The training loop as a state machine.
//!
//! The trainer decides what is done next; whoever drives it does the work
//! (the forward pass, the loss, writing a checkpoint) and asks again. One
//! training step takes a sample through the stages forward, loss,
//! backward, clip, aggregate, schedule and apply; after every
//! `CHECKPOINT_INTERVAL` steps a checkpoint follows the apply stage.

use vstd::prelude::*;
use crate::config::ModelConfig;
use crate::error::ModelError;
use crate::model::transformer::{SimpleTransformer, TransformerView};
use crate::utils::checkpointing::{decode_checkpoint, load_checkpoint};
use crate::utils::lr_scheduler::{learning_rate_scale, schedule, LrScale};

verus! {

/// The number of passes over the data that one run makes.
pub const EPOCHS: usize = 10;

/// A checkpoint is written after every step whose number is a multiple of
/// this.
pub const CHECKPOINT_INTERVAL: usize = 100;

/// The settings of a training run and the number of steps taken so far.
///
/// The base learning rate and the clipping bound are bit patterns of
/// single-precision numbers; the trainer hands them on and never looks
/// inside.
#[derive(Debug, Clone, Copy, PartialEq, Eq)]
pub struct Trainer {
    pub lr: u32,
    pub clip_value: u32,
    pub warmup_steps: usize,
    pub total_steps: usize,
    pub num_workers: usize,
    pub step_counter: usize,
}

/// The stage a run is in.
#[derive(Debug, Clone, Copy, PartialEq, Eq)]
pub enum Stage {
    Idle,
    Forward,
    Loss,
    Backward,
    Clip,
    Aggregate,
    Schedule,
    Apply,
    Checkpoint,
}

/// Where a run stands: its stage, the epoch, the sample within the epoch,
/// and the number of samples of an epoch. An idle run stands before the
/// sample it would take up next.
#[derive(Debug, Clone, Copy, PartialEq, Eq)]
pub struct Progress {
    pub stage: Stage,
    pub epoch: usize,
    pub sample: usize,
    pub samples: usize,
}

/// What the driver of a run is asked to do next.
#[derive(Debug, Clone, Copy, PartialEq, Eq)]
pub enum Action {
    /// Run the model on sample `sample`.
    Forward { sample: usize },
    /// Compute the loss of the output against the target of `sample`.
    Loss { sample: usize },
    /// Fill the gradient buffers for `sample`.
    Backward { sample: usize },
    /// Clip the gradients to the global norm `clip_value`.
    Clip { clip_value: u32 },
    /// Average the gradients over `num_workers` workers.
    Aggregate { num_workers: usize },
    /// Set the learning rate to the base rate `base_lr` times `scale`.
    Schedule { base_lr: u32, scale: LrScale },
    /// Apply the gradients with the learning rate just set.
    Apply,
    /// Write a checkpoint that records `epoch` and `step`.
    Checkpoint { epoch: usize, step: usize },
    /// Nothing is left to do.
    Finish,
}

/// The trainer, the progress and the action that follow a given trainer
/// and progress.
pub ghost struct Next {
    pub trainer: Trainer,
    pub progress: Progress,
    pub action: Action,
}

/// Start on the sample at `epoch` and `sample`, unless the epochs are
/// over, there is no sample, or the step budget is used up; then the run
/// goes idle. Starting a sample counts one step.
pub open spec fn begin_sample(t: Trainer, p: Progress, epoch: usize, sample: usize) -> Next {
    if epoch >= EPOCHS || p.samples == 0 || t.step_counter >= t.total_steps {
        Next {
            trainer: t,
            progress: Progress { stage: Stage::Idle, epoch, sample, ..p },
            action: Action::Finish,
        }
    } else {
        Next {
            trainer: Trainer { step_counter: (t.step_counter + 1) as usize, ..t },
            progress: Progress { stage: Stage::Forward, epoch, sample, ..p },
            action: Action::Forward { sample },
        }
    }
}

/// Go on to the sample after the current one: the next of this epoch, or
/// the first of the next epoch.
pub open spec fn next_sample(t: Trainer, p: Progress) -> Next {
    if p.sample + 1 < p.samples {
        begin_sample(t, p, p.epoch, (p.sample + 1) as usize)
    } else {
        begin_sample(t, p, (p.epoch + 1) as usize, 0)
    }
}

/// Whether a checkpoint is due after step `step`.
pub open spec fn checkpoint_due(step: usize) -> bool {
    step % CHECKPOINT_INTERVAL == 0
}

/// The transition of the training loop.
pub open spec fn next(t: Trainer, p: Progress) -> Next {
    let stay = |stage: Stage, action: Action|
        Next { trainer: t, progress: Progress { stage, ..p }, action };
    match p.stage {
        Stage::Idle => begin_sample(t, p, p.epoch, p.sample),
        Stage::Forward => stay(Stage::Loss, Action::Loss { sample: p.sample }),
        Stage::Loss => stay(Stage::Backward, Action::Backward { sample: p.sample }),
        Stage::Backward => stay(Stage::Clip, Action::Clip { clip_value: t.clip_value }),
        Stage::Clip => stay(Stage::Aggregate, Action::Aggregate { num_workers: t.num_workers }),
        Stage::Aggregate => stay(
            Stage::Schedule,
            Action::Schedule {
                base_lr: t.lr,
                scale: schedule(t.step_counter, t.warmup_steps, t.total_steps),
            },
        ),
        Stage::Schedule => stay(Stage::Apply, Action::Apply),
        Stage::Apply => if checkpoint_due(t.step_counter) {
            stay(Stage::Checkpoint, Action::Checkpoint { epoch: p.epoch, step: t.step_counter })
        } else {
            next_sample(t, p)
        },
        Stage::Checkpoint => next_sample(t, p),
    }
}

impl Progress {
    /// The run stands at a sample that exists, and while it works on a
    /// sample also in an epoch that exists.
    pub open spec fn wf(self) -> bool {
        &&& self.samples > 0 ==> self.sample < self.samples
        &&& self.stage != Stage::Idle ==> self.epoch < EPOCHS && self.sample < self.samples
    }

    /// Whether the run stands at a sample that exists, and while it works
    /// on a sample also in an epoch that exists.
    pub fn is_well_formed(&self) -> (ok: bool)
        ensures
            ok == self.wf(),
    {
        (self.samples == 0 || self.sample < self.samples) && match self.stage {
            Stage::Idle => true,
            _ => self.epoch < EPOCHS && self.sample < self.samples,
        }
    }

    /// A run over epochs of `samples` samples that has not started.
    pub fn new(samples: usize) -> (p: Self)
        ensures
            p == (Progress { stage: Stage::Idle, epoch: 0, sample: 0, samples }),
            p.wf(),
    {
        Progress { stage: Stage::Idle, epoch: 0, sample: 0, samples }
    }

    /// A run over epochs of `samples` samples that takes up where a
    /// checkpoint of `epoch` and `step` left off; see [`resume_point`].
    pub fn resume(samples: usize, epoch: usize, step: usize) -> (p: Self)
        ensures
            p == resume_point(samples, epoch, step),
            p.wf(),
    {
        let idle = Progress { stage: Stage::Idle, epoch, sample: 0, samples };
        let before = match epoch.checked_mul(samples) {
            Some(n) => n,
            None => {
                return idle;
            },
        };
        if step <= before {
            return idle;
        }
        let done = step - before;
        if done < samples {
            Progress { sample: done, ..idle }
        } else if done == samples && epoch < usize::MAX {
            Progress { epoch: epoch + 1, ..idle }
        } else {
            idle
        }
    }
}

/// Where a run over epochs of `samples` samples stands after the step
/// `step` taken in epoch `epoch`, when every step took one sample in turn
/// from the start of training: before the sample that follows the
/// `step - epoch * samples` samples of this epoch that are done, which is
/// the first sample of the next epoch when all are done. Counters that do
/// not fit such a run put it at the start of the epoch.
pub open spec fn resume_point(samples: usize, epoch: usize, step: usize) -> Progress {
    let done = step - epoch * samples;
    let idle = Progress { stage: Stage::Idle, epoch, sample: 0, samples };
    if 0 < done < samples {
        Progress { sample: done as usize, ..idle }
    } else if 0 < done == samples && epoch < usize::MAX {
        Progress { epoch: (epoch + 1) as usize, ..idle }
    } else {
        idle
    }
}

impl Trainer {
    /// A trainer that has taken no step.
    pub fn new(
        lr: u32,
        clip_value: u32,
        warmup_steps: usize,
        total_steps: usize,
        num_workers: usize,
    ) -> (t: Self)
        ensures
            t == (Trainer {
                lr,
                clip_value,
                warmup_steps,
                total_steps,
                num_workers,
                step_counter: 0,
            }),
    {
        Trainer { lr, clip_value, warmup_steps, total_steps, num_workers, step_counter: 0 }
    }

    fn begin_sample(&mut self, progress: &mut Progress, epoch: usize, sample: usize) -> (action:
        Action)
        ensures
            (Next { trainer: *final(self), progress: *final(progress), action }) == begin_sample(
                *old(self),
                *old(progress),
                epoch,
                sample,
            ),
    {
        progress.epoch = epoch;
        progress.sample = sample;
        if epoch >= EPOCHS || progress.samples == 0 || self.step_counter >= self.total_steps {
            progress.stage = Stage::Idle;
            Action::Finish
        } else {
            self.step_counter = self.step_counter + 1;
            progress.stage = Stage::Forward;
            Action::Forward { sample }
        }
    }

    fn next_sample(&mut self, progress: &mut Progress) -> (action: Action)
        requires
            old(progress).stage != Stage::Idle,
            old(progress).wf(),
        ensures
            (Next { trainer: *final(self), progress: *final(progress), action }) == next_sample(
                *old(self),
                *old(progress),
            ),
    {
        if progress.sample + 1 < progress.samples {
            let sample = progress.sample + 1;
            let epoch = progress.epoch;
            self.begin_sample(progress, epoch, sample)
        } else {
            let epoch = progress.epoch + 1;
            self.begin_sample(progress, epoch, 0)
        }
    }

    /// Moves the run on by one stage and tells what is to be done in the
    /// stage entered. Call it again when that is done.
    pub fn advance(&mut self, progress: &mut Progress) -> (action: Action)
        requires
            old(progress).wf(),
        ensures
            (Next { trainer: *final(self), progress: *final(progress), action }) == next(
                *old(self),
                *old(progress),
            ),
            final(progress).wf(),
    {
        match progress.stage {
            Stage::Idle => {
                let epoch = progress.epoch;
                let sample = progress.sample;
                self.begin_sample(progress, epoch, sample)
            },
            Stage::Forward => {
                progress.stage = Stage::Loss;
                Action::Loss { sample: progress.sample }
            },
            Stage::Loss => {
                progress.stage = Stage::Backward;
                Action::Backward { sample: progress.sample }
            },
            Stage::Backward => {
                progress.stage = Stage::Clip;
                Action::Clip { clip_value: self.clip_value }
            },
            Stage::Clip => {
                progress.stage = Stage::Aggregate;
                Action::Aggregate { num_workers: self.num_workers }
            },
            Stage::Aggregate => {
                progress.stage = Stage::Schedule;
                Action::Schedule {
                    base_lr: self.lr,
                    scale: learning_rate_scale(
                        self.step_counter,
                        self.warmup_steps,
                        self.total_steps,
                    ),
                }
            },
            Stage::Schedule => {
                progress.stage = Stage::Apply;
                Action::Apply
            },
            Stage::Apply => {
                if self.step_counter % CHECKPOINT_INTERVAL == 0 {
                    progress.stage = Stage::Checkpoint;
                    Action::Checkpoint { epoch: progress.epoch, step: self.step_counter }
                } else {
                    self.next_sample(progress)
                }
            },
            Stage::Checkpoint => self.next_sample(progress),
        }
    }

    /// Takes up training where a checkpoint left it.
    ///
    /// With no stored checkpoint the run starts cold: nothing is returned
    /// and the trainer is unchanged. A stored checkpoint that reads well
    /// gives the model and the epoch back and sets the step counter to the
    /// stored step. One that does not is an error, which a caller who set
    /// `cold_start_on_corrupt` has chosen to treat as a cold start where
    /// the bytes are corrupt.
    pub fn resume_training(
        &mut self,
        stored: Option<&[u8]>,
        config: &ModelConfig,
        cold_start_on_corrupt: bool,
    ) -> (r: Result<Option<(SimpleTransformer, usize)>, ModelError>)
        ensures
            *final(self) == resumed(*old(self), stored, *config),
            match r {
                Ok(Some((model, epoch))) => resume_outcome(stored, *config, cold_start_on_corrupt)
                    == Ok::<Option<(TransformerView, nat)>, ModelError>(
                    Some((model@, epoch as nat)),
                ) && model@.matches(*config),
                Ok(None) => resume_outcome(stored, *config, cold_start_on_corrupt) == Ok::<
                    Option<(TransformerView, nat)>,
                    ModelError,
                >(None),
                Err(e) => resume_outcome(stored, *config, cold_start_on_corrupt) == Err::<
                    Option<(TransformerView, nat)>,
                    ModelError,
                >(e),
            },
    {
        let bytes = match stored {
            Some(bytes) => bytes,
            None => {
                return Ok(None);
            },
        };
        match load_checkpoint(bytes, config) {
            Ok(checkpoint) => {
                self.step_counter = checkpoint.step;
                Ok(Some((checkpoint.model, checkpoint.epoch)))
            },
            Err(ModelError::CheckpointCorrupt) => {
                if cold_start_on_corrupt {
                    Ok(None)
                } else {
                    Err(ModelError::CheckpointCorrupt)
                }
            },
            Err(e) => Err(e),
        }
    }
}

/// What resuming from `stored` gives: nothing where no checkpoint is
/// stored; the model and the epoch of a checkpoint that reads well; the
/// error of one that does not, unless the bytes are corrupt and the caller
/// chose a cold start for that case.
pub open spec fn resume_outcome(
    stored: Option<&[u8]>,
    config: ModelConfig,
    cold_start_on_corrupt: bool,
) -> Result<Option<(TransformerView, nat)>, ModelError> {
    match stored {
        None => Ok(None),
        Some(bytes) => match decode_checkpoint(bytes@, config) {
            Ok(c) => Ok(Some((c.model, c.epoch))),
            Err(e) => if cold_start_on_corrupt && e == ModelError::CheckpointCorrupt {
                Ok(None)
            } else {
                Err(e)
            },
        },
    }
}

/// The trainer after it has tried to resume from `stored`: with a
/// checkpoint that reads well its step counter is the stored step;
/// otherwise it is unchanged.
pub open spec fn resumed(t: Trainer, stored: Option<&[u8]>, config: ModelConfig) -> Trainer {
    match stored {
        Some(bytes) => match decode_checkpoint(bytes@, config) {
            Ok(c) => Trainer { step_counter: c.step as usize, ..t },
            Err(_) => t,
        },
        None => t,
    }
}

/// A run never takes more steps than its budget: a step counter within
/// `total_steps` stays within it, and a transition adds at most one step.
pub proof fn lemma_step_budget(t: Trainer, p: Progress)
    requires
        t.step_counter <= t.total_steps,
    ensures
        next(t, p).trainer.step_counter <= t.total_steps,
        t.step_counter <= next(t, p).trainer.step_counter <= t.step_counter + 1,
{
}

/// A checkpoint is asked for only directly after the gradients of a step
/// were applied, only when the number of that step is a multiple of the
/// interval, and it records the current epoch and step.
pub proof fn lemma_checkpoint_only_when_due(t: Trainer, p: Progress)
    requires
        next(t, p).action is Checkpoint,
    ensures
        p.stage == Stage::Apply,
        checkpoint_due(t.step_counter),
        next(t, p).action == (Action::Checkpoint { epoch: p.epoch, step: t.step_counter }),
{
}

/// From the start of a sample the stages follow in their fixed order:
/// six transitions lead from forward to apply, and none of them takes a
/// step, moves to another sample or touches the settings.
pub proof fn lemma_stage_order(t: Trainer, p: Progress)
    requires
        p.stage == Stage::Forward,
    ensures
        ({
            let a = next(t, p);
            let b = next(a.trainer, a.progress);
            let c = next(b.trainer, b.progress);
            let d = next(c.trainer, c.progress);
            let e = next(d.trainer, d.progress);
            let f = next(e.trainer, e.progress);
            &&& a.progress.stage == Stage::Loss
            &&& b.progress.stage == Stage::Backward
            &&& c.progress.stage == Stage::Clip
            &&& d.progress.stage == Stage::Aggregate
            &&& e.progress.stage == Stage::Schedule
            &&& f.progress.stage == Stage::Apply
            &&& f.trainer == t
            &&& f.progress == Progress { stage: Stage::Apply, ..p }
        }),
{
}

/// The step counter agrees with the place of the run: every step so far
/// took one sample in turn from the start of training.
pub open spec fn counted(t: Trainer, p: Progress) -> bool {
    if p.stage == Stage::Idle {
        t.step_counter == p.epoch * p.samples + p.sample
    } else {
        t.step_counter == p.epoch * p.samples + p.sample + 1
    }
}

/// A run whose step counter agrees with its place keeps that agreement
/// from transition to transition.
pub proof fn lemma_counted_is_kept(t: Trainer, p: Progress)
    requires
        p.wf(),
        counted(t, p),
    ensures
        next(t, p).progress.wf(),
        counted(next(t, p).trainer, next(t, p).progress),
{
    assert((p.epoch + 1) * p.samples == p.epoch * p.samples + p.samples) by (nonlinear_arith);
}

/// Resuming from a checkpoint continues the run it was written in: after
/// a checkpoint, a run whose step counter agrees with its place goes on
/// exactly as a run that is resumed from the epoch and step which that
/// checkpoint records.
pub proof fn lemma_resume_continues(t: Trainer, p: Progress)
    requires
        p.wf(),
        p.stage == Stage::Checkpoint,
        counted(t, p),
    ensures
        next(t, resume_point(p.samples, p.epoch, t.step_counter)) == next(t, p),
{
}

} // verus!
