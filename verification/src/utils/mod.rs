pub mod checkpointing;
pub mod lr_scheduler;
