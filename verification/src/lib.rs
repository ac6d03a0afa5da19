//! A small transformer sequence model: parameter storage, layer layout,
//! shape rules, checkpoint encoding, tokenization and the training schedule.
//!
//! Every number a layer holds is carried as the bit pattern of an IEEE-754
//! single-precision value (`u32`). The library never interprets those bits
//! arithmetically: it stores them, lays them out, and moves them to and from
//! bytes. Arithmetic on them is the caller's business.

pub mod bits;
pub mod codec;
pub mod config;
pub mod error;
pub mod model;
pub mod placement;
pub mod round_trip;
pub mod serialization;
pub mod tokenizer;
pub mod training;
pub mod utils;
