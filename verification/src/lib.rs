//! A consensus engine that uses the Tendermint algorithm.
//!
//! [`engine::Tendermint`] takes events and answers with [`state::Action`]s for the node. What every
//! event leads to is said in [`state`], and what follows from it in [`laws`].

pub mod codec;
pub mod engine;
pub mod epoch;
pub mod error;
pub mod laws;
pub mod message;
pub mod primitives;
pub mod seal;
pub mod state;
pub mod step;
pub mod validators;
pub mod votes;
