//! An agent loop library: the conversation model, the history store, the
//! tool registry and its execution plans, the model client's retry policy and
//! stream assembly, and the step state machine that ties them together.
//!
//! Waiting on the network and running tool bodies happens outside; every
//! decision that the loop takes is made here, under a contract.

pub mod text;
pub mod json;
pub mod types;
pub mod stream;
pub mod registry;
pub mod executor;
pub mod history;
pub mod agent;
pub mod provider;
pub mod tool;
