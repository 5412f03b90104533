//! sunmao: the pure domain of a multi-project DAG task orchestrator.
//!
//! Task / package state machines, write-scope prefix logic, ready derivation,
//! graph publish validation, and the decision logic of the store, all verified.

pub mod text;
pub mod error;
pub mod state_machine;
pub mod write_scope;
pub mod ready;
pub mod dag;
pub mod graph;
pub mod id;
pub mod git;
pub mod validators;
pub mod projection;
pub mod impact;
pub mod store;
pub mod cli;
pub mod service;
