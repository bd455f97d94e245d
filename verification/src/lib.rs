//! The instance and stack lifecycle core of a local-Postgres tool:
//! a stack catalog with case-insensitive resolution, the durable
//! configuration aggregate with a verified file codec, the pure half
//! of the container-engine gateway (command construction and output
//! classification), and the orchestrator operations that create
//! instances, look them up, enable extensions and prepare cloud
//! deployments.
//!
//! Everything here is verified; running processes, touching the file
//! system and talking to the network are the embedding program's
//! part, fed by and feeding plain values of this crate.

use vstd::prelude::*;

mod errors;
pub mod codec;
pub mod config;
pub mod context;
pub mod deploy;
pub mod docker;
pub mod extension;
pub mod file_utils;
pub mod models;
pub mod instance;
pub mod manager;
pub mod stacks;
pub mod strutil;

pub use errors::CliError;

verus! {

} // verus!
