//! The AgentRT console library: the decisions behind the console's commands
//! and its gateway protocol, each with a verified contract.
//!
//! Reading and writing files, talking to the gateway and drawing on the
//! terminal are left to the caller, which hands the library plain values.

pub mod config;
pub mod db;
pub mod deploy;
pub mod gateway;
pub mod json;
pub mod llm;
pub mod market;
pub mod prompt;
pub mod run;
pub mod scaffold;
pub mod stream;
pub mod templates;
pub mod text;
