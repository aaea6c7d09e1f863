//! Verified core of the npurun / hexrun local LLM runtime.

pub mod cli;
pub mod digest_map;
pub mod genie;
pub mod hexrun;
pub mod json;
pub mod npurun;
pub mod registry;
pub mod rules;
pub mod server;
pub mod text;
