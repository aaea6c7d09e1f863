//! The npurun runtime: manifest format and engine decisions.

pub mod engine;
pub mod manifest;
