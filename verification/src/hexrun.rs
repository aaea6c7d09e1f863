//! The hexrun runtime (the ONNX-Runtime predecessor of npurun): manifest
//! format and engine selection.

pub mod engine;
pub mod manifest;
pub mod registry;
pub mod server;
