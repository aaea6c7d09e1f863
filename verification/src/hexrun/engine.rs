//! hexrun engine selection.

use vstd::prelude::*;

verus! {

/// Inference backend selection.
#[derive(Clone, Copy, Debug, PartialEq, Eq, Structural)]
pub enum Backend {
    /// ONNX Runtime with the QNN Execution Provider (the default).
    Ort,
    /// ORT CPU execution provider.
    Cpu,
}

impl Default for Backend {
    fn default() -> (r: Self)
        ensures
            r == Backend::Ort,
    {
        Backend::Ort
    }
}

/// Whether an NPU is usable for the model in `model_dir`. hexrun has no
/// NPU probe, so the answer is always no.
pub fn npu_present(model_dir: &str) -> (r: bool)
    ensures
        !r,
{
    false
}

} // verus!
