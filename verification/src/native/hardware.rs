//! What the machine offers for running language models locally.

use vstd::prelude::*;

verus! {

/// The graphics processor and memory of a machine.
#[derive(Debug, Clone, Copy, PartialEq, Eq, Structural)]
pub struct HardwareCapabilities {
    pub has_nvidia_gpu: bool,
    pub total_memory_gb: u64,
    pub available_memory_gb: u64,
}

impl HardwareCapabilities {
    /// Whether the machine can run a local model: it has an NVIDIA
    /// graphics processor or at least 8 GB of memory available.
    pub fn can_run_local_llm(&self) -> (r: bool)
        ensures
            r == (self.has_nvidia_gpu || self.available_memory_gb >= 8),
    {
        if self.has_nvidia_gpu {
            return true;
        }
        if self.available_memory_gb >= 8 {
            return true;
        }
        false
    }
}

} // verus!
