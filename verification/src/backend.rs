//! Which hardware builds histograms, and how.

use vstd::prelude::*;

verus! {

/// A histogram backend.
#[derive(Debug, Clone, Copy, PartialEq, Eq, Structural)]
pub enum BackendType {
    /// The best one that is available.
    Auto,
    /// The processor.
    Scalar,
    /// Any graphics card, through WGPU.
    Wgpu,
    /// The processor, with AVX-512.
    Avx512,
    /// The processor, with SVE2.
    Sve2,
    /// NVIDIA graphics cards.
    Cuda,
    /// AMD graphics cards.
    Rocm,
    /// Apple graphics cards.
    Metal,
}

/// How much of the work a graphics card does.
#[derive(Debug, Clone, Copy, PartialEq, Eq, Structural)]
pub enum GpuMode {
    /// Whatever suits the backend.
    Auto,
    /// Histograms on the card, partitioning on the processor.
    Hybrid,
    /// Everything on the card, level by level.
    Full,
}

impl BackendType {
    /// Whether trials have to run one after the other: on graphics cards, and
    /// where it is open which backend will be used.
    pub fn is_gpu_backend(&self) -> (gpu: bool)
        ensures
            gpu == (*self != BackendType::Scalar && *self != BackendType::Avx512 && *self != BackendType::Sve2),
    {
        match self {
            BackendType::Auto => true,
            BackendType::Scalar => false,
            BackendType::Wgpu => true,
            BackendType::Avx512 => false,
            BackendType::Sve2 => false,
            BackendType::Cuda => true,
            BackendType::Rocm => true,
            BackendType::Metal => true,
        }
    }
}

} // verus!
