//! Which names are understood, and what they stand for.

use crate::backend::{BackendType, GpuMode};
use crate::interface::names::{
    backend_meant, gbdt_preset_meant, gpu_mode_meant, model_format_meant, space_preset_meant, tuner_preset_meant,
    GbdtPreset, SaveFormat,
};
use crate::tuner::config::TunerPreset;
use crate::tuner::space::SpacePreset;
use vstd::prelude::*;

verus! {

/// The names of the formats: each name stands for one, and no other name is
/// understood.
pub proof fn law_names_of_formats(name: Seq<char>)
    ensures
        model_format_meant(name) == Some(SaveFormat::Rkyv) <==> name == "rkyv"@,
        model_format_meant(name) == Some(SaveFormat::Bincode) <==> name == "bincode"@ || name == "bin"@,
        model_format_meant(name) is None <==> name != "rkyv"@ && name != "bincode"@ && name != "bin"@,
{
    reveal_strlit("rkyv");
    reveal_strlit("bincode");
    reveal_strlit("bin");
    assert("rkyv"@.len() == 4 && "rkyv"@[0] == 'r');
    assert("bincode"@.len() == 7 && "bincode"@[0] == 'b');
    assert("bin"@.len() == 3 && "bin"@[0] == 'b');
}

/// The names of the presets of a model: each name stands for one, and no other name is
/// understood.
pub proof fn law_names_of_model_presets(name: Seq<char>)
    ensures
        gbdt_preset_meant(name) == Some(GbdtPreset::Standard) <==> name == "standard"@,
        gbdt_preset_meant(name) == Some(GbdtPreset::Speed) <==> name == "speed"@,
        gbdt_preset_meant(name) == Some(GbdtPreset::Accuracy) <==> name == "accuracy"@,
        gbdt_preset_meant(name) == Some(GbdtPreset::SmallData) <==> name == "smalldata"@ || name == "small_data"@,
        gbdt_preset_meant(name) == Some(GbdtPreset::LargeData) <==> name == "largedata"@ || name == "large_data"@,
        gbdt_preset_meant(name) == Some(GbdtPreset::Conformal) <==> name == "conformal"@,
        gbdt_preset_meant(name) is None <==> name != "standard"@ && name != "speed"@ && name != "accuracy"@ && name != "smalldata"@ && name != "small_data"@ && name != "largedata"@ && name != "large_data"@ && name != "conformal"@,
{
    reveal_strlit("standard");
    reveal_strlit("speed");
    reveal_strlit("accuracy");
    reveal_strlit("smalldata");
    reveal_strlit("small_data");
    reveal_strlit("largedata");
    reveal_strlit("large_data");
    reveal_strlit("conformal");
    assert("standard"@.len() == 8 && "standard"@[0] == 's');
    assert("speed"@.len() == 5 && "speed"@[0] == 's');
    assert("accuracy"@.len() == 8 && "accuracy"@[0] == 'a');
    assert("smalldata"@.len() == 9 && "smalldata"@[0] == 's');
    assert("small_data"@.len() == 10 && "small_data"@[0] == 's');
    assert("largedata"@.len() == 9 && "largedata"@[0] == 'l');
    assert("large_data"@.len() == 10 && "large_data"@[0] == 'l');
    assert("conformal"@.len() == 9 && "conformal"@[0] == 'c');
}

/// The names of the backends: each name stands for one, and no other name is
/// understood.
pub proof fn law_names_of_backends(name: Seq<char>)
    ensures
        backend_meant(name) == Some(BackendType::Auto) <==> name == "auto"@ || name == "gpu"@,
        backend_meant(name) == Some(BackendType::Scalar) <==> name == "cpu"@ || name == "scalar"@,
        backend_meant(name) == Some(BackendType::Wgpu) <==> name == "wgpu"@,
        backend_meant(name) == Some(BackendType::Cuda) <==> name == "cuda"@,
        backend_meant(name) == Some(BackendType::Rocm) <==> name == "rocm"@,
        backend_meant(name) == Some(BackendType::Metal) <==> name == "metal"@,
        backend_meant(name) is None <==> name != "auto"@ && name != "gpu"@ && name != "cpu"@ && name != "scalar"@ && name != "wgpu"@ && name != "cuda"@ && name != "rocm"@ && name != "metal"@,
{
    reveal_strlit("auto");
    reveal_strlit("gpu");
    reveal_strlit("cpu");
    reveal_strlit("scalar");
    reveal_strlit("wgpu");
    reveal_strlit("cuda");
    reveal_strlit("rocm");
    reveal_strlit("metal");
    assert("auto"@.len() == 4 && "auto"@[0] == 'a');
    assert("gpu"@.len() == 3 && "gpu"@[0] == 'g');
    assert("cpu"@.len() == 3 && "cpu"@[0] == 'c');
    assert("scalar"@.len() == 6 && "scalar"@[0] == 's');
    assert("wgpu"@.len() == 4 && "wgpu"@[0] == 'w');
    assert("cuda"@.len() == 4 && "cuda"@[0] == 'c');
    assert("rocm"@.len() == 4 && "rocm"@[0] == 'r');
    assert("metal"@.len() == 5 && "metal"@[0] == 'm');
}

/// The names of the modes of a graphics card: each name stands for one, and no other name is
/// understood.
pub proof fn law_names_of_gpu_modes(name: Seq<char>)
    ensures
        gpu_mode_meant(name) == Some(GpuMode::Auto) <==> name == "auto"@,
        gpu_mode_meant(name) == Some(GpuMode::Hybrid) <==> name == "hybrid"@,
        gpu_mode_meant(name) == Some(GpuMode::Full) <==> name == "full"@,
        gpu_mode_meant(name) is None <==> name != "auto"@ && name != "hybrid"@ && name != "full"@,
{
    reveal_strlit("auto");
    reveal_strlit("hybrid");
    reveal_strlit("full");
    assert("auto"@.len() == 4 && "auto"@[0] == 'a');
    assert("hybrid"@.len() == 6 && "hybrid"@[0] == 'h');
    assert("full"@.len() == 4 && "full"@[0] == 'f');
}

/// The names of the presets of a space: each name stands for one, and no other name is
/// understood.
pub proof fn law_names_of_space_presets(name: Seq<char>)
    ensures
        space_preset_meant(name) == Some(SpacePreset::Minimal) <==> name == "minimal"@,
        space_preset_meant(name) == Some(SpacePreset::Regression) <==> name == "regression"@,
        space_preset_meant(name) == Some(SpacePreset::Classification) <==> name == "classification"@,
        space_preset_meant(name) == Some(SpacePreset::Exhaustive) <==> name == "exhaustive"@,
        space_preset_meant(name) == Some(SpacePreset::Universal) <==> name == "universal"@,
        space_preset_meant(name) is None <==> name != "minimal"@ && name != "regression"@ && name != "classification"@ && name != "exhaustive"@ && name != "universal"@,
{
    reveal_strlit("minimal");
    reveal_strlit("regression");
    reveal_strlit("classification");
    reveal_strlit("exhaustive");
    reveal_strlit("universal");
    assert("minimal"@.len() == 7 && "minimal"@[0] == 'm');
    assert("regression"@.len() == 10 && "regression"@[0] == 'r');
    assert("classification"@.len() == 14 && "classification"@[0] == 'c');
    assert("exhaustive"@.len() == 10 && "exhaustive"@[0] == 'e');
    assert("universal"@.len() == 9 && "universal"@[0] == 'u');
}

/// The names of the presets of a search: each name stands for one, and no other name is
/// understood.
pub proof fn law_names_of_search_presets(name: Seq<char>)
    ensures
        tuner_preset_meant(name) == Some(TunerPreset::SmokeTest) <==> name == "smoketest"@ || name == "smoke_test"@,
        tuner_preset_meant(name) == Some(TunerPreset::Quick) <==> name == "quick"@,
        tuner_preset_meant(name) == Some(TunerPreset::Balanced) <==> name == "balanced"@,
        tuner_preset_meant(name) == Some(TunerPreset::Thorough) <==> name == "thorough"@,
        tuner_preset_meant(name) is None <==> name != "smoketest"@ && name != "smoke_test"@ && name != "quick"@ && name != "balanced"@ && name != "thorough"@,
{
    reveal_strlit("smoketest");
    reveal_strlit("smoke_test");
    reveal_strlit("quick");
    reveal_strlit("balanced");
    reveal_strlit("thorough");
    assert("smoketest"@.len() == 9 && "smoketest"@[0] == 's');
    assert("smoke_test"@.len() == 10 && "smoke_test"@[0] == 's');
    assert("quick"@.len() == 5 && "quick"@[0] == 'q');
    assert("balanced"@.len() == 8 && "balanced"@[0] == 'b');
    assert("thorough"@.len() == 8 && "thorough"@[0] == 't');
}

} // verus!
