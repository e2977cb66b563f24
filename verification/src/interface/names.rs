//! Names that scripts use for choices. Case does not matter.

use crate::backend::{BackendType, GpuMode};
use crate::text::same_text;
use crate::tuner::config::TunerPreset;
use crate::tuner::space::SpacePreset;
use vstd::prelude::*;

verus! {

/// Whether a check came out as it should: the value where it holds, the rule
/// where it does not.
pub open spec fn outcome<T>(got: Result<T, String>, holds: bool, value: T, rule: Seq<char>) -> bool {
    match got {
        Ok(found) => holds && found == value,
        Err(message) => !holds && message@ == rule,
    }
}

/// Whether a name was understood as it should be.
pub open spec fn understood<T>(got: Result<T, String>, meant: Option<T>, rule: Seq<char>) -> bool {
    match got {
        Ok(found) => meant == Some(found),
        Err(message) => meant is None && message@ == rule,
    }
}

/// A text in lower case as `str::to_lowercase` gives it.
pub uninterp spec fn lowercase(text: Seq<char>) -> Seq<char>;

/// A character in lower case, if it is a letter from A to Z.
pub open spec fn ascii_lowercase(c: char) -> char {
    if 'A' <= c && c <= 'Z' {
        ((c as u32) + 32) as char
    } else {
        c
    }
}

/// Calls `str::to_lowercase`. What it returns depends on the text alone and is
/// named `lowercase`; a text of ASCII characters has its letters from A to Z in
/// lower case and is otherwise unchanged.
#[verifier::external_body]
fn to_lowercase(text: &str) -> (lower: String)
    ensures
        lower@ == lowercase(text@),
        (forall|i: int| 0 <= i < text@.len() ==> (#[trigger] text@[i] as u32) < 128) ==> lower@ == text@.map_values(
            |c: char| ascii_lowercase(c),
        ),
{
    text.to_lowercase()
}

/// A format in which a model is saved.
#[derive(Debug, Clone, Copy, PartialEq, Eq, Structural)]
pub enum SaveFormat {
    /// Zero-copy.
    Rkyv,
    /// Compact.
    Bincode,
}

/// Ready-made settings of gradient boosting.
#[derive(Debug, Clone, Copy, PartialEq, Eq, Structural)]
pub enum GbdtPreset {
    /// The default.
    Standard,
    /// Fast training.
    Speed,
    /// Accurate models.
    Accuracy,
    /// Few rows.
    SmallData,
    /// Many rows.
    LargeData,
    /// Prediction intervals.
    Conformal,
}

/// A format of a saved model, by its name in lower case.
pub open spec fn model_format_meant(name: Seq<char>) -> Option<SaveFormat> {
    if name == "rkyv"@ {
        Some(SaveFormat::Rkyv)
    } else if name == "bincode"@ || name == "bin"@ {
        Some(SaveFormat::Bincode)
    } else {
        None
    }
}

/// A format of a saved model, by its name in lower case.
pub fn model_format_named(name: &str) -> (found: Result<SaveFormat, String>)
    ensures
        understood(found, model_format_meant(name@), "format must be 'rkyv' or 'bincode'"@),
{
    if same_text(name, "rkyv") {
        Ok(SaveFormat::Rkyv)
    } else if same_text(name, "bincode") || same_text(name, "bin") {
        Ok(SaveFormat::Bincode)
    } else {
        Err("format must be 'rkyv' or 'bincode'".to_owned())
    }
}

/// A format of a saved model, by its name in any case.
pub fn parse_model_format(name: &str) -> (found: Result<SaveFormat, String>)
    ensures
        understood(found, model_format_meant(lowercase(name@)), "format must be 'rkyv' or 'bincode'"@),
{
    model_format_named(to_lowercase(name).as_str())
}

/// Ready-made settings, by its name in lower case.
pub open spec fn gbdt_preset_meant(name: Seq<char>) -> Option<GbdtPreset> {
    if name == "standard"@ {
        Some(GbdtPreset::Standard)
    } else if name == "speed"@ {
        Some(GbdtPreset::Speed)
    } else if name == "accuracy"@ {
        Some(GbdtPreset::Accuracy)
    } else if name == "smalldata"@ || name == "small_data"@ {
        Some(GbdtPreset::SmallData)
    } else if name == "largedata"@ || name == "large_data"@ {
        Some(GbdtPreset::LargeData)
    } else if name == "conformal"@ {
        Some(GbdtPreset::Conformal)
    } else {
        None
    }
}

/// Ready-made settings, by its name in lower case.
pub fn gbdt_preset_named(name: &str) -> (found: Result<GbdtPreset, String>)
    ensures
        understood(found, gbdt_preset_meant(name@), "unknown preset (use: standard, speed, accuracy, smalldata, largedata, conformal)"@),
{
    if same_text(name, "standard") {
        Ok(GbdtPreset::Standard)
    } else if same_text(name, "speed") {
        Ok(GbdtPreset::Speed)
    } else if same_text(name, "accuracy") {
        Ok(GbdtPreset::Accuracy)
    } else if same_text(name, "smalldata") || same_text(name, "small_data") {
        Ok(GbdtPreset::SmallData)
    } else if same_text(name, "largedata") || same_text(name, "large_data") {
        Ok(GbdtPreset::LargeData)
    } else if same_text(name, "conformal") {
        Ok(GbdtPreset::Conformal)
    } else {
        Err("unknown preset (use: standard, speed, accuracy, smalldata, largedata, conformal)".to_owned())
    }
}

/// Ready-made settings, by its name in any case.
pub fn parse_gbdt_preset(name: &str) -> (found: Result<GbdtPreset, String>)
    ensures
        understood(found, gbdt_preset_meant(lowercase(name@)), "unknown preset (use: standard, speed, accuracy, smalldata, largedata, conformal)"@),
{
    gbdt_preset_named(to_lowercase(name).as_str())
}

/// A backend, by its name in lower case.
pub open spec fn backend_meant(name: Seq<char>) -> Option<BackendType> {
    if name == "auto"@ || name == "gpu"@ {
        Some(BackendType::Auto)
    } else if name == "cpu"@ || name == "scalar"@ {
        Some(BackendType::Scalar)
    } else if name == "wgpu"@ {
        Some(BackendType::Wgpu)
    } else if name == "cuda"@ {
        Some(BackendType::Cuda)
    } else if name == "rocm"@ {
        Some(BackendType::Rocm)
    } else if name == "metal"@ {
        Some(BackendType::Metal)
    } else {
        None
    }
}

/// A backend, by its name in lower case.
pub fn backend_named(name: &str) -> (found: Result<BackendType, String>)
    ensures
        understood(found, backend_meant(name@), "backend must be one of: 'auto' (or 'gpu'), 'cpu' (or 'scalar'), 'wgpu', 'cuda', 'rocm', 'metal'"@),
{
    if same_text(name, "auto") || same_text(name, "gpu") {
        Ok(BackendType::Auto)
    } else if same_text(name, "cpu") || same_text(name, "scalar") {
        Ok(BackendType::Scalar)
    } else if same_text(name, "wgpu") {
        Ok(BackendType::Wgpu)
    } else if same_text(name, "cuda") {
        Ok(BackendType::Cuda)
    } else if same_text(name, "rocm") {
        Ok(BackendType::Rocm)
    } else if same_text(name, "metal") {
        Ok(BackendType::Metal)
    } else {
        Err("backend must be one of: 'auto' (or 'gpu'), 'cpu' (or 'scalar'), 'wgpu', 'cuda', 'rocm', 'metal'".to_owned())
    }
}

/// A backend, by its name in any case.
pub fn parse_backend(name: &str) -> (found: Result<BackendType, String>)
    ensures
        understood(found, backend_meant(lowercase(name@)), "backend must be one of: 'auto' (or 'gpu'), 'cpu' (or 'scalar'), 'wgpu', 'cuda', 'rocm', 'metal'"@),
{
    backend_named(to_lowercase(name).as_str())
}

/// A mode of a graphics card, by its name in lower case.
pub open spec fn gpu_mode_meant(name: Seq<char>) -> Option<GpuMode> {
    if name == "auto"@ {
        Some(GpuMode::Auto)
    } else if name == "hybrid"@ {
        Some(GpuMode::Hybrid)
    } else if name == "full"@ {
        Some(GpuMode::Full)
    } else {
        None
    }
}

/// A mode of a graphics card, by its name in lower case.
pub fn gpu_mode_named(name: &str) -> (found: Result<GpuMode, String>)
    ensures
        understood(found, gpu_mode_meant(name@), "gpu_mode must be one of: 'auto', 'hybrid', 'full'"@),
{
    if same_text(name, "auto") {
        Ok(GpuMode::Auto)
    } else if same_text(name, "hybrid") {
        Ok(GpuMode::Hybrid)
    } else if same_text(name, "full") {
        Ok(GpuMode::Full)
    } else {
        Err("gpu_mode must be one of: 'auto', 'hybrid', 'full'".to_owned())
    }
}

/// A mode of a graphics card, by its name in any case.
pub fn parse_gpu_mode(name: &str) -> (found: Result<GpuMode, String>)
    ensures
        understood(found, gpu_mode_meant(lowercase(name@)), "gpu_mode must be one of: 'auto', 'hybrid', 'full'"@),
{
    gpu_mode_named(to_lowercase(name).as_str())
}

/// A ready-made space, by its name in lower case.
pub open spec fn space_preset_meant(name: Seq<char>) -> Option<SpacePreset> {
    if name == "minimal"@ {
        Some(SpacePreset::Minimal)
    } else if name == "regression"@ {
        Some(SpacePreset::Regression)
    } else if name == "classification"@ {
        Some(SpacePreset::Classification)
    } else if name == "exhaustive"@ {
        Some(SpacePreset::Exhaustive)
    } else if name == "universal"@ {
        Some(SpacePreset::Universal)
    } else {
        None
    }
}

/// A ready-made space, by its name in lower case.
pub fn space_preset_named(name: &str) -> (found: Result<SpacePreset, String>)
    ensures
        understood(found, space_preset_meant(name@), "unknown preset (use: minimal, regression, classification, exhaustive, universal)"@),
{
    if same_text(name, "minimal") {
        Ok(SpacePreset::Minimal)
    } else if same_text(name, "regression") {
        Ok(SpacePreset::Regression)
    } else if same_text(name, "classification") {
        Ok(SpacePreset::Classification)
    } else if same_text(name, "exhaustive") {
        Ok(SpacePreset::Exhaustive)
    } else if same_text(name, "universal") {
        Ok(SpacePreset::Universal)
    } else {
        Err("unknown preset (use: minimal, regression, classification, exhaustive, universal)".to_owned())
    }
}

/// A ready-made space, by its name in any case.
pub fn parse_space_preset(name: &str) -> (found: Result<SpacePreset, String>)
    ensures
        understood(found, space_preset_meant(lowercase(name@)), "unknown preset (use: minimal, regression, classification, exhaustive, universal)"@),
{
    space_preset_named(to_lowercase(name).as_str())
}

/// How much a search spends, by its name in lower case.
pub open spec fn tuner_preset_meant(name: Seq<char>) -> Option<TunerPreset> {
    if name == "smoketest"@ || name == "smoke_test"@ {
        Some(TunerPreset::SmokeTest)
    } else if name == "quick"@ {
        Some(TunerPreset::Quick)
    } else if name == "balanced"@ {
        Some(TunerPreset::Balanced)
    } else if name == "thorough"@ {
        Some(TunerPreset::Thorough)
    } else {
        None
    }
}

/// How much a search spends, by its name in lower case.
pub fn tuner_preset_named(name: &str) -> (found: Result<TunerPreset, String>)
    ensures
        understood(found, tuner_preset_meant(name@), "unknown preset (use: smoketest, quick, balanced, thorough)"@),
{
    if same_text(name, "smoketest") || same_text(name, "smoke_test") {
        Ok(TunerPreset::SmokeTest)
    } else if same_text(name, "quick") {
        Ok(TunerPreset::Quick)
    } else if same_text(name, "balanced") {
        Ok(TunerPreset::Balanced)
    } else if same_text(name, "thorough") {
        Ok(TunerPreset::Thorough)
    } else {
        Err("unknown preset (use: smoketest, quick, balanced, thorough)".to_owned())
    }
}

/// How much a search spends, by its name in any case.
pub fn parse_tuner_preset(name: &str) -> (found: Result<TunerPreset, String>)
    ensures
        understood(found, tuner_preset_meant(lowercase(name@)), "unknown preset (use: smoketest, quick, balanced, thorough)"@),
{
    tuner_preset_named(to_lowercase(name).as_str())
}

/// The name of a backend.
pub open spec fn backend_text(backend: BackendType) -> Seq<char> {
    match backend {
        BackendType::Auto => "auto"@,
        BackendType::Scalar => "cpu"@,
        BackendType::Wgpu => "wgpu"@,
        BackendType::Avx512 => "avx512"@,
        BackendType::Sve2 => "sve2"@,
        BackendType::Cuda => "cuda"@,
        BackendType::Rocm => "rocm"@,
        BackendType::Metal => "metal"@,
    }
}

/// The name of a backend.
pub fn backend_name(backend: BackendType) -> (name: &'static str)
    ensures
        name@ == backend_text(backend),
{
    match backend {
        BackendType::Auto => "auto",
        BackendType::Scalar => "cpu",
        BackendType::Wgpu => "wgpu",
        BackendType::Avx512 => "avx512",
        BackendType::Sve2 => "sve2",
        BackendType::Cuda => "cuda",
        BackendType::Rocm => "rocm",
        BackendType::Metal => "metal",
    }
}

/// The name of a mode of a graphics card.
pub open spec fn gpu_mode_text(mode: GpuMode) -> Seq<char> {
    match mode {
        GpuMode::Auto => "auto"@,
        GpuMode::Hybrid => "hybrid"@,
        GpuMode::Full => "full"@,
    }
}

/// The name of a mode of a graphics card.
pub fn gpu_mode_name(mode: GpuMode) -> (name: &'static str)
    ensures
        name@ == gpu_mode_text(mode),
{
    match mode {
        GpuMode::Auto => "auto",
        GpuMode::Hybrid => "hybrid",
        GpuMode::Full => "full",
    }
}

/// The name of a mode of a graphics card stands for that mode.
pub proof fn law_gpu_mode_names_are_understood(mode: GpuMode)
    ensures
        gpu_mode_meant(gpu_mode_text(mode)) == Some(mode),
{
    reveal_strlit("auto");
    reveal_strlit("hybrid");
    reveal_strlit("full");
    assert("auto"@[0] == 'a' && "hybrid"@[0] == 'h' && "full"@[0] == 'f');
}

/// The name of a backend stands for that backend, except that the two vector
/// extensions are chosen by no name.
pub proof fn law_backend_names_are_understood(backend: BackendType)
    ensures
        backend_meant(backend_text(backend)) == if backend == BackendType::Avx512 || backend == BackendType::Sve2 {
            None
        } else {
            Some(backend)
        },
{
    reveal_strlit("auto");
    reveal_strlit("gpu");
    reveal_strlit("cpu");
    reveal_strlit("scalar");
    reveal_strlit("wgpu");
    reveal_strlit("cuda");
    reveal_strlit("rocm");
    reveal_strlit("metal");
    reveal_strlit("avx512");
    reveal_strlit("sve2");
    assert("auto"@.len() == 4 && "auto"@[0] == 'a');
    assert("gpu"@.len() == 3 && "gpu"@[0] == 'g');
    assert("cpu"@.len() == 3 && "cpu"@[0] == 'c');
    assert("scalar"@.len() == 6 && "scalar"@[0] == 's');
    assert("wgpu"@.len() == 4 && "wgpu"@[0] == 'w');
    assert("cuda"@.len() == 4 && "cuda"@[0] == 'c');
    assert("rocm"@.len() == 4 && "rocm"@[0] == 'r');
    assert("metal"@.len() == 5 && "metal"@[0] == 'm');
    assert("avx512"@.len() == 6 && "avx512"@[0] == 'a');
    assert("sve2"@.len() == 4 && "sve2"@[0] == 's');
}

} // verus!
