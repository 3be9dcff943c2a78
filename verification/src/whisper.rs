//! Catalogue of the speech-recognition models the pipeline can use:
//! their file names, download URLs, and where they live on disk.
use vstd::prelude::*;

verus! {

/// Size of the speech-recognition model. Larger models are slower and
/// more accurate.
#[derive(Debug, Clone, Copy, PartialEq, Eq, Structural)]
pub enum ModelSize {
    Tiny,
    Base,
    Small,
    Medium,
    Large,
}

/// File name under which a model of the given size is stored.
pub open spec fn spec_filename(size: ModelSize) -> Seq<char> {
    match size {
        ModelSize::Tiny => "ggml-tiny.bin"@,
        ModelSize::Base => "ggml-base.bin"@,
        ModelSize::Small => "ggml-small.bin"@,
        ModelSize::Medium => "ggml-medium.bin"@,
        ModelSize::Large => "ggml-large-v3.bin"@,
    }
}

/// URL a model of the given size is downloaded from.
pub open spec fn spec_download_url(size: ModelSize) -> Seq<char> {
    match size {
        ModelSize::Tiny => "https://huggingface.co/ggerganov/whisper.cpp/resolve/main/ggml-tiny.bin"@,
        ModelSize::Base => "https://huggingface.co/ggerganov/whisper.cpp/resolve/main/ggml-base.bin"@,
        ModelSize::Small => "https://huggingface.co/ggerganov/whisper.cpp/resolve/main/ggml-small.bin"@,
        ModelSize::Medium => "https://huggingface.co/ggerganov/whisper.cpp/resolve/main/ggml-medium.bin"@,
        ModelSize::Large => "https://huggingface.co/ggerganov/whisper.cpp/resolve/main/ggml-large-v3.bin"@,
    }
}

impl ModelSize {
    /// File name under which this model is stored.
    pub fn filename(&self) -> (name: &'static str)
        ensures
            name@ == spec_filename(*self),
    {
        match self {
            ModelSize::Tiny => "ggml-tiny.bin",
            ModelSize::Base => "ggml-base.bin",
            ModelSize::Small => "ggml-small.bin",
            ModelSize::Medium => "ggml-medium.bin",
            ModelSize::Large => "ggml-large-v3.bin",
        }
    }

    /// URL this model is downloaded from.
    pub fn download_url(&self) -> (url: &'static str)
        ensures
            url@ == spec_download_url(*self),
    {
        match self {
            ModelSize::Tiny => "https://huggingface.co/ggerganov/whisper.cpp/resolve/main/ggml-tiny.bin",
            ModelSize::Base => "https://huggingface.co/ggerganov/whisper.cpp/resolve/main/ggml-base.bin",
            ModelSize::Small => "https://huggingface.co/ggerganov/whisper.cpp/resolve/main/ggml-small.bin",
            ModelSize::Medium => "https://huggingface.co/ggerganov/whisper.cpp/resolve/main/ggml-medium.bin",
            ModelSize::Large => "https://huggingface.co/ggerganov/whisper.cpp/resolve/main/ggml-large-v3.bin",
        }
    }
}

/// The model size a user-facing name selects: only the sizes offered
/// for selection parse; every other name is rejected.
pub open spec fn spec_model_size_from_name(name: Seq<char>) -> Option<ModelSize> {
    if name == "small"@ {
        Some(ModelSize::Small)
    } else if name == "medium"@ {
        Some(ModelSize::Medium)
    } else if name == "large"@ {
        Some(ModelSize::Large)
    } else {
        None
    }
}

/// Parse a user-facing model name. Only the three selectable sizes are
/// accepted; anything else is `None`, which callers surface as an
/// invalid-size error.
pub fn model_size_from_name(name: &str) -> (size: Option<ModelSize>)
    ensures
        size == spec_model_size_from_name(name@),
{
    let owned: String = String::from_str(name);
    if owned == String::from_str("small") {
        Some(ModelSize::Small)
    } else if owned == String::from_str("medium") {
        Some(ModelSize::Medium)
    } else if owned == String::from_str("large") {
        Some(ModelSize::Large)
    } else {
        None
    }
}

/// Path of the model file of the given size inside the model directory.
/// Resolving the model directory itself queries the operating system and
/// is left to the caller.
pub fn get_model_path(model_dir: &str, size: ModelSize) -> (path: String)
    ensures
        path@ == model_dir@ + "/"@ + spec_filename(size),
{
    let mut path: String = String::from_str(model_dir);
    path.append("/");
    path.append(size.filename());
    path
}

} // verus!
