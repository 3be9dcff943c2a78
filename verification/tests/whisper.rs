use voice_capture::whisper::{get_model_path, model_size_from_name, ModelSize};

#[test]
fn model_size_parses_only_selectable_names() {
    assert_eq!(model_size_from_name("small"), Some(ModelSize::Small));
    assert_eq!(model_size_from_name("medium"), Some(ModelSize::Medium));
    assert_eq!(model_size_from_name("large"), Some(ModelSize::Large));
    assert_eq!(model_size_from_name("tiny"), None);
    assert_eq!(model_size_from_name(""), None);
}

#[test]
fn model_filenames() {
    assert_eq!(ModelSize::Tiny.filename(), "ggml-tiny.bin");
    assert_eq!(ModelSize::Base.filename(), "ggml-base.bin");
    assert_eq!(ModelSize::Small.filename(), "ggml-small.bin");
    assert_eq!(ModelSize::Medium.filename(), "ggml-medium.bin");
    assert_eq!(ModelSize::Large.filename(), "ggml-large-v3.bin");
}

#[test]
fn model_download_urls() {
    assert_eq!(
        ModelSize::Small.download_url(),
        "https://huggingface.co/ggerganov/whisper.cpp/resolve/main/ggml-small.bin"
    );
    assert_eq!(
        ModelSize::Tiny.download_url(),
        "https://huggingface.co/ggerganov/whisper.cpp/resolve/main/ggml-tiny.bin"
    );
    assert!(ModelSize::Large.download_url().ends_with(ModelSize::Large.filename()));
}

#[test]
fn model_path_joins_directory_and_filename() {
    assert_eq!(
        get_model_path("/data/models", ModelSize::Medium),
        "/data/models/ggml-medium.bin".to_string()
    );
}
