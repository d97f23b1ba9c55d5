use video_audio_processor::config::ProcessingConfig;

#[test]
fn default_processing_configuration() {
    let config = ProcessingConfig::default();
    assert_eq!(config.batch.input_directory, "input_videos");
    assert_eq!(config.batch.output_directory, "output_results");
    assert_eq!(
        config.batch.video_extensions,
        vec!["mp4", "avi", "mov", "mkv", "wmv", "flv", "webm"]
    );
    assert_eq!(config.batch.max_concurrent_videos, 4);
    assert!(config.batch.skip_existing);
    assert_eq!(config.ml_models.video_model_path, None);
    assert_eq!(config.ml_models.audio_model_path, None);
    assert_eq!(config.ml_models.confidence_threshold, 500_000);
    assert!(config.ml_models.use_gpu);
    assert!(!config.output.save_frames);
    assert!(!config.output.save_audio);
    assert_eq!(config.output.output_format, "json");
    assert!(config.output.include_timestamps);
}
