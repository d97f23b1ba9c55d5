use video_audio_processor::audio_processor::AudioResult;
use video_audio_processor::batch_processor::{
    analyze_frames, contains_ignoring_case, contains_text, count_audio_segments,
    output_directories, to_lowercase_all, AssetRun, AssetStage, BatchConfig, BatchError, BatchProcessor, DirEntry,
    PipelineFailure, SampledFrame,
};
use video_audio_processor::frame_analyzer::{FrameAnalyzer, FrameResult};
use video_audio_processor::ml_backend::{BackendError, FrameImage};
use video_audio_processor::synchronizer::SynchronizedResult;

fn processor() -> BatchProcessor {
    BatchProcessor::new(BatchConfig::default())
}

fn file(name: &str) -> DirEntry {
    DirEntry { name: name.to_string(), is_file: true }
}

fn directory(name: &str) -> DirEntry {
    DirEntry { name: name.to_string(), is_file: false }
}

fn span(start: i64, end: i64, text: &str) -> AudioResult {
    AudioResult { start_time: start, end_time: end, text: text.to_string() }
}

fn good_run(name: &str, stamps: &[i64]) -> AssetRun {
    AssetRun {
        video_path: name.to_string(),
        processing_time: 1_234_567,
        analysis: Ok((
            stamps.iter().map(|t| FrameResult { timestamp: *t, objects: Vec::new() }).collect(),
            vec![span(0, 5_000_000, "A"), span(5_000_000, 10_000_000, "B")],
        )),
    }
}

fn bad_run(name: &str, message: &str) -> AssetRun {
    AssetRun {
        video_path: name.to_string(),
        processing_time: 2_000_000,
        analysis: Err(message.to_string()),
    }
}

#[test]
fn default_batch_configuration() {
    let config = BatchConfig::default();
    assert_eq!(config.input_dir, "input_videos");
    assert_eq!(config.output_dir, "output_results");
    assert_eq!(config.video_extensions, vec!["mp4", "avi", "mov", "mkv", "wmv", "flv"]);
    assert_eq!(config.max_concurrent, 4);
}

#[test]
fn missing_input_directory_is_a_discovery_error() {
    assert_eq!(processor().find_video_files(None), Err(BatchError::Discovery));
}

#[test]
fn empty_directory_has_no_videos() {
    assert_eq!(processor().find_video_files(Some(&Vec::new())), Ok(Vec::new()));
}

#[test]
fn videos_are_found_by_extension_and_sorted() {
    let listing = vec![
        file("b.mp4"),
        file("notes.txt"),
        file("a.avi"),
        directory("folder.mp4"),
        file("c.webm"),
        file("noext"),
        file(".mp4"),
        file("z.flv"),
        file("archive.mp4.zip"),
    ];
    assert_eq!(
        processor().find_video_files(Some(&listing)),
        Ok(vec!["a.avi".to_string(), "b.mp4".to_string(), "z.flv".to_string()])
    );
}

#[test]
fn extensions_are_matched_whatever_their_case() {
    let listing = vec![file("clip.MP4"), file("Clip.Mov"), file("other.mKv")];
    assert_eq!(
        processor().find_video_files(Some(&listing)),
        Ok(vec!["Clip.Mov".to_string(), "clip.MP4".to_string(), "other.mKv".to_string()])
    );
}

#[test]
fn allow_list_is_matched_whatever_its_case() {
    let config = BatchConfig {
        input_dir: "in".to_string(),
        output_dir: "out".to_string(),
        video_extensions: vec!["MP4".to_string(), "Ogv".to_string()],
        max_concurrent: 1,
    };
    let processor = BatchProcessor::new(config);
    let listing = vec![file("a.mp4"), file("b.MP4"), file("c.OGV"), file("d.mkv")];
    assert_eq!(
        processor.find_video_files(Some(&listing)),
        Ok(vec!["a.mp4".to_string(), "b.MP4".to_string(), "c.OGV".to_string()])
    );
    assert!(processor.is_video_entry(&file("d.ogv")));
    assert!(!processor.is_video_entry(&directory("d.ogv")));
    assert!(!processor.is_video_entry(&file("d.ogg")));
}

#[test]
fn upper_case_allow_list_takes_a_lower_case_file() {
    let config = BatchConfig {
        input_dir: "in".to_string(),
        output_dir: "out".to_string(),
        video_extensions: vec!["MP4".to_string()],
        max_concurrent: 1,
    };
    let listing = vec![file("a.mp4")];
    assert_eq!(
        BatchProcessor::new(config).find_video_files(Some(&listing)),
        Ok(vec!["a.mp4".to_string()])
    );
}

#[test]
fn membership_ignoring_case() {
    let items = vec!["MP4".to_string(), "avi".to_string()];
    assert!(contains_ignoring_case(&items, "mp4"));
    assert!(contains_ignoring_case(&items, "Mp4"));
    assert!(contains_ignoring_case(&items, "AVI"));
    assert!(!contains_ignoring_case(&items, "mkv"));
    assert!(!contains_ignoring_case(&Vec::new(), "mp4"));
    assert_eq!(to_lowercase_all(&items), vec!["mp4", "avi"]);
}

#[test]
fn text_membership() {
    let items = vec!["mp4".to_string(), "avi".to_string()];
    assert!(contains_text(&items, &"avi".to_string()));
    assert!(!contains_text(&items, &"AVI".to_string()));
    assert!(!contains_text(&Vec::new(), &"avi".to_string()));
}

#[test]
fn empty_batch_reports_nothing() {
    let report = processor().process_batch(Vec::new(), 5);
    assert_eq!(report.total_videos, 0);
    assert_eq!(report.successful, 0);
    assert_eq!(report.failed, 0);
    assert_eq!(report.total_processing_time, 5);
    assert!(report.results.is_empty());
}

#[test]
fn one_failed_asset_among_two() {
    let runs = vec![
        good_run("a.mp4", &[1_000_000, 7_500_000, 12_000_000]),
        bad_run("b.mp4", "Frame extraction failed: no video stream"),
    ];
    let report = processor().process_batch(runs, 9_000_000);
    assert_eq!(report.results.len(), 2);
    assert_eq!(report.total_videos, 2);
    assert_eq!(report.successful, 1);
    assert_eq!(report.failed, 1);
    let good = &report.results[0];
    assert!(good.success);
    assert_eq!(good.video_path, "a.mp4");
    assert_eq!(good.frame_count, 3);
    assert_eq!(good.audio_segments, 2);
    assert_eq!(good.error_message, None);
    assert_eq!(good.synchronized_results.len(), 3);
    let bad = &report.results[1];
    assert!(!bad.success);
    assert_eq!(bad.video_path, "b.mp4");
    assert_eq!(bad.frame_count, 0);
    assert_eq!(bad.audio_segments, 0);
    assert!(bad.synchronized_results.is_empty());
    assert_eq!(bad.error_message, Some("Frame extraction failed: no video stream".to_string()));
}

#[test]
fn successes_and_failures_add_up_to_the_total() {
    for failing in 0..=6usize {
        let runs: Vec<AssetRun> = (0..6usize)
            .map(|k| {
                if k < failing {
                    bad_run("bad.mp4", "broken")
                } else {
                    good_run("good.mp4", &[0])
                }
            })
            .collect();
        let report = processor().process_batch(runs, 0);
        assert_eq!(report.results.len(), 6);
        assert_eq!(report.total_videos, 6);
        assert_eq!(report.failed, failing);
        assert_eq!(report.successful, 6 - failing);
        assert_eq!(report.successful + report.failed, report.total_videos);
    }
}

#[test]
fn outcome_of_a_successful_run() {
    let outcome = processor().process_single_video(good_run("clip.mp4", &[7_500_000, 12_000_000]));
    assert!(outcome.success);
    assert_eq!(outcome.processing_time, 1_234_567);
    assert_eq!(outcome.frame_count, 2);
    assert_eq!(outcome.audio_segments, 1);
    assert_eq!(outcome.synchronized_results[0].audio_text, Some("B".to_string()));
    assert_eq!(outcome.synchronized_results[1].audio_text, None);
}

#[test]
fn outcome_of_a_run_without_frames() {
    let outcome = processor().process_single_video(good_run("clip.mp4", &[]));
    assert!(outcome.success);
    assert_eq!(outcome.frame_count, 0);
    assert_eq!(outcome.audio_segments, 0);
}

#[test]
fn records_with_text_are_counted() {
    let record = |text: Option<&str>| SynchronizedResult {
        timestamp: 0,
        video_objects: Vec::new(),
        audio_text: text.map(|t| t.to_string()),
    };
    assert_eq!(count_audio_segments(&Vec::new()), 0);
    assert_eq!(
        count_audio_segments(&vec![record(Some("a")), record(None), record(Some("")), record(None)]),
        2
    );
}

#[test]
fn empty_batch_needs_no_analyzer() {
    assert!(processor().prepare_analyzer(0, "onnx", None).unwrap().is_none());
}

#[test]
fn batch_analyzer_is_loaded() {
    let analyzer = processor().prepare_analyzer(3, "mock", None).unwrap().unwrap();
    assert_eq!(analyzer.backend_name(), "Mock ML Backend");
    assert!(analyzer.process_frame(&FrameImage { width: 1, height: 1 }, 0).is_ok());
    let onnx = processor().prepare_analyzer(1, "ONNX", Some("m.onnx")).unwrap().unwrap();
    assert_eq!(onnx.backend_name(), "ONNX Runtime Backend");
}

#[test]
fn model_that_does_not_load_ends_the_batch() {
    assert_eq!(
        processor().prepare_analyzer(2, "onnx", None).unwrap_err(),
        BatchError::ModelLoad(BackendError::ModelPathRequired)
    );
}

#[test]
fn every_frame_is_analyzed_in_order() {
    let mut analyzer = FrameAnalyzer::new("candle").unwrap();
    analyzer.load_model(None).unwrap();
    let frames = vec![
        SampledFrame { timestamp: 10, image: FrameImage { width: 4, height: 3 } },
        SampledFrame { timestamp: 20, image: FrameImage { width: 0, height: 0 } },
        SampledFrame { timestamp: 30, image: FrameImage { width: 8, height: 6 } },
    ];
    let results = analyze_frames(&analyzer, &frames).unwrap();
    assert_eq!(results.len(), 3);
    assert_eq!(results[0].timestamp, 10);
    assert_eq!(results[0].objects[0].0, "candle_object_4x3");
    assert_eq!(results[1].timestamp, 20);
    assert_eq!(results[1].objects[0].0, "candle_object_0x0");
    assert_eq!(results[2].timestamp, 30);
    assert_eq!(results[2].objects[0].0, "candle_object_8x6");
}

#[test]
fn every_sampled_picture_becomes_a_record() {
    let mut analyzer = FrameAnalyzer::new("mock").unwrap();
    analyzer.load_model(None).unwrap();
    let timestamps: Vec<i64> = vec![0, 33_366, 66_733, 100_100, 7_500_000];
    let frames: Vec<SampledFrame> = timestamps
        .iter()
        .map(|t| SampledFrame { timestamp: *t, image: FrameImage { width: 2, height: 2 } })
        .collect();
    let run = AssetRun {
        video_path: "clip.mp4".to_string(),
        processing_time: 1,
        analysis: Ok((analyze_frames(&analyzer, &frames).unwrap(), vec![span(0, 1_000_000, "A")])),
    };
    let outcome = processor().process_single_video(run);
    assert!(outcome.success);
    assert_eq!(outcome.frame_count, timestamps.len());
    assert_eq!(outcome.synchronized_results.len(), timestamps.len());
    for (record, timestamp) in outcome.synchronized_results.iter().zip(&timestamps) {
        assert_eq!(record.timestamp, *timestamp);
    }
}

#[test]
fn unloaded_analyzer_fails_frame_processing() {
    let analyzer = FrameAnalyzer::new("mock").unwrap();
    let frames = vec![SampledFrame { timestamp: 10, image: FrameImage { width: 4, height: 3 } }];
    let failure = analyze_frames(&analyzer, &frames).unwrap_err();
    assert_eq!(failure.message(), "Frame processing failed: Model not loaded");
}

#[test]
fn no_frames_need_no_loaded_analyzer() {
    let analyzer = FrameAnalyzer::new("mock").unwrap();
    assert!(analyze_frames(&analyzer, &Vec::new()).unwrap().is_empty());
}

#[test]
fn failure_messages_name_the_stage() {
    assert_eq!(
        PipelineFailure::FrameExtraction("no stream".to_string()).message(),
        "Frame extraction failed: no stream"
    );
    assert_eq!(
        PipelineFailure::FrameProcessing("bad image".to_string()).message(),
        "Frame processing failed: bad image"
    );
    assert_eq!(
        PipelineFailure::AudioExtraction("no audio".to_string()).message(),
        "Audio extraction failed: no audio"
    );
    assert_eq!(PipelineFailure::Transcription("timeout".to_string()).message(), "timeout");
}

#[test]
fn asset_walks_through_every_stage() {
    let mut stage = AssetStage::Discovered;
    let expected = [
        AssetStage::FramesExtracted,
        AssetStage::Detected,
        AssetStage::AudioExtracted,
        AssetStage::Transcribed,
        AssetStage::Synchronized,
        AssetStage::PersistedSuccess,
        AssetStage::PersistedSuccess,
    ];
    for next in expected {
        stage = stage.advance(true);
        assert_eq!(stage, next);
    }
}

#[test]
fn a_failed_step_fails_the_asset() {
    for stage in [
        AssetStage::Discovered,
        AssetStage::FramesExtracted,
        AssetStage::Detected,
        AssetStage::AudioExtracted,
        AssetStage::Transcribed,
    ] {
        assert_eq!(stage.advance(false), AssetStage::PersistedFailed);
    }
    assert_eq!(AssetStage::PersistedFailed.advance(true), AssetStage::PersistedFailed);
}

#[test]
fn a_document_that_is_not_written_leaves_the_success() {
    assert_eq!(AssetStage::Synchronized.advance(false), AssetStage::PersistedSuccess);
    assert_eq!(AssetStage::PersistedSuccess.advance(false), AssetStage::PersistedSuccess);
}

fn directories(names: &[&str]) -> Vec<String> {
    output_directories(&names.iter().map(|n| n.to_string()).collect())
}

#[test]
fn output_directory_is_named_by_the_stem() {
    assert_eq!(directories(&["a.mp4", "b.avi", "clip.final.mov"]), vec!["a", "b", "clip.final"]);
    assert!(directories(&[]).is_empty());
}

#[test]
fn assets_with_one_stem_get_directories_of_their_own() {
    assert_eq!(directories(&["a.avi", "a.mp4", "b.mp4"]), vec!["a.avi", "a.mp4", "b"]);
}

#[test]
fn a_stem_that_is_another_assets_name_is_not_used() {
    assert_eq!(
        directories(&["a.avi", "a.mp4", "a.mp4.mkv"]),
        vec!["a.avi", "a.mp4", "a.mp4.mkv"]
    );
    assert_eq!(directories(&["clip", "clip.mp4"]), vec!["clip", "clip.mp4"]);
}

#[test]
fn output_directories_never_meet() {
    let names = ["a.avi", "a.mp4", "a.mp4.mkv", "b.mp4", "b", "c.flv", ".d.mp4", "..e.mp4", "a"];
    let out = directories(&names);
    assert_eq!(out.len(), names.len());
    for i in 0..out.len() {
        for j in (i + 1)..out.len() {
            assert_ne!(out[i], out[j]);
        }
    }
}

#[test]
fn videos_of_a_directory_are_listed_once_each() {
    let listing = vec![file("b.mp4"), file("a.mp4"), file("c.avi"), file("a.mov")];
    let files = processor().find_video_files(Some(&listing)).unwrap();
    assert_eq!(files, vec!["a.mov", "a.mp4", "b.mp4", "c.avi"]);
    assert_eq!(output_directories(&files), vec!["a.mov", "a.mp4", "b", "c"]);
}
