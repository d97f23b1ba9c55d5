use video_audio_processor::batch_processor::VideoProcessingResult;
use video_audio_processor::summary::{count_successful, generate_batch_summary};

fn success(name: &str, micros: u64, frames: usize, segments: usize) -> VideoProcessingResult {
    VideoProcessingResult {
        video_path: name.to_string(),
        processing_time: micros,
        frame_count: frames,
        audio_segments: segments,
        synchronized_results: Vec::new(),
        success: true,
        error_message: None,
    }
}

fn failure(name: &str, micros: u64, error: Option<&str>) -> VideoProcessingResult {
    VideoProcessingResult {
        video_path: name.to_string(),
        processing_time: micros,
        frame_count: 0,
        audio_segments: 0,
        synchronized_results: Vec::new(),
        success: false,
        error_message: error.map(|e| e.to_string()),
    }
}

#[test]
fn summary_of_a_mixed_batch() {
    let results = vec![
        success("a.mp4", 1_234_567, 300, 120),
        failure("b.mp4", 500_000, Some("Frame extraction failed: no video stream")),
    ];
    let expected = "=== Batch Processing Summary ===\n\
Total videos processed: 2\n\
Successful: 1\n\
Failed: 1\n\
Total processing time: 1.75s\n\
Average time per video: 0.88s\n\
\n\
=== Individual Results ===\n\
Video: \"a.mp4\"\n\
\x20 Status: SUCCESS\n\
\x20 Processing time: 1.23s\n\
\x20 Frames processed: 300\n\
\x20 Audio segments: 120\n\
\n\
Video: \"b.mp4\"\n\
\x20 Status: FAILED\n\
\x20 Processing time: 0.50s\n\
\x20 Error: Frame extraction failed: no video stream\n\
\n";
    assert_eq!(generate_batch_summary(&results, 1_750_000), expected);
}

#[test]
fn summary_of_an_empty_batch() {
    let expected = "=== Batch Processing Summary ===\n\
Total videos processed: 0\n\
Successful: 0\n\
Failed: 0\n\
Total processing time: 0.00s\n\
Average time per video: NaNs\n\
\n\
=== Individual Results ===\n";
    assert_eq!(generate_batch_summary(&Vec::new(), 0), expected);
}

#[test]
fn failure_without_message_has_no_error_line() {
    let text = generate_batch_summary(&vec![failure("c.mkv", 0, None)], 0);
    assert!(text.ends_with("Video: \"c.mkv\"\n  Status: FAILED\n  Processing time: 0.00s\n\n"));
}

#[test]
fn times_are_rounded_to_hundredths() {
    let text = generate_batch_summary(&vec![success("a", 4_999, 0, 0)], 5_000);
    assert!(text.contains("Total processing time: 0.01s\n"));
    assert!(text.contains("Average time per video: 0.01s\n"));
    assert!(text.contains("  Processing time: 0.00s\n"));
}

#[test]
fn average_is_the_total_over_the_count() {
    let results = vec![success("a", 0, 0, 0), success("b", 0, 0, 0), success("c", 0, 0, 0)];
    let text = generate_batch_summary(&results, 10_000_000);
    assert!(text.contains("Average time per video: 3.33s\n"));
}

#[test]
fn quotes_in_names_are_escaped() {
    let text = generate_batch_summary(&vec![success("my \"best\" \\ clip.mp4", 0, 1, 1)], 0);
    assert!(text.contains("Video: \"my \\\"best\\\" \\\\ clip.mp4\"\n"));
}

#[test]
fn successes_are_counted() {
    assert_eq!(count_successful(&Vec::new()), 0);
    let results =
        vec![success("a", 0, 0, 0), failure("b", 0, None), success("c", 0, 0, 0)];
    assert_eq!(count_successful(&results), 2);
}
