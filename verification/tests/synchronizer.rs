use video_audio_processor::audio_processor::AudioResult;
use video_audio_processor::frame_analyzer::FrameResult;
use video_audio_processor::synchronizer::{
    find_transcript, format_results, spans_are_ordered, synchronize_results, SynchronizedResult,
};

fn span(start: i64, end: i64, text: &str) -> AudioResult {
    AudioResult { start_time: start, end_time: end, text: text.to_string() }
}

fn two_spans() -> Vec<AudioResult> {
    vec![span(0, 5_000_000, "A"), span(5_000_000, 10_000_000, "B")]
}

fn frame(timestamp: i64) -> FrameResult {
    FrameResult { timestamp, objects: Vec::new() }
}

fn texts(records: &[SynchronizedResult]) -> Vec<Option<String>> {
    records.iter().map(|r| r.audio_text.clone()).collect()
}

#[test]
fn frame_inside_second_span_gets_its_text() {
    let records = synchronize_results(vec![frame(7_500_000)], two_spans());
    assert_eq!(records.len(), 1);
    assert_eq!(records[0].timestamp, 7_500_000);
    assert_eq!(records[0].audio_text, Some("B".to_string()));
}

#[test]
fn frame_after_all_spans_has_no_text() {
    let records = synchronize_results(vec![frame(12_000_000)], two_spans());
    assert_eq!(records.len(), 1);
    assert_eq!(records[0].audio_text, None);
}

#[test]
fn frame_before_all_spans_has_no_text() {
    let records = synchronize_results(vec![frame(-1)], two_spans());
    assert_eq!(records[0].audio_text, None);
}

#[test]
fn span_bounds_are_inclusive() {
    let records = synchronize_results(vec![frame(0), frame(10_000_000)], two_spans());
    assert_eq!(texts(&records), vec![Some("A".to_string()), Some("B".to_string())]);
}

#[test]
fn first_span_wins_at_a_shared_boundary() {
    let records = synchronize_results(vec![frame(5_000_000)], two_spans());
    assert_eq!(records[0].audio_text, Some("A".to_string()));
}

#[test]
fn first_span_wins_when_spans_overlap() {
    let spans = vec![span(0, 8_000_000, "long"), span(2_000_000, 3_000_000, "short")];
    assert_eq!(find_transcript(&spans, 2_500_000), Some("long".to_string()));
    let swapped = vec![span(2_000_000, 3_000_000, "short"), span(0, 8_000_000, "long")];
    assert_eq!(find_transcript(&swapped, 2_500_000), Some("short".to_string()));
}

#[test]
fn one_record_per_frame_in_frame_order() {
    let frames = vec![frame(1_000_000), frame(6_000_000), frame(11_000_000), frame(2_000_000)];
    let records = synchronize_results(frames, two_spans());
    let stamps: Vec<i64> = records.iter().map(|r| r.timestamp).collect();
    assert_eq!(stamps, vec![1_000_000, 6_000_000, 11_000_000, 2_000_000]);
    assert_eq!(
        texts(&records),
        vec![Some("A".to_string()), Some("B".to_string()), None, Some("A".to_string())]
    );
}

#[test]
fn no_frames_give_no_records() {
    assert!(synchronize_results(Vec::new(), two_spans()).is_empty());
}

#[test]
fn no_spans_give_records_without_text() {
    let records = synchronize_results(vec![frame(0), frame(1)], Vec::new());
    assert_eq!(texts(&records), vec![None, None]);
}

#[test]
fn records_keep_the_objects_of_their_frame() {
    let objects = vec![
        ("cat".to_string(), 910_000u32, [1i64, 2, 3, 4]),
        ("dog".to_string(), 100_000u32, [5i64, 6, 7, 8]),
    ];
    let frames = vec![FrameResult { timestamp: 3, objects: objects.clone() }];
    let records = synchronize_results(frames, Vec::new());
    assert_eq!(records[0].video_objects, objects);
}

#[test]
fn reordering_frames_reorders_records() {
    let stamps = [7_500_000i64, 12_000_000, 1_000_000, 5_000_000];
    let order = [2usize, 0, 3, 1];
    let straight = synchronize_results(stamps.iter().map(|t| frame(*t)).collect(), two_spans());
    let shuffled =
        synchronize_results(order.iter().map(|k| frame(stamps[*k])).collect(), two_spans());
    for (position, k) in order.iter().enumerate() {
        assert_eq!(shuffled[position].timestamp, straight[*k].timestamp);
        assert_eq!(shuffled[position].audio_text, straight[*k].audio_text);
    }
}

#[test]
fn ordered_spans_are_accepted() {
    assert!(spans_are_ordered(&two_spans()));
    assert!(spans_are_ordered(&Vec::new()));
    assert!(spans_are_ordered(&vec![span(3, 3, "point")]));
}

#[test]
fn overlapping_spans_are_refused() {
    assert!(!spans_are_ordered(&vec![span(0, 6, "a"), span(5, 10, "b")]));
}

#[test]
fn unsorted_spans_are_refused() {
    assert!(!spans_are_ordered(&vec![span(5, 10, "b"), span(0, 5, "a")]));
    assert!(!spans_are_ordered(&vec![span(0, 1, "a"), span(2, 3, "b"), span(1, 2, "c")]));
}

#[test]
fn a_span_that_ends_before_it_starts_is_refused() {
    assert!(!spans_are_ordered(&vec![span(4, 3, "backwards")]));
}

#[test]
fn report_of_no_records_is_the_heading() {
    assert_eq!(
        format_results(&Vec::new()),
        "\n=== Synchronized Video and Audio Analysis Results ===\n\n"
    );
}

#[test]
fn report_shows_objects_and_text() {
    let records = vec![
        SynchronizedResult {
            timestamp: 7_500_000,
            video_objects: vec![(
                "candle_object_640x480".to_string(),
                910_000,
                [80_000_000, 50_000_000, 180_000_000, 150_000_000],
            )],
            audio_text: Some("B".to_string()),
        },
        SynchronizedResult { timestamp: 12_004_999, video_objects: Vec::new(), audio_text: None },
    ];
    let expected = "\n=== Synchronized Video and Audio Analysis Results ===\n\n\
Timestamp: 7.50s\n  Video Objects:\n    - candle_object_640x480: 91.00% confidence at [80.0, 50.0, 180.0, 150.0]\n  Audio: \"B\"\n\n\
Timestamp: 12.00s\n\n";
    assert_eq!(format_results(&records), expected);
}
