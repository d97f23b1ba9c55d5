use video_audio_processor::audio_processor::transcribe_audio;
use video_audio_processor::synchronizer::spans_are_ordered;

#[test]
fn placeholder_transcription() {
    let spans = transcribe_audio("out/a/audio.aac").unwrap();
    assert_eq!(spans.len(), 2);
    assert_eq!(spans[0].start_time, 0);
    assert_eq!(spans[0].end_time, 5_000_000);
    assert_eq!(spans[0].text, "Hello, this is a sample transcription");
    assert_eq!(spans[1].start_time, 5_000_000);
    assert_eq!(spans[1].end_time, 10_000_000);
    assert_eq!(spans[1].text, "This demonstrates audio processing capabilities");
}

#[test]
fn placeholder_transcription_is_ordered() {
    assert!(spans_are_ordered(&transcribe_audio("any").unwrap()));
}
