//! Transcript spans and the transcription capability.

use vstd::prelude::*;
use vstd::string::*;

verus! {

/// One time-bounded unit of transcribed text. Both bounds are inclusive and
/// counted in millionths of a second.
#[derive(Debug, Clone)]
pub struct AudioResult {
    pub start_time: i64,
    pub end_time: i64,
    pub text: String,
}

/// The mathematical content of an [`AudioResult`].
pub ghost struct AudioSpan {
    pub start_time: int,
    pub end_time: int,
    pub text: Seq<char>,
}

impl View for AudioResult {
    type V = AudioSpan;

    open spec fn view(&self) -> AudioSpan {
        AudioSpan { start_time: self.start_time as int, end_time: self.end_time as int, text: self.text@ }
    }
}

impl AudioSpan {
    /// Whether the instant `t` lies inside the span, bounds included.
    pub open spec fn covers(self, t: int) -> bool {
        self.start_time <= t <= self.end_time
    }
}

/// The views of a list of spans, in order.
pub open spec fn spans_view(spans: Seq<AudioResult>) -> Seq<AudioSpan> {
    Seq::new(spans.len(), |i: int| spans[i]@)
}

/// The transcript that the placeholder transcription gives for any audio:
/// two spans of five seconds each.
pub open spec fn sample_transcription() -> Seq<AudioSpan> {
    seq![
        AudioSpan {
            start_time: 0,
            end_time: 5_000_000,
            text: "Hello, this is a sample transcription"@,
        },
        AudioSpan {
            start_time: 5_000_000,
            end_time: 10_000_000,
            text: "This demonstrates audio processing capabilities"@,
        },
    ]
}

/// Transcribes the audio file at `audio_path` into chronological spans.
///
/// No recognition model is attached: every audio file gets the sample
/// transcription, and the call never fails.
pub fn transcribe_audio(audio_path: &str) -> (r: Result<Vec<AudioResult>, String>)
    ensures
        r matches Ok(spans) && spans_view(spans@) == sample_transcription(),
{
    let mut transcription: Vec<AudioResult> = Vec::new();
    transcription.push(
        AudioResult {
            start_time: 0,
            end_time: 5_000_000,
            text: String::from_str("Hello, this is a sample transcription"),
        },
    );
    transcription.push(
        AudioResult {
            start_time: 5_000_000,
            end_time: 10_000_000,
            text: String::from_str("This demonstrates audio processing capabilities"),
        },
    );
    assert(spans_view(transcription@) =~= sample_transcription());
    Ok(transcription)
}

} // verus!
