//! Alignment of per-frame detections with transcript spans by timestamp.

use vstd::prelude::*;
use vstd::string::*;
use crate::audio_processor::{AudioResult, AudioSpan, spans_view};
use crate::frame_analyzer::{FrameResult, FrameView, frames_view, object_view, objects_view};
use crate::ml_backend::DetectionView;
use crate::text::{fixed_text, push_fixed, push_signed_fixed, signed_fixed_text};

verus! {

/// One frame's detections together with the transcript text spoken at that
/// instant, if any.
#[derive(Debug)]
pub struct SynchronizedResult {
    pub timestamp: i64,
    pub video_objects: Vec<(String, u32, [i64; 4])>,
    pub audio_text: Option<String>,
}

/// The mathematical content of a [`SynchronizedResult`].
pub ghost struct RecordView {
    pub timestamp: int,
    pub video_objects: Seq<DetectionView>,
    pub audio_text: Option<Seq<char>>,
}

impl View for SynchronizedResult {
    type V = RecordView;

    open spec fn view(&self) -> RecordView {
        RecordView {
            timestamp: self.timestamp as int,
            video_objects: objects_view(self.video_objects@),
            audio_text: match self.audio_text {
                Some(s) => Some(s@),
                None => None,
            },
        }
    }
}

/// The views of a list of records, in order.
pub open spec fn records_view(records: Seq<SynchronizedResult>) -> Seq<RecordView> {
    Seq::new(records.len(), |i: int| records[i]@)
}

/// Position of the first span, in list order, that covers `t`; `None` when
/// no span does.
pub open spec fn first_covering(spans: Seq<AudioSpan>, t: int) -> Option<int>
    decreases spans.len(),
{
    if spans.len() == 0 {
        None
    } else if spans[0].covers(t) {
        Some(0)
    } else {
        match first_covering(spans.drop_first(), t) {
            Some(i) => Some(i + 1),
            None => None,
        }
    }
}

/// The text attached to the instant `t`: that of the first covering span.
pub open spec fn transcript_at(spans: Seq<AudioSpan>, t: int) -> Option<Seq<char>> {
    match first_covering(spans, t) {
        Some(i) => Some(spans[i].text),
        None => None,
    }
}

/// The record that a frame yields against a list of spans.
pub open spec fn aligned_record(frame: FrameView, spans: Seq<AudioSpan>) -> RecordView {
    RecordView {
        timestamp: frame.timestamp,
        video_objects: frame.objects,
        audio_text: transcript_at(spans, frame.timestamp),
    }
}

/// The record stream for a list of frames: one record per frame, in frame order.
pub open spec fn aligned_records(frames: Seq<FrameView>, spans: Seq<AudioSpan>) -> Seq<RecordView> {
    Seq::new(frames.len(), |i: int| aligned_record(frames[i], spans))
}

/// Whether `i` is the position of the first span that covers `t`.
pub open spec fn is_first_covering(spans: Seq<AudioSpan>, t: int, i: int) -> bool {
    &&& 0 <= i < spans.len()
    &&& spans[i].covers(t)
    &&& forall|j: int| 0 <= j < i ==> !(#[trigger] spans[j]).covers(t)
}

/// `first_covering` finds the first covering position exactly when one exists.
pub proof fn lemma_first_covering(spans: Seq<AudioSpan>, t: int)
    ensures
        match first_covering(spans, t) {
            Some(i) => is_first_covering(spans, t, i),
            None => forall|j: int| 0 <= j < spans.len() ==> !(#[trigger] spans[j]).covers(t),
        },
    decreases spans.len(),
{
    if spans.len() > 0 && !spans[0].covers(t) {
        let rest = spans.drop_first();
        lemma_first_covering(rest, t);
        match first_covering(rest, t) {
            Some(i) => {
                assert(spans[i + 1] == rest[i]);
                assert forall|j: int| 0 <= j < i + 1 implies !(#[trigger] spans[j]).covers(t) by {
                    if j > 0 {
                        assert(spans[j] == rest[j - 1]);
                    }
                }
            },
            None => {
                assert forall|j: int| 0 <= j < spans.len() implies !(#[trigger] spans[j]).covers(
                    t,
                ) by {
                    if j > 0 {
                        assert(spans[j] == rest[j - 1]);
                    }
                }
            },
        }
    }
}

/// Spans in chronological order that do not overlap: each span starts no
/// later than it ends, and ends no later than any later one starts. Two
/// neighbours may share a boundary instant.
pub open spec fn spans_ordered(spans: Seq<AudioSpan>) -> bool {
    &&& forall|i: int| 0 <= i < spans.len() ==> (#[trigger] spans[i]).start_time <= spans[i].end_time
    &&& forall|i: int, j: int|
        0 <= i < j < spans.len() ==> (#[trigger] spans[i]).end_time <= (#[trigger] spans[j]).start_time
}

/// `items` rearranged so that position `k` holds the element at `order[k]`.
pub open spec fn reordered<T>(items: Seq<T>, order: Seq<int>) -> Seq<T> {
    Seq::new(order.len(), |k: int| items[order[k]])
}

/// When exactly one span covers the instant `t`, the transcript at `t` is
/// that span's text.
pub proof fn lemma_transcript_is_unique_cover(spans: Seq<AudioSpan>, t: int, i: int)
    requires
        0 <= i < spans.len(),
        spans[i].covers(t),
        forall|j: int| 0 <= j < spans.len() && j != i ==> !(#[trigger] spans[j]).covers(t),
    ensures
        transcript_at(spans, t) == Some(spans[i].text),
{
    lemma_first_covering(spans, t);
    match first_covering(spans, t) {
        Some(k) => {
            assert(spans[k].covers(t));
        },
        None => {
            assert(!spans[i].covers(t));
        },
    }
}

/// The transcript at `t` is absent exactly when no span covers `t`.
pub proof fn lemma_transcript_absent_iff_uncovered(spans: Seq<AudioSpan>, t: int)
    ensures
        transcript_at(spans, t) is None <==> forall|j: int|
            0 <= j < spans.len() ==> !(#[trigger] spans[j]).covers(t),
{
    lemma_first_covering(spans, t);
    match first_covering(spans, t) {
        Some(k) => {
            assert(spans[k].covers(t));
        },
        None => {},
    }
}

/// In an ordered list, two different spans can cover the same instant only
/// where the earlier one ends and the later one starts.
pub proof fn lemma_ordered_spans_meet_at_boundary(spans: Seq<AudioSpan>, t: int, i: int, j: int)
    requires
        spans_ordered(spans),
        0 <= i < j < spans.len(),
        spans[i].covers(t),
        spans[j].covers(t),
    ensures
        t == spans[i].end_time,
        t == spans[j].start_time,
{
}

/// Over ordered spans, the transcript at an instant that a span covers is
/// that span's text, unless an earlier span ends at that very instant.
pub proof fn lemma_transcript_of_ordered_spans(spans: Seq<AudioSpan>, t: int, i: int)
    requires
        spans_ordered(spans),
        0 <= i < spans.len(),
        spans[i].covers(t),
        forall|j: int| 0 <= j < i ==> (#[trigger] spans[j]).end_time != t,
    ensures
        transcript_at(spans, t) == Some(spans[i].text),
{
    lemma_first_covering(spans, t);
    match first_covering(spans, t) {
        Some(k) => {
            if k < i {
                lemma_ordered_spans_meet_at_boundary(spans, t, k, i);
                assert(spans[k].end_time != t);
            } else if i < k {
                assert(!spans[i].covers(t));
            }
        },
        None => {
            assert(!spans[i].covers(t));
        },
    }
}

/// Each record depends on its own frame alone: aligning a rearranged frame
/// list gives the same rearrangement of the aligned records.
pub proof fn lemma_alignment_commutes_with_reordering(
    frames: Seq<FrameView>,
    spans: Seq<AudioSpan>,
    order: Seq<int>,
)
    requires
        forall|k: int| 0 <= k < order.len() ==> 0 <= #[trigger] order[k] < frames.len(),
    ensures
        aligned_records(reordered(frames, order), spans) == reordered(
            aligned_records(frames, spans),
            order,
        ),
{
    assert(aligned_records(reordered(frames, order), spans) =~= reordered(
        aligned_records(frames, spans),
        order,
    ));
}

/// The record stream has one record per frame, with the frame's timestamp.
pub proof fn lemma_one_record_per_frame(frames: Seq<FrameView>, spans: Seq<AudioSpan>)
    ensures
        aligned_records(frames, spans).len() == frames.len(),
        forall|i: int|
            0 <= i < frames.len() ==> (#[trigger] aligned_records(frames, spans)[i]).timestamp
                == frames[i].timestamp,
{
}

/// Checks that the spans are in chronological order and do not overlap.
pub fn spans_are_ordered(spans: &Vec<AudioResult>) -> (ordered: bool)
    ensures
        ordered == spans_ordered(spans_view(spans@)),
{
    let ghost view = spans_view(spans@);
    let mut i: usize = 0;
    while i < spans.len()
        invariant
            i <= spans.len(),
            view == spans_view(spans@),
            spans_ordered(view.take(i as int)),
        decreases spans.len() - i,
    {
        let span = &spans[i];
        assert(view[i as int] == span@);
        if span.start_time > span.end_time {
            return false;
        }
        if i > 0 {
            let before = &spans[i - 1];
            assert(view[i - 1] == before@);
            if before.end_time > span.start_time {
                return false;
            }
        }
        proof {
            let head = view.take(i as int);
            let next = view.take(i + 1);
            assert forall|a: int, b: int| 0 <= a < b < next.len() implies (#[trigger] next[a]).end_time
                <= (#[trigger] next[b]).start_time by {
                if b < i {
                    assert(head[a] == next[a] && head[b] == next[b]);
                } else if a < i - 1 {
                    assert(head[a] == next[a] && head[i - 1] == next[i - 1]);
                    assert(head[a].end_time <= head[i - 1].start_time);
                    assert(head[i - 1].start_time <= head[i - 1].end_time);
                }
            }
            assert forall|a: int| 0 <= a < next.len() implies (#[trigger] next[a]).start_time
                <= next[a].end_time by {
                if a < i {
                    assert(head[a] == next[a]);
                }
            }
        }
        i += 1;
    }
    assert(view.take(i as int) =~= view);
    true
}

/// The text of the first span of `spans` that covers the instant `t`.
pub fn find_transcript(spans: &Vec<AudioResult>, t: i64) -> (text: Option<String>)
    ensures
        match text {
            Some(s) => transcript_at(spans_view(spans@), t as int) == Some(s@),
            None => transcript_at(spans_view(spans@), t as int) is None,
        },
{
    let ghost view = spans_view(spans@);
    let mut j: usize = 0;
    while j < spans.len()
        invariant
            j <= spans.len(),
            view == spans_view(spans@),
            forall|k: int| 0 <= k < j ==> !(#[trigger] view[k]).covers(t as int),
        decreases spans.len() - j,
    {
        let span = &spans[j];
        if span.start_time <= t && t <= span.end_time {
            assert(view[j as int] == span@);
            assert(view[j as int].covers(t as int));
            assert(first_covering(view, t as int) == Some(j as int)) by {
                lemma_first_covering(view, t as int);
                match first_covering(view, t as int) {
                    Some(i) => {
                        if i < j {
                            assert(!view[i].covers(t as int));
                        } else if j < i {
                            assert(!view[j as int].covers(t as int));
                        }
                    },
                    None => {},
                }
            }
            return Some(span.text.clone());
        }
        j += 1;
    }
    proof {
        lemma_first_covering(view, t as int);
    }
    None
}

/// Aligns every frame with the transcript: one record per frame, in frame
/// order, carrying the frame's detections and the text of the first span
/// whose inclusive bounds contain the frame's timestamp.
pub fn synchronize_results(
    frame_results: Vec<FrameResult>,
    audio_results: Vec<AudioResult>,
) -> (synchronized: Vec<SynchronizedResult>)
    ensures
        records_view(synchronized@) == aligned_records(
            frames_view(frame_results@),
            spans_view(audio_results@),
        ),
{
    let mut synchronized: Vec<SynchronizedResult> = Vec::new();
    let ghost frames = frames_view(frame_results@);
    let ghost spans = spans_view(audio_results@);
    for frame_result in it: frame_results.into_iter()
        invariant
            spans == spans_view(audio_results@),
            frames == frames_view(it.seq()),
            synchronized@.len() == it.index(),
            forall|i: int|
                0 <= i < it.index() ==> (#[trigger] synchronized@[i])@ == aligned_record(
                    frames[i],
                    spans,
                ),
    {
        let timestamp = frame_result.timestamp;
        let audio_text = find_transcript(&audio_results, timestamp);
        synchronized.push(SynchronizedResult {
            timestamp,
            video_objects: frame_result.objects,
            audio_text,
        });
    }
    assert(records_view(synchronized@) =~= aligned_records(frames, spans));
    synchronized
}

/// One detected object as the console report shows it: label, confidence
/// in percent with two decimals, and the box with one decimal per corner.
pub open spec fn object_line(object: DetectionView) -> Seq<char> {
    "    - "@ + object.label + ": "@ + fixed_text((object.confidence * 100) as nat, 2)
        + "% confidence at ["@ + signed_fixed_text(object.bbox[0], 1) + ", "@ + signed_fixed_text(
        object.bbox[1],
        1,
    ) + ", "@ + signed_fixed_text(object.bbox[2], 1) + ", "@ + signed_fixed_text(
        object.bbox[3],
        1,
    ) + "]\n"@
}

/// The lines of the objects from position `from` on.
pub open spec fn object_lines(objects: Seq<DetectionView>, from: int) -> Seq<char>
    decreases objects.len() - from,
{
    if 0 <= from < objects.len() {
        object_line(objects[from]) + object_lines(objects, from + 1)
    } else {
        Seq::empty()
    }
}

/// The objects of a record as the console report shows them: a heading
/// and one line per object, or nothing for a record without objects.
pub open spec fn objects_block(objects: Seq<DetectionView>) -> Seq<char> {
    if objects.len() == 0 {
        Seq::empty()
    } else {
        "  Video Objects:\n"@ + object_lines(objects, 0)
    }
}

/// The transcript of a record as the console report shows it.
pub open spec fn audio_line(text: Option<Seq<char>>) -> Seq<char> {
    match text {
        Some(t) => "  Audio: \""@ + t + "\"\n"@,
        None => Seq::empty(),
    }
}

/// One record as the console report shows it, closed by an empty line.
pub open spec fn record_block(record: RecordView) -> Seq<char> {
    "Timestamp: "@ + signed_fixed_text(record.timestamp, 2) + "s\n"@ + objects_block(
        record.video_objects,
    ) + audio_line(record.audio_text) + "\n"@
}

/// The blocks of the records from position `from` on.
pub open spec fn record_blocks(records: Seq<RecordView>, from: int) -> Seq<char>
    decreases records.len() - from,
{
    if 0 <= from < records.len() {
        record_block(records[from]) + record_blocks(records, from + 1)
    } else {
        Seq::empty()
    }
}

/// The console report of a record stream.
pub open spec fn report_text(records: Seq<RecordView>) -> Seq<char> {
    "\n=== Synchronized Video and Audio Analysis Results ===\n\n"@ + record_blocks(records, 0)
}

/// Appends the line of one detected object to `out`.
fn push_object_line(out: &mut String, object: &(String, u32, [i64; 4]))
    ensures
        final(out)@ == old(out)@ + object_line(object_view(*object)),
{
    out.append("    - ");
    out.append(object.0.as_str());
    out.append(": ");
    push_fixed(out, (object.1 as u64) * 100, 2);
    out.append("% confidence at [");
    push_signed_fixed(out, object.2[0], 1);
    out.append(", ");
    push_signed_fixed(out, object.2[1], 1);
    out.append(", ");
    push_signed_fixed(out, object.2[2], 1);
    out.append(", ");
    push_signed_fixed(out, object.2[3], 1);
    out.append("]\n");
    assert(final(out)@ =~= old(out)@ + object_line(object_view(*object)));
}

/// Appends the objects of a record to `out`.
fn push_objects_block(out: &mut String, objects: &Vec<(String, u32, [i64; 4])>)
    ensures
        final(out)@ == old(out)@ + objects_block(objects_view(objects@)),
{
    let ghost view = objects_view(objects@);
    if objects.len() > 0 {
        out.append("  Video Objects:\n");
        let ghost head = out@;
        let mut j: usize = 0;
        while j < objects.len()
            invariant
                j <= objects.len(),
                view == objects_view(objects@),
                out@ + object_lines(view, j as int) == head + object_lines(view, 0),
            decreases objects.len() - j,
        {
            let ghost before = out@;
            push_object_line(out, &objects[j]);
            assert(view[j as int] == object_view(objects@[j as int]));
            assert(out@ + object_lines(view, j + 1) =~= before + object_lines(view, j as int));
            j += 1;
        }
        assert(out@ =~= head + object_lines(view, 0));
    }
    assert(final(out)@ =~= old(out)@ + objects_block(view));
}

/// Appends the block of one record to `out`.
fn push_record_block(out: &mut String, record: &SynchronizedResult)
    ensures
        final(out)@ == old(out)@ + record_block(record@),
{
    out.append("Timestamp: ");
    push_signed_fixed(out, record.timestamp, 2);
    out.append("s\n");
    push_objects_block(out, &record.video_objects);
    let ghost before = out@;
    match &record.audio_text {
        Some(text) => {
            out.append("  Audio: \"");
            out.append(text.as_str());
            out.append("\"\n");
        },
        None => {},
    }
    assert(out@ =~= before + audio_line(record@.audio_text));
    out.append("\n");
    assert(final(out)@ =~= old(out)@ + record_block(record@));
}

/// The console report of a record stream: a heading, then for every
/// record its timestamp, its objects and its transcript text.
pub fn format_results(results: &Vec<SynchronizedResult>) -> (text: String)
    ensures
        text@ == report_text(records_view(results@)),
{
    let ghost records = records_view(results@);
    let mut out = String::from_str(
        "\n=== Synchronized Video and Audio Analysis Results ===\n\n",
    );
    let ghost head = out@;
    let mut i: usize = 0;
    while i < results.len()
        invariant
            i <= results.len(),
            records == records_view(results@),
            out@ + record_blocks(records, i as int) == head + record_blocks(records, 0),
        decreases results.len() - i,
    {
        let ghost before = out@;
        push_record_block(&mut out, &results[i]);
        assert(records[i as int] == results@[i as int]@);
        assert(out@ + record_blocks(records, i + 1) =~= before + record_blocks(records, i as int));
        i += 1;
    }
    assert(out@ =~= head + record_blocks(records, 0));
    out
}

} // verus!
