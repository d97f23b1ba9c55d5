//! The per-asset result document: an array of records, each with its
//! timestamp, its detected objects and its transcript text.

use vstd::prelude::*;
use vstd::string::*;
use crate::ml_backend::DetectionView;
use crate::synchronizer::{RecordView, SynchronizedResult, records_view};
use crate::frame_analyzer::{object_view, objects_view};
use crate::text::{
    fixed_text, push_char, push_fixed, push_quoted, push_signed_fixed, quoted, signed_fixed_text,
};

verus! {

/// A box as the document writes it: its four corners, each with six
/// decimals, between square brackets.
pub open spec fn bbox_text(bbox: Seq<int>) -> Seq<char> {
    seq!['['] + signed_fixed_text(bbox[0], 6) + ", "@ + signed_fixed_text(bbox[1], 6) + ", "@
        + signed_fixed_text(bbox[2], 6) + ", "@ + signed_fixed_text(bbox[3], 6) + seq![']']
}

/// What closes an element of an array: a comma unless it is the last, and
/// the end of the line.
pub open spec fn element_end(last: bool) -> Seq<char> {
    if last {
        "\n"@
    } else {
        ",\n"@
    }
}

/// One detected object as the document writes it, without what closes it
/// as an element.
pub open spec fn object_text(object: DetectionView) -> Seq<char> {
    "      {\n        \"label\": "@ + quoted(object.label) + ",\n        \"confidence\": "@
        + fixed_text(object.confidence as nat, 6) + ",\n        \"bbox\": "@ + bbox_text(
        object.bbox,
    ) + "\n      }"@
}

/// The objects from position `from` on, as the document writes them.
pub open spec fn objects_text(objects: Seq<DetectionView>, from: int) -> Seq<char>
    decreases objects.len() - from,
{
    if 0 <= from < objects.len() {
        object_text(objects[from]) + element_end(from == objects.len() - 1) + objects_text(
            objects,
            from + 1,
        )
    } else {
        Seq::empty()
    }
}

/// The transcript text of a record as the document writes it: the text
/// between quotes, or `null` where there is none.
pub open spec fn audio_text_value(text: Option<Seq<char>>) -> Seq<char> {
    match text {
        Some(t) => quoted(t),
        None => "null"@,
    }
}

/// The opening of a record: its timestamp and the start of its objects.
pub open spec fn record_head_text(record: RecordView) -> Seq<char> {
    "  {\n    \"timestamp\": "@ + signed_fixed_text(record.timestamp, 6)
        + ",\n    \"video_objects\": [\n"@
}

/// The closing of a record: the end of its objects and its transcript text.
pub open spec fn record_tail_text(record: RecordView) -> Seq<char> {
    "    ],\n"@ + "    \"audio_text\": "@ + audio_text_value(record.audio_text) + "\n  }"@
}

/// One record as the document writes it, without what closes it as an
/// element.
pub open spec fn record_text(record: RecordView) -> Seq<char> {
    record_head_text(record) + objects_text(record.video_objects, 0) + record_tail_text(record)
}

/// The records from position `from` on, as the document writes them.
pub open spec fn records_text(records: Seq<RecordView>, from: int) -> Seq<char>
    decreases records.len() - from,
{
    if 0 <= from < records.len() {
        record_text(records[from]) + element_end(from == records.len() - 1) + records_text(
            records,
            from + 1,
        )
    } else {
        Seq::empty()
    }
}

/// The whole document for a list of records.
pub open spec fn document_text(records: Seq<RecordView>) -> Seq<char> {
    "[\n"@ + records_text(records, 0) + "]\n"@
}

/// Appends a box to `out`.
fn push_bbox(out: &mut String, bbox: &[i64; 4])
    ensures
        final(out)@ == old(out)@ + bbox_text(crate::ml_backend::bbox_view(*bbox)),
{
    push_char(out, '[');
    push_signed_fixed(out, bbox[0], 6);
    out.append(", ");
    push_signed_fixed(out, bbox[1], 6);
    out.append(", ");
    push_signed_fixed(out, bbox[2], 6);
    out.append(", ");
    push_signed_fixed(out, bbox[3], 6);
    push_char(out, ']');
    assert(final(out)@ =~= old(out)@ + bbox_text(crate::ml_backend::bbox_view(*bbox)));
}

/// Appends the end of an array element to `out`.
fn push_element_end(out: &mut String, last: bool)
    ensures
        final(out)@ == old(out)@ + element_end(last),
{
    if last {
        out.append("\n");
    } else {
        out.append(",\n");
    }
}

/// Appends one detected object to `out`.
fn push_object(out: &mut String, object: &(String, u32, [i64; 4]))
    ensures
        final(out)@ == old(out)@ + object_text(object_view(*object)),
{
    out.append("      {\n        \"label\": ");
    push_quoted(out, object.0.as_str());
    out.append(",\n        \"confidence\": ");
    push_fixed(out, object.1 as u64, 6);
    out.append(",\n        \"bbox\": ");
    push_bbox(out, &object.2);
    out.append("\n      }");
    assert(final(out)@ =~= old(out)@ + object_text(object_view(*object)));
}

/// Appends the opening of a record to `out`.
fn push_record_head(out: &mut String, record: &SynchronizedResult)
    ensures
        final(out)@ == old(out)@ + record_head_text(record@),
{
    out.append("  {\n    \"timestamp\": ");
    push_signed_fixed(out, record.timestamp, 6);
    out.append(",\n    \"video_objects\": [\n");
    assert(final(out)@ =~= old(out)@ + record_head_text(record@));
}

/// Appends the objects of a record to `out`.
fn push_objects(out: &mut String, objects: &Vec<(String, u32, [i64; 4])>)
    ensures
        final(out)@ == old(out)@ + objects_text(objects_view(objects@), 0),
{
    let ghost view = objects_view(objects@);
    let ghost head = out@;
    let count = objects.len();
    let mut j: usize = 0;
    while j < count
        invariant
            j <= count,
            count == objects@.len(),
            view == objects_view(objects@),
            out@ + objects_text(view, j as int) == head + objects_text(view, 0),
        decreases count - j,
    {
        let ghost before = out@;
        push_object(out, &objects[j]);
        push_element_end(out, j + 1 == count);
        assert(view[j as int] == object_view(objects@[j as int]));
        assert(out@ + objects_text(view, j + 1) =~= before + objects_text(view, j as int));
        j += 1;
    }
    assert(out@ =~= head + objects_text(view, 0));
}

/// Appends the closing of a record to `out`.
fn push_record_tail(out: &mut String, record: &SynchronizedResult)
    ensures
        final(out)@ == old(out)@ + record_tail_text(record@),
{
    out.append("    ],\n");
    out.append("    \"audio_text\": ");
    match &record.audio_text {
        Some(text) => {
            push_quoted(out, text.as_str());
        },
        None => {
            out.append("null");
        },
    }
    out.append("\n  }");
    assert(final(out)@ =~= old(out)@ + record_tail_text(record@));
}

/// Appends one record to `out`.
fn push_record(out: &mut String, record: &SynchronizedResult)
    ensures
        final(out)@ == old(out)@ + record_text(record@),
{
    push_record_head(out, record);
    push_objects(out, &record.video_objects);
    push_record_tail(out, record);
    assert(final(out)@ =~= old(out)@ + record_text(record@));
}

/// The result document of an asset: its records, in order, as an array.
pub fn render_results(results: &Vec<SynchronizedResult>) -> (document: String)
    ensures
        document@ == document_text(records_view(results@)),
{
    let ghost records = records_view(results@);
    let mut out = String::from_str("[\n");
    let ghost head = out@;
    let count = results.len();
    let mut i: usize = 0;
    while i < count
        invariant
            i <= count,
            count == results@.len(),
            records == records_view(results@),
            out@ + records_text(records, i as int) == head + records_text(records, 0),
        decreases count - i,
    {
        let ghost before = out@;
        push_record(&mut out, &results[i]);
        push_element_end(&mut out, i + 1 == count);
        assert(records[i as int] == results@[i as int]@);
        assert(out@ + records_text(records, i + 1) =~= before + records_text(records, i as int));
        i += 1;
    }
    assert(out@ =~= head + records_text(records, 0));
    out.append("]\n");
    out
}

} // verus!
