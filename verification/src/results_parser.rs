//! Reading a result document back into records.

use vstd::prelude::*;
use vstd::string::*;
use crate::frame_analyzer::{object_view, objects_view};
use crate::ml_backend::{DetectionView, bbox_view};
use crate::results_document::{
    audio_text_value, bbox_text, document_text, element_end, object_text, objects_text,
    record_head_text, record_text, records_text,
};
use crate::scanning::{
    chars_of, expect, has_at, is_char_at, lemma_fixed_reads_back, lemma_has_at_index,
    lemma_has_at_split, lemma_has_char_at, lemma_quoted_reads_back, parse_fixed, parse_quoted,
    read_fixed, read_quoted,
};
use crate::synchronizer::{RecordView, SynchronizedResult, records_view};
use crate::text::{fixed_text, quoted, signed_fixed_text};

verus! {

/// Whether a number of millionths can be held in 64 bits.
pub open spec fn fits_i64(value: int) -> bool {
    i64::MIN <= value <= i64::MAX
}

/// Reads one corner of a box at `pos`: a number that fits in 64 bits.
pub open spec fn parse_corner(input: Seq<char>, pos: int) -> Option<(int, int)> {
    match parse_fixed(input, pos) {
        Some((value, end)) => if fits_i64(value) {
            Some((value, end))
        } else {
            None
        },
        None => None,
    }
}

/// Reads a box at `pos`: four corners between square brackets.
pub open spec fn parse_bbox(input: Seq<char>, pos: int) -> Option<(Seq<int>, int)> {
    if !has_at(input, pos, seq!['[']) {
        None
    } else {
        match parse_corner(input, pos + 1) {
            None => None,
            Some((x1, p1)) => if !has_at(input, p1, ", "@) {
                None
            } else {
                match parse_corner(input, p1 + ", "@.len()) {
                    None => None,
                    Some((y1, p2)) => if !has_at(input, p2, ", "@) {
                        None
                    } else {
                        match parse_corner(input, p2 + ", "@.len()) {
                            None => None,
                            Some((x2, p3)) => if !has_at(input, p3, ", "@) {
                                None
                            } else {
                                match parse_corner(input, p3 + ", "@.len()) {
                                    None => None,
                                    Some((y2, p4)) => if !has_at(input, p4, seq![']']) {
                                        None
                                    } else {
                                        Some((seq![x1, y1, x2, y2], p4 + 1))
                                    },
                                }
                            },
                        }
                    },
                }
            },
        }
    }
}

/// Reads one detected object at `pos`.
pub open spec fn parse_object(input: Seq<char>, pos: int) -> Option<(DetectionView, int)> {
    let open = "      {\n        \"label\": "@;
    let confidence_key = ",\n        \"confidence\": "@;
    let bbox_key = ",\n        \"bbox\": "@;
    let close = "\n      }"@;
    if !has_at(input, pos, open) {
        None
    } else {
        match parse_quoted(input, pos + open.len()) {
            None => None,
            Some((label, p1)) => if !has_at(input, p1, confidence_key) {
                None
            } else {
                match parse_fixed(input, p1 + confidence_key.len()) {
                    None => None,
                    Some((confidence, p2)) => if !(0 <= confidence <= u32::MAX) || !has_at(
                        input,
                        p2,
                        bbox_key,
                    ) {
                        None
                    } else {
                        match parse_bbox(input, p2 + bbox_key.len()) {
                            None => None,
                            Some((bbox, p3)) => if !has_at(input, p3, close) {
                                None
                            } else {
                                Some((DetectionView { label, confidence, bbox }, p3 + close.len()))
                            },
                        }
                    },
                }
            },
        }
    }
}

/// The position after what closes an array element at `pos`: an optional
/// comma and the end of the line.
pub open spec fn parse_element_end(input: Seq<char>, pos: int) -> Option<int> {
    let after_comma = if has_at(input, pos, seq![',']) {
        pos + 1
    } else {
        pos
    };
    if has_at(input, after_comma, seq!['\n']) {
        Some(after_comma + 1)
    } else {
        None
    }
}

/// Reads objects from `pos` up to the end of their array, continuing the
/// list `so_far`.
pub open spec fn parse_objects(input: Seq<char>, pos: int, so_far: Seq<DetectionView>) -> Option<
    (Seq<DetectionView>, int),
>
    decreases input.len() - pos,
{
    if has_at(input, pos, "    ],\n"@) {
        Some((so_far, pos + "    ],\n"@.len()))
    } else {
        match parse_object(input, pos) {
            None => None,
            Some((object, p)) => match parse_element_end(input, p) {
                None => None,
                Some(next) => if pos < next <= input.len() {
                    parse_objects(input, next, so_far.push(object))
                } else {
                    None
                },
            },
        }
    }
}

/// Reads the transcript text of a record at `pos`: `null` or a quoted text.
pub open spec fn parse_audio_text(input: Seq<char>, pos: int) -> Option<(Option<Seq<char>>, int)> {
    if has_at(input, pos, "null"@) {
        Some((None, pos + "null"@.len()))
    } else {
        match parse_quoted(input, pos) {
            Some((text, end)) => Some((Some(text), end)),
            None => None,
        }
    }
}

/// Reads one record at `pos`.
pub open spec fn parse_record(input: Seq<char>, pos: int) -> Option<(RecordView, int)> {
    let open = "  {\n    \"timestamp\": "@;
    let objects_key = ",\n    \"video_objects\": [\n"@;
    let audio_key = "    \"audio_text\": "@;
    let close = "\n  }"@;
    if !has_at(input, pos, open) {
        None
    } else {
        match parse_corner(input, pos + open.len()) {
            None => None,
            Some((timestamp, p1)) => if !has_at(input, p1, objects_key) {
                None
            } else {
                match parse_objects(input, p1 + objects_key.len(), Seq::empty()) {
                    None => None,
                    Some((video_objects, p2)) => if !has_at(input, p2, audio_key) {
                        None
                    } else {
                        match parse_audio_text(input, p2 + audio_key.len()) {
                            None => None,
                            Some((audio_text, p3)) => if !has_at(input, p3, close) {
                                None
                            } else {
                                Some(
                                    (
                                        RecordView { timestamp, video_objects, audio_text },
                                        p3 + close.len(),
                                    ),
                                )
                            },
                        }
                    },
                }
            },
        }
    }
}

/// Reads records from `pos` up to the end of the document's array,
/// continuing the list `so_far`.
pub open spec fn parse_records(input: Seq<char>, pos: int, so_far: Seq<RecordView>) -> Option<
    (Seq<RecordView>, int),
>
    decreases input.len() - pos,
{
    if has_at(input, pos, "]\n"@) {
        Some((so_far, pos + "]\n"@.len()))
    } else {
        match parse_record(input, pos) {
            None => None,
            Some((record, p)) => match parse_element_end(input, p) {
                None => None,
                Some(next) => if pos < next <= input.len() {
                    parse_records(input, next, so_far.push(record))
                } else {
                    None
                },
            },
        }
    }
}

/// Reads a whole document: the records of its array, and nothing after it.
pub open spec fn parse_document(input: Seq<char>) -> Option<Seq<RecordView>> {
    if !has_at(input, 0, "[\n"@) {
        None
    } else {
        match parse_records(input, "[\n"@.len() as int, Seq::empty()) {
            Some((records, end)) => if end == input.len() {
                Some(records)
            } else {
                None
            },
            None => None,
        }
    }
}

/// Reads one corner of a box at `pos`.
fn read_corner(input: &Vec<char>, pos: usize) -> (r: Option<(i64, usize)>)
    ensures
        match r {
            Some((value, end)) => parse_corner(input@, pos as int) == Some(
                (value as int, end as int),
            ) && pos < end <= input@.len(),
            None => parse_corner(input@, pos as int) is None,
        },
{
    match read_fixed(input, pos) {
        Some((value, end)) => {
            if value < i64::MIN as i128 || value > i64::MAX as i128 {
                None
            } else {
                Some((value as i64, end))
            }
        },
        None => None,
    }
}

/// Reads a box at `pos`.
fn read_bbox(input: &Vec<char>, pos: usize) -> (r: Option<([i64; 4], usize)>)
    ensures
        match r {
            Some((bbox, end)) => parse_bbox(input@, pos as int) == Some(
                (bbox_view(bbox), end as int),
            ) && pos < end <= input@.len(),
            None => parse_bbox(input@, pos as int) is None,
        },
{
    if pos >= input.len() || !is_char_at(input, pos, '[') {
        proof {
            lemma_has_char_at(input@, pos as int, '[');
        }
        return None;
    }
    let (x1, p1) = match read_corner(input, pos + 1) {
        Some(r) => r,
        None => { return None; },
    };
    let q1 = match expect(input, p1, ", ") {
        Some(q) => q,
        None => { return None; },
    };
    let (y1, p2) = match read_corner(input, q1) {
        Some(r) => r,
        None => { return None; },
    };
    let q2 = match expect(input, p2, ", ") {
        Some(q) => q,
        None => { return None; },
    };
    let (x2, p3) = match read_corner(input, q2) {
        Some(r) => r,
        None => { return None; },
    };
    let q3 = match expect(input, p3, ", ") {
        Some(q) => q,
        None => { return None; },
    };
    let (y2, p4) = match read_corner(input, q3) {
        Some(r) => r,
        None => { return None; },
    };
    if p4 >= input.len() || !is_char_at(input, p4, ']') {
        proof {
            lemma_has_char_at(input@, p4 as int, ']');
        }
        return None;
    }
    let bbox: [i64; 4] = [x1, y1, x2, y2];
    assert(bbox_view(bbox) =~= seq![x1 as int, y1 as int, x2 as int, y2 as int]);
    Some((bbox, p4 + 1))
}

/// Reads one detected object at `pos`.
fn read_object(input: &Vec<char>, pos: usize) -> (r: Option<((String, u32, [i64; 4]), usize)>)
    ensures
        match r {
            Some((object, end)) => parse_object(input@, pos as int) == Some(
                (object_view(object), end as int),
            ) && pos <= end <= input@.len(),
            None => parse_object(input@, pos as int) is None,
        },
{
    let p0 = match expect(input, pos, "      {\n        \"label\": ") {
        Some(q) => q,
        None => { return None; },
    };
    let (label, p1) = match read_quoted(input, p0) {
        Some(r) => r,
        None => { return None; },
    };
    let q1 = match expect(input, p1, ",\n        \"confidence\": ") {
        Some(q) => q,
        None => { return None; },
    };
    let (confidence, p2) = match read_fixed(input, q1) {
        Some(r) => r,
        None => { return None; },
    };
    if confidence < 0 || confidence > u32::MAX as i128 {
        return None;
    }
    let q2 = match expect(input, p2, ",\n        \"bbox\": ") {
        Some(q) => q,
        None => { return None; },
    };
    let (bbox, p3) = match read_bbox(input, q2) {
        Some(r) => r,
        None => { return None; },
    };
    let end = match expect(input, p3, "\n      }") {
        Some(q) => q,
        None => { return None; },
    };
    Some(((label, confidence as u32, bbox), end))
}

/// Reads what closes an array element at `pos`.
fn read_element_end(input: &Vec<char>, pos: usize) -> (r: Option<usize>)
    requires
        pos <= input@.len(),
    ensures
        match r {
            Some(next) => parse_element_end(input@, pos as int) == Some(next as int) && pos < next
                <= input@.len(),
            None => parse_element_end(input@, pos as int) is None,
        },
{
    proof {
        lemma_has_char_at(input@, pos as int, ',');
        lemma_has_char_at(input@, pos as int, '\n');
    }
    if pos >= input.len() {
        return None;
    }
    let after_comma: usize = if is_char_at(input, pos, ',') {
        pos + 1
    } else {
        pos
    };
    proof {
        lemma_has_char_at(input@, after_comma as int, '\n');
    }
    if is_char_at(input, after_comma, '\n') {
        Some(after_comma + 1)
    } else {
        None
    }
}

/// Reads the objects of a record from `pos` up to the end of their array.
fn read_objects(input: &Vec<char>, pos: usize) -> (r: Option<
    (Vec<(String, u32, [i64; 4])>, usize),
>)
    ensures
        match r {
            Some((objects, end)) => parse_objects(input@, pos as int, Seq::empty()) == Some(
                (objects_view(objects@), end as int),
            ) && pos <= end <= input@.len(),
            None => parse_objects(input@, pos as int, Seq::empty()) is None,
        },
{
    let mut objects: Vec<(String, u32, [i64; 4])> = Vec::new();
    let mut at: usize = pos;
    assert(objects_view(objects@) =~= Seq::empty());
    loop
        invariant
            pos <= at,
            parse_objects(input@, pos as int, Seq::empty()) == parse_objects(
                input@,
                at as int,
                objects_view(objects@),
            ),
        decreases input@.len() - at,
    {
        match expect(input, at, "    ],\n") {
            Some(end) => {
                return Some((objects, end));
            },
            None => {},
        }
        let (object, p) = match read_object(input, at) {
            Some(r) => r,
            None => { return None; },
        };
        let next = match read_element_end(input, p) {
            Some(q) => q,
            None => { return None; },
        };
        let ghost before = objects_view(objects@);
        objects.push(object);
        assert(objects_view(objects@) =~= before.push(object_view(object)));
        at = next;
    }
}

/// Reads the transcript text of a record at `pos`.
fn read_audio_text(input: &Vec<char>, pos: usize) -> (r: Option<(Option<String>, usize)>)
    ensures
        match r {
            Some((text, end)) => parse_audio_text(input@, pos as int) == Some(
                (crate::file_names::text_view(text), end as int),
            ) && pos <= end <= input@.len(),
            None => parse_audio_text(input@, pos as int) is None,
        },
{
    match expect(input, pos, "null") {
        Some(end) => Some((None, end)),
        None => match read_quoted(input, pos) {
            Some((text, end)) => Some((Some(text), end)),
            None => None,
        },
    }
}

/// Reads one record at `pos`.
fn read_record(input: &Vec<char>, pos: usize) -> (r: Option<(SynchronizedResult, usize)>)
    ensures
        match r {
            Some((record, end)) => parse_record(input@, pos as int) == Some((record@, end as int))
                && pos <= end <= input@.len(),
            None => parse_record(input@, pos as int) is None,
        },
{
    let p0 = match expect(input, pos, "  {\n    \"timestamp\": ") {
        Some(q) => q,
        None => { return None; },
    };
    let (timestamp, p1) = match read_corner(input, p0) {
        Some(r) => r,
        None => { return None; },
    };
    let q1 = match expect(input, p1, ",\n    \"video_objects\": [\n") {
        Some(q) => q,
        None => { return None; },
    };
    let (video_objects, p2) = match read_objects(input, q1) {
        Some(r) => r,
        None => { return None; },
    };
    let q2 = match expect(input, p2, "    \"audio_text\": ") {
        Some(q) => q,
        None => { return None; },
    };
    let (audio_text, p3) = match read_audio_text(input, q2) {
        Some(r) => r,
        None => { return None; },
    };
    let end = match expect(input, p3, "\n  }") {
        Some(q) => q,
        None => { return None; },
    };
    Some((SynchronizedResult { timestamp, video_objects, audio_text }, end))
}

/// Reads a result document back into its records. Gives nothing where
/// the text is not a result document.
pub fn parse_results(document: &str) -> (r: Option<Vec<SynchronizedResult>>)
    ensures
        match r {
            Some(records) => parse_document(document@) == Some(records_view(records@)),
            None => parse_document(document@) is None,
        },
{
    let input = chars_of(document);
    let start = match expect(&input, 0, "[\n") {
        Some(q) => q,
        None => { return None; },
    };
    let mut records: Vec<SynchronizedResult> = Vec::new();
    let mut at: usize = start;
    assert(records_view(records@) =~= Seq::empty());
    loop
        invariant
            input@ == document@,
            has_at(input@, 0, "[\n"@),
            start == "[\n"@.len(),
            parse_records(input@, start as int, Seq::empty()) == parse_records(
                input@,
                at as int,
                records_view(records@),
            ),
        decreases input@.len() - at,
    {
        match expect(&input, at, "]\n") {
            Some(end) => {
                if end == input.len() {
                    return Some(records);
                } else {
                    return None;
                }
            },
            None => {},
        }
        let (record, p) = match read_record(&input, at) {
            Some(r) => r,
            None => { return None; },
        };
        let next = match read_element_end(&input, p) {
            Some(q) => q,
            None => { return None; },
        };
        let ghost before = records_view(records@);
        records.push(record);
        assert(records_view(records@) =~= before.push(record@));
        at = next;
    }
}

/// Whether a detected object can be held by the library's types: a
/// confidence that fits in 32 bits and four corners that fit in 64.
pub open spec fn object_representable(object: DetectionView) -> bool {
    &&& 0 <= object.confidence <= u32::MAX
    &&& object.bbox.len() == 4
    &&& forall|k: int| 0 <= k < 4 ==> fits_i64(#[trigger] object.bbox[k])
}

/// Whether a record can be held by the library's types.
pub open spec fn record_representable(record: RecordView) -> bool {
    &&& fits_i64(record.timestamp)
    &&& forall|i: int|
        0 <= i < record.video_objects.len() ==> object_representable(
            #[trigger] record.video_objects[i],
        )
}

/// Whether every record of a list can be held by the library's types.
pub open spec fn records_representable(records: Seq<RecordView>) -> bool {
    forall|i: int| 0 <= i < records.len() ==> record_representable(#[trigger] records[i])
}

/// A text that stands at `pos` and begins with `head` has `head` at `pos`
/// and the rest after it.
proof fn lemma_peel(input: Seq<char>, pos: int, whole: Seq<char>, head: Seq<char>, tail: Seq<char>)
    requires
        has_at(input, pos, whole),
        whole =~= head + tail,
    ensures
        has_at(input, pos, head),
        has_at(input, pos + head.len(), tail),
{
    lemma_has_at_split(input, pos, head, tail);
}

/// A corner that stands at `pos` reads back as itself.
proof fn lemma_corner_reads_back(input: Seq<char>, pos: int, value: int)
    requires
        has_at(input, pos, signed_fixed_text(value, 6)),
        fits_i64(value),
    ensures
        parse_corner(input, pos) == Some((value, pos + signed_fixed_text(value, 6).len())),
{
    lemma_fixed_reads_back(input, pos, value);
}

/// A corner that stands at `pos` before more text reads back as itself,
/// and the text after it stands after it.
proof fn lemma_corner_then(input: Seq<char>, pos: int, value: int, tail: Seq<char>)
    requires
        has_at(input, pos, signed_fixed_text(value, 6) + tail),
        fits_i64(value),
    ensures
        parse_corner(input, pos) == Some((value, pos + signed_fixed_text(value, 6).len())),
        has_at(input, pos + signed_fixed_text(value, 6).len(), tail),
{
    lemma_has_at_split(input, pos, signed_fixed_text(value, 6), tail);
    lemma_fixed_reads_back(input, pos, value);
}

/// A box that stands at `pos` reads back as itself.
proof fn lemma_bbox_reads_back(input: Seq<char>, pos: int, bbox: Seq<int>)
    requires
        has_at(input, pos, bbox_text(bbox)),
        bbox.len() == 4,
        forall|k: int| 0 <= k < 4 ==> fits_i64(#[trigger] bbox[k]),
    ensures
        parse_bbox(input, pos) == Some((bbox, pos + bbox_text(bbox).len())),
{
    let n0 = signed_fixed_text(bbox[0], 6);
    let n1 = signed_fixed_text(bbox[1], 6);
    let n2 = signed_fixed_text(bbox[2], 6);
    let n3 = signed_fixed_text(bbox[3], 6);
    let sep = ", "@;
    let t6 = seq![']'];
    let t4 = sep + (n3 + t6);
    let t2 = sep + (n2 + t4);
    let t0 = sep + (n1 + t2);
    assert(fits_i64(bbox[0]) && fits_i64(bbox[1]) && fits_i64(bbox[2]) && fits_i64(bbox[3]));
    assert(bbox_text(bbox) =~= seq!['['] + (n0 + t0));
    lemma_has_at_split(input, pos, seq!['['], n0 + t0);
    let p0 = pos + 1;
    lemma_corner_then(input, p0, bbox[0], t0);
    let p1 = p0 + n0.len();
    lemma_has_at_split(input, p1, sep, n1 + t2);
    let q1 = p1 + sep.len();
    lemma_corner_then(input, q1, bbox[1], t2);
    let p2 = q1 + n1.len();
    lemma_has_at_split(input, p2, sep, n2 + t4);
    let q2 = p2 + sep.len();
    lemma_corner_then(input, q2, bbox[2], t4);
    let p3 = q2 + n2.len();
    lemma_has_at_split(input, p3, sep, n3 + t6);
    let q3 = p3 + sep.len();
    lemma_corner_then(input, q3, bbox[3], t6);
    let p4 = q3 + n3.len();
    assert(seq![bbox[0], bbox[1], bbox[2], bbox[3]] =~= bbox);
    assert(bbox_text(bbox).len() == 1 + n0.len() + sep.len() + n1.len() + sep.len() + n2.len()
        + sep.len() + n3.len() + 1);
    assert(parse_corner(input, pos + 1) == Some((bbox[0], p1)));
    assert(parse_corner(input, p1 + sep.len()) == Some((bbox[1], p2)));
    assert(parse_corner(input, p2 + sep.len()) == Some((bbox[2], p3)));
    assert(parse_corner(input, p3 + sep.len()) == Some((bbox[3], p4)));
}

/// What closes an array element reads back: the position after it is
/// found, whether or not the element is the last.
proof fn lemma_element_end_reads_back(input: Seq<char>, pos: int, last: bool)
    requires
        has_at(input, pos, element_end(last)),
    ensures
        parse_element_end(input, pos) == Some(pos + element_end(last).len()),
{
    reveal_strlit("\n");
    reveal_strlit(",\n");
    let text = element_end(last);
    lemma_has_char_at(input, pos, ',');
    lemma_has_at_index(input, pos, text, 0);
    if last {
        assert(text =~= seq!['\n']);
        lemma_has_char_at(input, pos, '\n');
    } else {
        assert(text =~= seq![','] + seq!['\n']);
        lemma_has_at_split(input, pos, seq![','], seq!['\n']);
    }
}

/// A detected object that stands at `pos` reads back as itself.
#[verifier::rlimit(40)]
proof fn lemma_object_reads_back(input: Seq<char>, pos: int, object: DetectionView)
    requires
        has_at(input, pos, object_text(object)),
        object_representable(object),
    ensures
        parse_object(input, pos) == Some((object, pos + object_text(object).len())),
{
    let open = "      {\n        \"label\": "@;
    let confidence_key = ",\n        \"confidence\": "@;
    let bbox_key = ",\n        \"bbox\": "@;
    let close = "\n      }"@;
    let label = quoted(object.label);
    let confidence = fixed_text(object.confidence as nat, 6);
    let bbox = bbox_text(object.bbox);
    let t5 = bbox + close;
    let t4 = bbox_key + t5;
    let t3 = confidence + t4;
    let t2 = confidence_key + t3;
    let t1 = label + t2;
    assert(object_text(object) =~= open + t1);
    lemma_has_at_split(input, pos, open, t1);
    let p0 = pos + open.len();
    lemma_has_at_split(input, p0, label, t2);
    lemma_quoted_reads_back(input, p0, object.label);
    let p1 = p0 + label.len();
    lemma_has_at_split(input, p1, confidence_key, t3);
    let q1 = p1 + confidence_key.len();
    lemma_has_at_split(input, q1, confidence, t4);
    assert(signed_fixed_text(object.confidence, 6) == confidence);
    lemma_fixed_reads_back(input, q1, object.confidence);
    let p2 = q1 + confidence.len();
    lemma_has_at_split(input, p2, bbox_key, t5);
    let q2 = p2 + bbox_key.len();
    lemma_has_at_split(input, q2, bbox, close);
    lemma_bbox_reads_back(input, q2, object.bbox);
    let p3 = q2 + bbox.len();
    assert(parse_quoted(input, pos + open.len()) == Some((object.label, p1)));
    assert(parse_fixed(input, p1 + confidence_key.len()) == Some((object.confidence, p2)));
    assert(parse_bbox(input, p2 + bbox_key.len()) == Some((object.bbox, p3)));
    assert(has_at(input, p3, close));
    assert(p3 + close.len() == pos + object_text(object).len());
}

/// Where an object stands, the end of the objects' array does not.
proof fn lemma_object_is_no_array_end(input: Seq<char>, pos: int, object: DetectionView)
    requires
        has_at(input, pos, object_text(object)),
    ensures
        !has_at(input, pos, "    ],\n"@),
{
    reveal_strlit("      {\n        \"label\": ");
    reveal_strlit("    ],\n");
    let open = "      {\n        \"label\": "@;
    let rest = object_text(object).subrange(open.len() as int, object_text(object).len() as int);
    lemma_peel(input, pos, object_text(object), open, rest);
    lemma_has_at_index(input, pos, open, 4);
    if has_at(input, pos, "    ],\n"@) {
        lemma_has_at_index(input, pos, "    ],\n"@, 4);
    }
}

/// An object that stands at `pos` as an array element, before more text,
/// is read as that object up to the position where the text after it stands.
proof fn lemma_object_element_reads_back(
    input: Seq<char>,
    pos: int,
    object: DetectionView,
    last: bool,
    rest: Seq<char>,
)
    requires
        has_at(input, pos, object_text(object) + (element_end(last) + rest)),
        object_representable(object),
    ensures
        !has_at(input, pos, "    ],\n"@),
        parse_object(input, pos) == Some((object, pos + object_text(object).len())),
        parse_element_end(input, pos + object_text(object).len()) == Some(
            pos + object_text(object).len() + element_end(last).len(),
        ),
        has_at(input, pos + object_text(object).len() + element_end(last).len(), rest),
        element_end(last).len() >= 1,
        pos + object_text(object).len() + element_end(last).len() <= input.len(),
{
    let body = object_text(object);
    let closing = element_end(last);
    lemma_has_at_split(input, pos, body, closing + rest);
    lemma_object_is_no_array_end(input, pos, object);
    lemma_object_reads_back(input, pos, object);
    lemma_has_at_split(input, pos + body.len(), closing, rest);
    lemma_element_end_reads_back(input, pos + body.len(), last);
    reveal_strlit("\n");
    reveal_strlit(",\n");
}

/// The objects from `from` on, followed by the end of their array, read
/// back as themselves, added to the list so far.
#[verifier::rlimit(40)]
proof fn lemma_objects_read_back(
    input: Seq<char>,
    pos: int,
    objects: Seq<DetectionView>,
    from: int,
    so_far: Seq<DetectionView>,
)
    requires
        0 <= from <= objects.len(),
        has_at(input, pos, objects_text(objects, from) + "    ],\n"@),
        forall|i: int| 0 <= i < objects.len() ==> object_representable(#[trigger] objects[i]),
    ensures
        parse_objects(input, pos, so_far) == Some(
            (
                so_far + objects.subrange(from, objects.len() as int),
                pos + objects_text(objects, from).len() + "    ],\n"@.len(),
            ),
        ),
    decreases objects.len() - from,
{
    let end = "    ],\n"@;
    if from == objects.len() {
        assert(objects_text(objects, from) + end =~= end);
        assert(so_far + objects.subrange(from, objects.len() as int) =~= so_far);
    } else {
        let object = objects[from];
        let last = from == objects.len() - 1;
        let rest = objects_text(objects, from + 1) + end;
        assert(objects_text(objects, from) + end =~= object_text(object) + (element_end(last)
            + rest));
        lemma_object_element_reads_back(input, pos, object, last, rest);
        let next = pos + object_text(object).len() + element_end(last).len();
        lemma_objects_read_back(input, next, objects, from + 1, so_far.push(object));
        assert(so_far.push(object) + objects.subrange(from + 1, objects.len() as int) =~= so_far
            + objects.subrange(from, objects.len() as int));
        assert(parse_objects(input, pos, so_far) == parse_objects(
            input,
            next,
            so_far.push(object),
        ));
    }
}

/// A transcript text that stands at `pos` reads back as itself.
proof fn lemma_audio_text_reads_back(input: Seq<char>, pos: int, text: Option<Seq<char>>)
    requires
        has_at(input, pos, audio_text_value(text)),
    ensures
        parse_audio_text(input, pos) == Some((text, pos + audio_text_value(text).len())),
{
    match text {
        Some(t) => {
            reveal_strlit("null");
            lemma_has_at_index(input, pos, quoted(t), 0);
            if has_at(input, pos, "null"@) {
                lemma_has_at_index(input, pos, "null"@, 0);
            }
            lemma_quoted_reads_back(input, pos, t);
        },
        None => {},
    }
}

/// A record that stands at `pos` reads back as itself.
#[verifier::rlimit(40)]
proof fn lemma_record_reads_back(input: Seq<char>, pos: int, record: RecordView)
    requires
        has_at(input, pos, record_text(record)),
        record_representable(record),
    ensures
        parse_record(input, pos) == Some((record, pos + record_text(record).len())),
{
    let open = "  {\n    \"timestamp\": "@;
    let objects_key = ",\n    \"video_objects\": [\n"@;
    let array_end = "    ],\n"@;
    let audio_key = "    \"audio_text\": "@;
    let close = "\n  }"@;
    let timestamp = signed_fixed_text(record.timestamp, 6);
    let objects = objects_text(record.video_objects, 0);
    let audio = audio_text_value(record.audio_text);
    let t5 = audio + close;
    let t4 = audio_key + t5;
    let t3 = (objects + array_end) + t4;
    let t2 = objects_key + t3;
    let t1 = timestamp + t2;
    assert(record_text(record) =~= open + t1);
    lemma_has_at_split(input, pos, open, t1);
    let p0 = pos + open.len();
    lemma_has_at_split(input, p0, timestamp, t2);
    lemma_corner_reads_back(input, p0, record.timestamp);
    let p1 = p0 + timestamp.len();
    lemma_has_at_split(input, p1, objects_key, t3);
    let q1 = p1 + objects_key.len();
    lemma_has_at_split(input, q1, objects + array_end, t4);
    lemma_objects_read_back(input, q1, record.video_objects, 0, Seq::empty());
    assert(Seq::<DetectionView>::empty() + record.video_objects.subrange(
        0,
        record.video_objects.len() as int,
    ) =~= record.video_objects);
    let p2 = q1 + objects.len() + array_end.len();
    lemma_has_at_split(input, p2, audio_key, t5);
    let q2 = p2 + audio_key.len();
    lemma_has_at_split(input, q2, audio, close);
    lemma_audio_text_reads_back(input, q2, record.audio_text);
    let p3 = q2 + audio.len();
    assert(parse_corner(input, pos + open.len()) == Some((record.timestamp, p1)));
    assert(parse_objects(input, p1 + objects_key.len(), Seq::empty()) == Some(
        (record.video_objects, p2),
    ));
    assert(parse_audio_text(input, p2 + audio_key.len()) == Some((record.audio_text, p3)));
    assert(has_at(input, p3, close));
    assert(p3 + close.len() == pos + record_text(record).len());
}

/// Where a record stands, the end of the document's array does not.
proof fn lemma_record_is_no_array_end(input: Seq<char>, pos: int, record: RecordView)
    requires
        has_at(input, pos, record_text(record)),
    ensures
        !has_at(input, pos, "]\n"@),
{
    reveal_strlit("  {\n    \"timestamp\": ");
    reveal_strlit("]\n");
    let open = "  {\n    \"timestamp\": "@;
    let rest = record_text(record).subrange(open.len() as int, record_text(record).len() as int);
    assert(record_head_text(record) =~= open + signed_fixed_text(record.timestamp, 6)
        + ",\n    \"video_objects\": [\n"@);
    lemma_peel(input, pos, record_text(record), open, rest);
    lemma_has_at_index(input, pos, open, 0);
    if has_at(input, pos, "]\n"@) {
        lemma_has_at_index(input, pos, "]\n"@, 0);
    }
}

/// A record that stands at `pos` as an array element, before more text,
/// is read as that record up to the position where the text after it stands.
proof fn lemma_record_element_reads_back(
    input: Seq<char>,
    pos: int,
    record: RecordView,
    last: bool,
    rest: Seq<char>,
)
    requires
        has_at(input, pos, record_text(record) + (element_end(last) + rest)),
        record_representable(record),
    ensures
        !has_at(input, pos, "]\n"@),
        parse_record(input, pos) == Some((record, pos + record_text(record).len())),
        parse_element_end(input, pos + record_text(record).len()) == Some(
            pos + record_text(record).len() + element_end(last).len(),
        ),
        has_at(input, pos + record_text(record).len() + element_end(last).len(), rest),
        element_end(last).len() >= 1,
        pos + record_text(record).len() + element_end(last).len() <= input.len(),
{
    let body = record_text(record);
    let closing = element_end(last);
    lemma_has_at_split(input, pos, body, closing + rest);
    lemma_record_is_no_array_end(input, pos, record);
    lemma_record_reads_back(input, pos, record);
    lemma_has_at_split(input, pos + body.len(), closing, rest);
    lemma_element_end_reads_back(input, pos + body.len(), last);
    reveal_strlit("\n");
    reveal_strlit(",\n");
}

/// The records from `from` on, followed by the end of the document's
/// array, read back as themselves, added to the list so far.
#[verifier::rlimit(40)]
proof fn lemma_records_read_back(
    input: Seq<char>,
    pos: int,
    records: Seq<RecordView>,
    from: int,
    so_far: Seq<RecordView>,
)
    requires
        0 <= from <= records.len(),
        has_at(input, pos, records_text(records, from) + "]\n"@),
        records_representable(records),
    ensures
        parse_records(input, pos, so_far) == Some(
            (
                so_far + records.subrange(from, records.len() as int),
                pos + records_text(records, from).len() + "]\n"@.len(),
            ),
        ),
    decreases records.len() - from,
{
    let end = "]\n"@;
    if from == records.len() {
        assert(records_text(records, from) + end =~= end);
        assert(so_far + records.subrange(from, records.len() as int) =~= so_far);
    } else {
        let record = records[from];
        let last = from == records.len() - 1;
        let rest = records_text(records, from + 1) + end;
        assert(records_text(records, from) + end =~= record_text(record) + (element_end(last)
            + rest));
        lemma_record_element_reads_back(input, pos, record, last, rest);
        let next = pos + record_text(record).len() + element_end(last).len();
        lemma_records_read_back(input, next, records, from + 1, so_far.push(record));
        assert(so_far.push(record) + records.subrange(from + 1, records.len() as int) =~= so_far
            + records.subrange(from, records.len() as int));
        assert(parse_records(input, pos, so_far) == parse_records(
            input,
            next,
            so_far.push(record),
        ));
    }
}

/// Reading the document of a list of records gives the list back: every
/// timestamp, every object with its label, confidence and box, and every
/// transcript text, present or absent.
pub proof fn lemma_document_round_trip(records: Seq<RecordView>)
    requires
        records_representable(records),
    ensures
        parse_document(document_text(records)) == Some(records),
{
    let input = document_text(records);
    let open = "[\n"@;
    let rest = records_text(records, 0) + "]\n"@;
    assert(input =~= open + rest);
    assert(input.subrange(0, input.len() as int) =~= input);
    assert(has_at(input, 0, input));
    lemma_peel(input, 0, input, open, rest);
    lemma_records_read_back(input, open.len() as int, records, 0, Seq::empty());
    assert(Seq::<RecordView>::empty() + records.subrange(0, records.len() as int) =~= records);
}

/// The records that the library's types hold are representable.
pub proof fn lemma_held_records_representable(results: Seq<SynchronizedResult>)
    ensures
        records_representable(records_view(results)),
{
    let records = records_view(results);
    assert forall|i: int| 0 <= i < records.len() implies record_representable(
        #[trigger] records[i],
    ) by {
        let record = records[i];
        let held = results[i].video_objects@;
        assert forall|j: int| 0 <= j < record.video_objects.len() implies object_representable(
            #[trigger] record.video_objects[j],
        ) by {
            let object = record.video_objects[j];
            assert(object == object_view(held[j]));
            assert forall|k: int| 0 <= k < 4 implies fits_i64(#[trigger] object.bbox[k]) by {
                assert(object.bbox[k] == held[j].2@[k] as int);
            }
        }
    }
}

/// Writing the records that the library holds and reading the document
/// back gives records equal to them, field by field.
pub proof fn lemma_results_round_trip(results: Seq<SynchronizedResult>)
    ensures
        parse_document(document_text(records_view(results))) == Some(records_view(results)),
{
    lemma_held_records_representable(results);
    lemma_document_round_trip(records_view(results));
}

} // verus!
