use video_audio_processor::results_document::render_results;
use video_audio_processor::results_parser::parse_results;
use video_audio_processor::synchronizer::SynchronizedResult;

fn record(
    timestamp: i64,
    objects: Vec<(&str, u32, [i64; 4])>,
    text: Option<&str>,
) -> SynchronizedResult {
    SynchronizedResult {
        timestamp,
        video_objects: objects.into_iter().map(|(l, c, b)| (l.to_string(), c, b)).collect(),
        audio_text: text.map(|t| t.to_string()),
    }
}

fn same(a: &[SynchronizedResult], b: &[SynchronizedResult]) -> bool {
    a.len() == b.len()
        && a.iter().zip(b).all(|(x, y)| {
            x.timestamp == y.timestamp
                && x.video_objects == y.video_objects
                && x.audio_text == y.audio_text
        })
}

fn samples() -> Vec<SynchronizedResult> {
    vec![
        record(
            7_500_000,
            vec![
                ("candle_object_640x480", 910_000, [80_000_000, 50_000_000, 180_000_000, 150_000_000]),
                ("second", 5, [-1, 0, 1, 2_500_000]),
            ],
            Some("B"),
        ),
        record(12_000_000, Vec::new(), None),
        record(-33_366, vec![("", 0, [0, 0, 0, 0])], Some("")),
        record(
            i64::MAX,
            vec![("q\"uote \\ back\nline\ttab\rret", u32::MAX, [i64::MIN, i64::MAX, -1, 1])],
            Some("say \"hi\" \\ \\\" null ],\n  }"),
        ),
        record(i64::MIN, Vec::new(), Some("null")),
        record(1, vec![("bell\u{7}", 1, [1, 1, 1, 1])], Some("\u{0}\u{1b}[0m\u{1f}")),
    ]
}

#[test]
fn document_of_no_records() {
    assert_eq!(render_results(&Vec::new()), "[\n]\n");
}

#[test]
fn document_of_two_records() {
    let records = vec![
        record(
            7_500_000,
            vec![
                ("cat", 910_000, [80_000_000, 50_000_000, 180_000_000, 150_500_000]),
                ("dog", 1_000_000, [-1, 0, 1, 2]),
            ],
            Some("B"),
        ),
        record(12_000_000, Vec::new(), None),
    ];
    let expected = r#"[
  {
    "timestamp": 7.500000,
    "video_objects": [
      {
        "label": "cat",
        "confidence": 0.910000,
        "bbox": [80.000000, 50.000000, 180.000000, 150.500000]
      },
      {
        "label": "dog",
        "confidence": 1.000000,
        "bbox": [-0.000001, 0.000000, 0.000001, 0.000002]
      }
    ],
    "audio_text": "B"
  },
  {
    "timestamp": 12.000000,
    "video_objects": [
    ],
    "audio_text": null
  }
]
"#;
    assert_eq!(render_results(&records), expected);
}

#[test]
fn text_and_labels_are_escaped() {
    let records = vec![record(0, vec![("a\"b", 0, [0, 0, 0, 0])], Some("x\\y\n\"z\""))];
    let document = render_results(&records);
    assert!(document.contains("\"label\": \"a\\\"b\","));
    assert!(document.contains("\"audio_text\": \"x\\\\y\\n\\\"z\\\"\"\n"));
}

#[test]
fn absent_text_differs_from_empty_text() {
    let absent = render_results(&vec![record(0, Vec::new(), None)]);
    let empty = render_results(&vec![record(0, Vec::new(), Some(""))]);
    assert!(absent.contains("\"audio_text\": null\n"));
    assert!(empty.contains("\"audio_text\": \"\"\n"));
    assert_eq!(parse_results(&absent).unwrap()[0].audio_text, None);
    assert_eq!(parse_results(&empty).unwrap()[0].audio_text, Some(String::new()));
}

#[test]
fn document_reads_back_as_the_records() {
    let records = samples();
    let read = parse_results(&render_results(&records)).unwrap();
    assert!(same(&read, &records));
}

#[test]
fn every_prefix_of_the_samples_reads_back() {
    let all = samples();
    for count in 0..=all.len() {
        let records: Vec<SynchronizedResult> = samples().into_iter().take(count).collect();
        let read = parse_results(&render_results(&records)).unwrap();
        assert!(same(&read, &records), "with {} records", count);
    }
}

#[test]
fn empty_document_reads_back_as_no_records() {
    assert!(parse_results("[\n]\n").unwrap().is_empty());
}

#[test]
fn text_that_is_no_document_is_refused() {
    let good = render_results(&samples());
    assert!(parse_results("").is_none());
    assert!(parse_results("[]").is_none());
    assert!(parse_results("[\n]").is_none());
    assert!(parse_results("[\n]\n ").is_none());
    assert!(parse_results("{\n}\n").is_none());
    assert!(parse_results(&good[..good.len() - 1]).is_none());
    assert!(parse_results(&good[1..]).is_none());
    assert!(parse_results(&format!("{}x", good)).is_none());
}

#[test]
fn numbers_out_of_range_are_refused() {
    let document = |timestamp: &str, confidence: &str, corner: &str| {
        format!(
            "[\n  {{\n    \"timestamp\": {},\n    \"video_objects\": [\n      {{\n        \"label\": \"x\",\n        \"confidence\": {},\n        \"bbox\": [{}, 0.000000, 0.000000, 0.000000]\n      }}\n    ],\n    \"audio_text\": null\n  }}\n]\n",
            timestamp, confidence, corner
        )
    };
    assert!(parse_results(&document("1.000000", "0.500000", "2.000000")).is_some());
    assert!(parse_results(&document("9223372036854.775807", "0.500000", "2.000000")).is_some());
    assert!(parse_results(&document("9223372036854.775808", "0.500000", "2.000000")).is_none());
    assert!(parse_results(&document("-9223372036854.775808", "0.500000", "2.000000")).is_some());
    assert!(parse_results(&document("-9223372036854.775809", "0.500000", "2.000000")).is_none());
    assert!(parse_results(&document("1.000000", "4294.967295", "2.000000")).is_some());
    assert!(parse_results(&document("1.000000", "4294.967296", "2.000000")).is_none());
    assert!(parse_results(&document("1.000000", "-0.000001", "2.000000")).is_none());
    assert!(parse_results(&document("1.000000", "0.500000", "99999999999999999999999.000000")).is_none());
}

#[test]
fn numbers_need_six_decimals() {
    let document = |timestamp: &str| {
        format!(
            "[\n  {{\n    \"timestamp\": {},\n    \"video_objects\": [\n    ],\n    \"audio_text\": null\n  }}\n]\n",
            timestamp
        )
    };
    assert_eq!(parse_results(&document("7.500000")).unwrap()[0].timestamp, 7_500_000);
    assert_eq!(parse_results(&document("007.500000")).unwrap()[0].timestamp, 7_500_000);
    assert_eq!(parse_results(&document("-0.000000")).unwrap()[0].timestamp, 0);
    assert!(parse_results(&document("7.5")).is_none());
    assert!(parse_results(&document("7")).is_none());
    assert!(parse_results(&document(".500000")).is_none());
    assert!(parse_results(&document("7.5000000")).is_none());
    assert!(parse_results(&document("+7.500000")).is_none());
}

#[test]
fn unknown_escapes_are_refused() {
    let document = |text: &str| {
        format!(
            "[\n  {{\n    \"timestamp\": 0.000000,\n    \"video_objects\": [\n    ],\n    \"audio_text\": \"{}\"\n  }}\n]\n",
            text
        )
    };
    assert_eq!(
        parse_results(&document("a\\tb")).unwrap()[0].audio_text,
        Some("a\tb".to_string())
    );
    assert!(parse_results(&document("a\\qb")).is_none());
    assert!(parse_results(&document("a\\")).is_none());
}
