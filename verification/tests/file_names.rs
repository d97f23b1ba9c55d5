use std::path::Path;
use video_audio_processor::file_names::{
    extension, file_stem, name_precedes, sort_names, split_name,
};

fn names() -> Vec<&'static str> {
    vec![
        "a.mp4", "clip.final.MOV", ".hidden", "..", ".", "noext", "a.", "..foo", ".a.b", "", "x.y.z",
        "é.mkv", "weird name.avi", "...", "a..b",
    ]
}

#[test]
fn stem_and_extension_of_plain_names() {
    assert_eq!(split_name("a.mp4"), ("a".to_string(), Some("mp4".to_string())));
    assert_eq!(split_name("clip.final.MOV"), ("clip.final".to_string(), Some("MOV".to_string())));
    assert_eq!(split_name("noext"), ("noext".to_string(), None));
    assert_eq!(split_name(""), ("".to_string(), None));
}

#[test]
fn a_leading_dot_starts_no_extension() {
    assert_eq!(split_name(".hidden"), (".hidden".to_string(), None));
    assert_eq!(split_name(".a.b"), (".a".to_string(), Some("b".to_string())));
}

#[test]
fn dot_dot_has_no_extension() {
    assert_eq!(split_name(".."), ("..".to_string(), None));
    assert_eq!(split_name("..foo"), (".".to_string(), Some("foo".to_string())));
}

#[test]
fn a_trailing_dot_gives_an_empty_extension() {
    assert_eq!(split_name("a."), ("a".to_string(), Some("".to_string())));
}

#[test]
fn stem_and_extension_agree_with_the_standard_library() {
    for name in names() {
        if name.is_empty() || name == "." || name == ".." {
            continue;
        }
        let path = Path::new(name);
        let stem = path.file_stem().map(|s| s.to_string_lossy().into_owned());
        let ext = path.extension().map(|s| s.to_string_lossy().into_owned());
        assert_eq!(Some(file_stem(name)), stem, "stem of {:?}", name);
        assert_eq!(extension(name), ext, "extension of {:?}", name);
    }
}

#[test]
fn order_of_names_is_that_of_strings() {
    let all = names();
    for a in &all {
        for b in &all {
            assert_eq!(name_precedes(a, b), a <= b, "{:?} against {:?}", a, b);
        }
    }
}

#[test]
fn a_prefix_comes_first() {
    assert!(name_precedes("a", "ab"));
    assert!(!name_precedes("ab", "a"));
    assert!(name_precedes("", "a"));
    assert!(name_precedes("same", "same"));
}

#[test]
fn upper_case_comes_before_lower_case() {
    assert!(name_precedes("B.mp4", "a.mp4"));
    assert!(!name_precedes("a.mp4", "B.mp4"));
}

#[test]
fn sorting_orders_names_and_keeps_each() {
    let input: Vec<String> = names().into_iter().map(|s| s.to_string()).collect();
    let mut expected = input.clone();
    expected.sort();
    assert_eq!(sort_names(input), expected);
}

#[test]
fn sorting_keeps_names_that_occur_twice() {
    let input = vec!["b".to_string(), "a".to_string(), "b".to_string(), "a".to_string()];
    assert_eq!(sort_names(input), vec!["a", "a", "b", "b"]);
}

#[test]
fn sorting_nothing_gives_nothing() {
    assert!(sort_names(Vec::new()).is_empty());
}
