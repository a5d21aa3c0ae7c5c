use annotator::annotation::{Annotation, FileReviewState, FileStatus};
use annotator::codec::{chars_to_string, parse_string_body, str_chars};
use annotator::records::{parse_annotation_chars, parse_status_chars, push_annotation_line,
    push_status_line};
use annotator::session::Session;
use annotator::store::{Store, StoreError};

#[test]
fn test_annotation_new() {
    let a = Annotation::new("src/main.rs".into(), 10, 20, "Fix this".into());
    assert_eq!(a.file_path, "src/main.rs");
    assert_eq!(a.start_line, 10);
    assert_eq!(a.end_line, 20);
    assert_eq!(a.text, "Fix this");
    let created = chrono::DateTime::parse_from_rfc3339(&a.created_at).unwrap();
    assert!(created <= chrono::Utc::now());
    assert_eq!(a.created_at, a.updated_at);
}

#[test]
fn test_contains_line() {
    let a = Annotation::new("f.rs".into(), 5, 10, "t".into());
    assert!(!a.contains_line(4));
    assert!(a.contains_line(5));
    assert!(a.contains_line(7));
    assert!(a.contains_line(10));
    assert!(!a.contains_line(11));
}

#[test]
fn test_overlaps() {
    let a = Annotation::new("f.rs".into(), 5, 10, "t".into());
    assert!(!a.overlaps(1, 4));
    assert!(a.overlaps(1, 5));
    assert!(a.overlaps(5, 10));
    assert!(a.overlaps(8, 15));
    assert!(a.overlaps(10, 15));
    assert!(!a.overlaps(11, 15));
    assert!(a.overlaps(3, 20));
}

#[test]
fn test_file_status_default() {
    assert_eq!(FileStatus::default(), FileStatus::Unreviewed);
}

#[test]
fn test_annotation_serialization() {
    let a = Annotation::new("f.rs".into(), 1, 5, "note".into());
    let mut line: Vec<char> = Vec::new();
    push_annotation_line(&mut line, &a);
    let b = parse_annotation_chars(&line).unwrap();
    assert_eq!(a, b);
}

#[test]
fn test_file_review_state_serialization() {
    let s = FileReviewState {
        file_path: "src/lib.rs".into(),
        status: FileStatus::Clean,
    };
    let mut line: Vec<char> = Vec::new();
    push_status_line(&mut line, &s);
    let s2 = parse_status_chars(&line).unwrap();
    assert_eq!(s, s2);
}

#[test]
fn test_annotation_odd_text_round_trip() {
    // Quotes, backslashes, newlines, tabs, a control character, and text
    // beyond ASCII all survive the record codec.
    let text = "a \"quoted\" \\ path\nnew\tline \u{0007} héllo ✓".to_string();
    let a = Annotation::new("dir/wéird \"name\".rs".into(), 3, 9, text);
    let mut line: Vec<char> = Vec::new();
    push_annotation_line(&mut line, &a);
    let b = parse_annotation_chars(&line).unwrap();
    assert_eq!(a, b);
}

#[test]
fn test_annotation_extreme_lines_round_trip() {
    let a = Annotation::new("f.rs".into(), u32::MAX, u32::MAX, "edge".into());
    let mut line: Vec<char> = Vec::new();
    push_annotation_line(&mut line, &a);
    let b = parse_annotation_chars(&line).unwrap();
    assert_eq!(a, b);
}

#[test]
fn test_hex_escape_parses() {
    // `\u0041` in a record decodes to `A`: the escape really goes through
    // the character decoder, not back out unchanged.
    let src: Vec<char> = "\\u0041b\"rest".chars().collect();
    let (v, next) = parse_string_body(&src, 0).unwrap();
    let s: String = v.into_iter().collect();
    assert_eq!(s, "Ab");
    assert_eq!(next, 8);
}

#[test]
fn test_string_chars_round_trip() {
    let s = "héllo ✓ world".to_string();
    let v = str_chars(&s);
    assert_eq!(chars_to_string(&v), s);
}

#[test]
fn test_empty_load() {
    let store = Store::new(String::new(), String::new());
    assert!(store.load_annotations().unwrap().is_empty());
    assert!(store.load_file_statuses().unwrap().is_empty());
}

#[test]
fn test_append_and_load_annotations() {
    let mut store = Store::new(String::new(), String::new());
    let a1 = Annotation::new("f1.rs".into(), 1, 5, "note1".into());
    let a2 = Annotation::new("f2.rs".into(), 10, 20, "note2".into());

    store.append_annotation(&a1);
    store.append_annotation(&a2);

    let loaded = store.load_annotations().unwrap();
    assert_eq!(loaded.len(), 2);
    assert_eq!(loaded[0], a1);
    assert_eq!(loaded[1], a2);
}

#[test]
fn test_atomic_rewrite() {
    let mut store = Store::new(String::new(), String::new());
    let a1 = Annotation::new("f.rs".into(), 1, 1, "a".into());
    let a2 = Annotation::new("f.rs".into(), 2, 2, "b".into());

    store.append_annotation(&a1);
    store.append_annotation(&a2);

    // Rewrite with just a1
    store.save_annotations(&[a1.clone()]);
    let loaded = store.load_annotations().unwrap();
    assert_eq!(loaded.len(), 1);
    assert_eq!(loaded[0], a1);
}

#[test]
fn test_update_annotation() {
    let mut store = Store::new(String::new(), String::new());
    let mut a = Annotation::new("f.rs".into(), 1, 5, "old".into());
    store.append_annotation(&a);

    a.text = "new".into();
    a.updated_at = chrono::Utc::now().to_rfc3339();
    store.update_annotation(&a).unwrap();

    let loaded = store.load_annotations().unwrap();
    assert_eq!(loaded[0].text, "new");
}

#[test]
fn test_delete_annotation() {
    let mut store = Store::new(String::new(), String::new());
    let a1 = Annotation::new("f.rs".into(), 1, 1, "a".into());
    let a2 = Annotation::new("f.rs".into(), 2, 2, "b".into());
    store.append_annotation(&a1);
    store.append_annotation(&a2);

    store.delete_annotation(a1.id).unwrap();
    let loaded = store.load_annotations().unwrap();
    assert_eq!(loaded.len(), 1);
    assert_eq!(loaded[0].id, a2.id);
}

#[test]
fn test_annotations_for_file() {
    let mut store = Store::new(String::new(), String::new());
    let a1 = Annotation::new("f1.rs".into(), 1, 1, "a".into());
    let a2 = Annotation::new("f2.rs".into(), 2, 2, "b".into());
    let a3 = Annotation::new("f1.rs".into(), 3, 3, "c".into());
    store.append_annotation(&a1);
    store.append_annotation(&a2);
    store.append_annotation(&a3);

    let f1 = store.annotations_for_file(&"f1.rs".to_string()).unwrap();
    assert_eq!(f1.len(), 2);
    assert_eq!(f1[0].id, a1.id);
    assert_eq!(f1[1].id, a3.id);
}

#[test]
fn test_file_status() {
    let mut store = Store::new(String::new(), String::new());
    let f = "f.rs".to_string();
    assert_eq!(store.get_file_status(&f).unwrap(), FileStatus::Unreviewed);

    store.set_file_status(&f, FileStatus::Clean).unwrap();
    assert_eq!(store.get_file_status(&f).unwrap(), FileStatus::Clean);

    store.set_file_status(&f, FileStatus::Annotated).unwrap();
    assert_eq!(store.get_file_status(&f).unwrap(), FileStatus::Annotated);
}

#[test]
fn test_blank_lines_skipped_on_load() {
    let a = Annotation::new("f.rs".into(), 1, 2, "kept".into());
    let mut store = Store::new("\n   \n".to_string(), String::new());
    store.append_annotation(&a);
    let loaded = store.load_annotations().unwrap();
    assert_eq!(loaded.len(), 1);
    assert_eq!(loaded[0], a);
}

#[test]
fn test_bad_line_fails_load_with_line_number() {
    let store = Store::new("\nnot a record\n".to_string(), String::new());
    match store.load_annotations() {
        Err(StoreError::Format { line }) => assert_eq!(line, 2),
        other => panic!("expected a format error, got {:?}", other),
    }
}

#[test]
fn test_store_round_trip_many() {
    // Saving any list and loading it back gives the list, in order.
    let items = vec![
        Annotation::new("a.rs".into(), 1, 1, "first".into()),
        Annotation::new("b.rs".into(), 2, 9, "second \"with\" quotes".into()),
        Annotation::new("c/d.rs".into(), 3, 3, "third\nline".into()),
    ];
    let mut store = Store::new(String::new(), String::new());
    store.save_annotations(&items);
    let loaded = store.load_annotations().unwrap();
    assert_eq!(loaded, items);
}

#[test]
fn test_session_default() {
    let s = Session::default();
    assert!(s.current_file.is_none());
    assert_eq!(s.current_line, 0);
    assert_eq!(s.current_col, 0);
    assert_eq!(s.scroll_offset, 0);
    assert!(s.last_adjust_commit.is_none());
}

#[test]
fn test_session_save_load() {
    let s = Session {
        current_file: Some("src/main.rs".into()),
        current_line: 42,
        current_col: 8,
        scroll_offset: 30,
        last_adjust_commit: Some("abc123".into()),
    };
    let text = s.render();

    let loaded = Session::parse(&text).unwrap();
    assert_eq!(loaded.current_file.as_deref(), Some("src/main.rs"));
    assert_eq!(loaded.current_line, 42);
    assert_eq!(loaded.current_col, 8);
    assert_eq!(loaded.scroll_offset, 30);
    assert_eq!(loaded.last_adjust_commit.as_deref(), Some("abc123"));
}

#[test]
fn test_session_none_fields_round_trip() {
    let s = Session::default();
    let text = s.render();
    let loaded = Session::parse(&text).unwrap();
    assert!(loaded.current_file.is_none());
    assert!(loaded.last_adjust_commit.is_none());
}

#[test]
fn test_session_anchor_reconciliation() {
    // No anchor: nothing to adjust from; a fresh session adopts the head.
    let mut s = Session::default();
    assert!(!s.has_anchor());
    let head = "cafe01".to_string();
    assert!(s.needs_adjustment(&head).is_none());

    // Anchor behind the head: adjust from the anchor.
    s.advance_anchor("old99");
    assert_eq!(s.needs_adjustment(&head).as_deref(), Some("old99"));

    // Once advanced to the head, a session at that snapshot does nothing.
    s.advance_anchor(&head);
    assert!(s.needs_adjustment(&head).is_none());
    assert_eq!(s.last_adjust_commit.as_deref(), Some("cafe01"));
}
