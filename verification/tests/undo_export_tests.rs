use annotator::annotation::Annotation;
use annotator::export::export_markdown;
use annotator::file_list::{has_binary_extension, has_nul_in_head};
use annotator::selection::Selection;
use annotator::undo::{UndoAction, UndoStack};

fn make_annotation(text: &str) -> Annotation {
    Annotation::new("f.rs".into(), 1, 1, text.into())
}

#[test]
fn test_undo_redo_create() {
    let mut stack = UndoStack::default();
    let a = make_annotation("test");

    stack.push(UndoAction::Create(a.clone()));
    assert!(stack.can_undo());
    assert!(!stack.can_redo());

    let undo = stack.undo().unwrap();
    assert!(matches!(undo, UndoAction::Delete(_)));
    assert!(!stack.can_undo());
    assert!(stack.can_redo());

    let redo = stack.redo().unwrap();
    assert!(matches!(redo, UndoAction::Delete(_)));
    assert!(stack.can_undo());
    assert!(!stack.can_redo());
}

#[test]
fn test_push_clears_redo() {
    let mut stack = UndoStack::default();
    stack.push(UndoAction::Create(make_annotation("a")));
    stack.push(UndoAction::Create(make_annotation("b")));
    stack.undo();
    assert!(stack.can_redo());

    stack.push(UndoAction::Create(make_annotation("c")));
    assert!(!stack.can_redo());
}

#[test]
fn test_empty_undo_redo() {
    let mut stack = UndoStack::default();
    assert!(stack.undo().is_none());
    assert!(stack.redo().is_none());
}

#[test]
fn test_update_invert() {
    let before = make_annotation("old");
    let after = make_annotation("new");
    let action = UndoAction::Update {
        before: before.clone(),
        after: after.clone(),
    };
    let inverted = action.invert();
    match inverted {
        UndoAction::Update { before: inv_before, after: inv_after } => {
            assert_eq!(inv_before.text, "new");
            assert_eq!(inv_after.text, "old");
        }
        _ => panic!("expected an update action"),
    }
}

#[test]
fn test_invert_involution() {
    let a = make_annotation("x");
    let action = UndoAction::Create(a.clone());
    let back = action.invert().invert();
    match back {
        UndoAction::Create(b) => assert_eq!(a, b),
        _ => panic!("expected a create action"),
    }
}

#[test]
fn markdown_test_empty() {
    let md = export_markdown(&[]);
    assert!(md.contains("No annotations found"));
}

#[test]
fn markdown_test_export() {
    let anns = vec![
        Annotation::new("src/b.rs".into(), 10, 20, "refactor this".into()),
        Annotation::new("src/a.rs".into(), 5, 5, "fix bug".into()),
        Annotation::new("src/a.rs".into(), 15, 18, "add tests".into()),
    ];
    let md = export_markdown(&anns);
    assert!(md.contains("## `src/a.rs`"));
    assert!(md.contains("## `src/b.rs`"));
    assert!(md.contains("**Line 5**: fix bug"));
    assert!(md.contains("**Lines 10-20**: refactor this"));
    assert!(md.contains("**Lines 15-18**: add tests"));
    // a.rs should come before b.rs (sorted)
    let a_pos = md.find("src/a.rs").unwrap();
    let b_pos = md.find("src/b.rs").unwrap();
    assert!(a_pos < b_pos);
}

#[test]
fn markdown_exact_output() {
    let anns = vec![
        Annotation::new("b.rs".into(), 7, 9, "second".into()),
        Annotation::new("a.rs".into(), 2, 2, "first".into()),
    ];
    let md = export_markdown(&anns);
    assert_eq!(
        md,
        "# Annotations\n\n## `a.rs`\n\n- **Line 2**: first\n\n## `b.rs`\n\n- **Lines 7-9**: second\n\n"
    );
}

#[test]
fn markdown_groups_sorted_by_start_line() {
    let anns = vec![
        Annotation::new("x.rs".into(), 30, 30, "later".into()),
        Annotation::new("x.rs".into(), 4, 6, "earlier".into()),
    ];
    let md = export_markdown(&anns);
    let early = md.find("earlier").unwrap();
    let late = md.find("later").unwrap();
    assert!(early < late);
}

#[test]
fn test_selection_new_and_extend() {
    let mut sel = Selection::new(10, 4);
    assert_eq!((sel.start_line, sel.end_line), (10, 10));

    sel.extend_to(14, 0);
    assert_eq!((sel.start_line, sel.start_col), (10, 4));
    assert_eq!((sel.end_line, sel.end_col), (14, 0));

    sel.extend_to(7, 9);
    assert_eq!((sel.start_line, sel.start_col), (7, 9));
    assert_eq!((sel.end_line, sel.end_col), (10, 4));
}

#[test]
fn test_selection_contains_line() {
    let mut sel = Selection::new(5, 0);
    sel.extend_to(9, 3);
    assert!(!sel.contains_line(4));
    assert!(sel.contains_line(5));
    assert!(sel.contains_line(9));
    assert!(!sel.contains_line(10));
}

#[test]
fn test_binary_extension() {
    assert!(has_binary_extension("image.png"));
    assert!(has_binary_extension("SHOUTY.PNG"));
    assert!(has_binary_extension("archive.tar.gz"));
    assert!(has_binary_extension("dir.with.dots/font.woff2"));
    assert!(!has_binary_extension("code.rs"));
    assert!(!has_binary_extension("README"));
    assert!(!has_binary_extension("dir.with.dots/README"));
}

#[test]
fn test_nul_detection() {
    assert!(!has_nul_in_head(b"hello world"));
    assert!(has_nul_in_head(b"hel\x00lo"));
    let mut big = vec![1u8; 9000];
    big[8500] = 0;
    assert!(!has_nul_in_head(&big));
    big[100] = 0;
    assert!(has_nul_in_head(&big));
}
