use annotator::adjust::{adjust_annotation, adjust_annotations, apply_adjustments_at};
use annotator::annotation::{AdjustResult, Annotation};
use annotator::diff::{DiffLine, DiffLineType, FileDiff, FileDiffStatus, Hunk};
use annotator::rename::apply_renames;

fn make_annotation(start: u32, end: u32) -> Annotation {
    Annotation::new("test.rs".into(), start, end, "note".into())
}

fn make_hunk(old_start: u32, old_lines: u32, new_start: u32, new_lines: u32, lines: Vec<DiffLine>) -> Hunk {
    Hunk { old_start, old_lines, new_start, new_lines, lines }
}

fn deletion_line(old_lineno: u32) -> DiffLine {
    DiffLine {
        origin: DiffLineType::Deletion,
        old_lineno: Some(old_lineno),
        new_lineno: None,
        content: "deleted".into(),
    }
}

fn addition_line(new_lineno: u32) -> DiffLine {
    DiffLine {
        origin: DiffLineType::Addition,
        old_lineno: None,
        new_lineno: Some(new_lineno),
        content: "added".into(),
    }
}

fn context_line(old: u32, new: u32) -> DiffLine {
    DiffLine {
        origin: DiffLineType::Context,
        old_lineno: Some(old),
        new_lineno: Some(new),
        content: "ctx".into(),
    }
}

fn modified(hunks: Vec<Hunk>) -> FileDiff {
    FileDiff {
        old_path: Some("test.rs".into()),
        new_path: Some("test.rs".into()),
        hunks,
        status: FileDiffStatus::Modified,
    }
}

#[test]
fn test_deleted_file() {
    let a = make_annotation(5, 10);
    let diff = FileDiff {
        old_path: Some("test.rs".into()),
        new_path: None,
        hunks: vec![],
        status: FileDiffStatus::Deleted,
    };
    assert_eq!(adjust_annotation(&a, &diff), AdjustResult::Deleted);
}

#[test]
fn test_no_overlap_before() {
    // 3 lines inserted before annotation at lines 10-15
    let a = make_annotation(10, 15);
    let hunk = make_hunk(1, 0, 1, 3, vec![
        addition_line(1),
        addition_line(2),
        addition_line(3),
    ]);
    let diff = modified(vec![hunk]);
    assert_eq!(
        adjust_annotation(&a, &diff),
        AdjustResult::Shifted {
            old_start: 10,
            old_end: 15,
            new_start: 13,
            new_end: 18,
        }
    );
}

#[test]
fn test_no_overlap_after() {
    let a = make_annotation(5, 10);
    let hunk = make_hunk(20, 2, 20, 5, vec![
        context_line(20, 20),
        deletion_line(21),
        addition_line(21),
        addition_line(22),
        addition_line(23),
        addition_line(24),
    ]);
    let diff = modified(vec![hunk]);
    assert_eq!(adjust_annotation(&a, &diff), AdjustResult::Unchanged);
}

#[test]
fn test_all_lines_deleted() {
    let a = make_annotation(5, 7);
    let hunk = make_hunk(5, 3, 5, 0, vec![
        deletion_line(5),
        deletion_line(6),
        deletion_line(7),
    ]);
    let diff = modified(vec![hunk]);
    assert_eq!(adjust_annotation(&a, &diff), AdjustResult::Deleted);
}

#[test]
fn test_partial_deletion_conflict() {
    let a = make_annotation(5, 10);
    let hunk = make_hunk(5, 3, 5, 1, vec![
        context_line(5, 5),
        deletion_line(6),
        deletion_line(7),
    ]);
    let diff = modified(vec![hunk]);
    let result = adjust_annotation(&a, &diff);
    match result {
        AdjustResult::Conflict { deleted_lines } => {
            assert_eq!(deleted_lines, vec![6, 7]);
        }
        other => panic!("expected Conflict, got {:?}", other),
    }
}

#[test]
fn test_added_file_unchanged() {
    let a = make_annotation(1, 5);
    let diff = FileDiff {
        old_path: None,
        new_path: Some("test.rs".into()),
        hunks: vec![],
        status: FileDiffStatus::Added,
    };
    assert_eq!(adjust_annotation(&a, &diff), AdjustResult::Unchanged);
}

#[test]
fn test_apply_renames() {
    let mut annotations = vec![
        Annotation::new("old/path.rs".into(), 1, 5, "note".into()),
        Annotation::new("other.rs".into(), 1, 1, "note2".into()),
    ];

    let diffs = vec![FileDiff {
        old_path: Some("old/path.rs".into()),
        new_path: Some("new/path.rs".into()),
        hunks: vec![],
        status: FileDiffStatus::Renamed,
    }];

    let renames = apply_renames(&mut annotations, &diffs);
    assert_eq!(renames, vec![("old/path.rs".to_string(), "new/path.rs".to_string())]);
    assert_eq!(annotations[0].file_path, "new/path.rs");
    assert_eq!(annotations[1].file_path, "other.rs");
}

#[test]
fn test_no_renames() {
    let mut annotations = vec![
        Annotation::new("f.rs".into(), 1, 1, "note".into()),
    ];
    let diffs = vec![FileDiff {
        old_path: Some("f.rs".into()),
        new_path: Some("f.rs".into()),
        hunks: vec![],
        status: FileDiffStatus::Modified,
    }];

    let renames = apply_renames(&mut annotations, &diffs);
    assert!(renames.is_empty());
    assert_eq!(annotations[0].file_path, "f.rs");
}

#[test]
fn test_rename_without_match_not_reported() {
    // A rename that moves no annotation stays out of the report.
    let mut annotations = vec![Annotation::new("kept.rs".into(), 1, 1, "note".into())];
    let diffs = vec![FileDiff {
        old_path: Some("gone.rs".into()),
        new_path: Some("new.rs".into()),
        hunks: vec![],
        status: FileDiffStatus::Renamed,
    }];
    let renames = apply_renames(&mut annotations, &diffs);
    assert!(renames.is_empty());
    assert_eq!(annotations[0].file_path, "kept.rs");
}

#[test]
fn test_rename_then_shift() {
    // An annotation follows its file through a rename, then shifts with the
    // hunks reported on the new path.
    let mut annotations = vec![Annotation::new("old.rs".into(), 10, 15, "note".into())];
    let rename = FileDiff {
        old_path: Some("old.rs".into()),
        new_path: Some("new.rs".into()),
        hunks: vec![],
        status: FileDiffStatus::Renamed,
    };
    let edit = FileDiff {
        old_path: Some("new.rs".into()),
        new_path: Some("new.rs".into()),
        hunks: vec![make_hunk(2, 0, 3, 2, vec![addition_line(3), addition_line(4)])],
        status: FileDiffStatus::Modified,
    };
    let diffs = vec![rename, edit];
    let renames = apply_renames(&mut annotations, &diffs);
    assert_eq!(renames, vec![("old.rs".to_string(), "new.rs".to_string())]);
    assert_eq!(annotations[0].file_path, "new.rs");

    let results = adjust_annotations(&annotations, &diffs[1..]);
    assert_eq!(results.len(), 1);
    assert_eq!(
        results[0].1,
        AdjustResult::Shifted { old_start: 10, old_end: 15, new_start: 12, new_end: 17 }
    );
}

#[test]
fn test_rename_with_edits() {
    // A single Renamed diff may carry hunks: the path moves first, then the
    // same diff's hunks shift the annotation.
    let mut annotations = vec![Annotation::new("old.rs".into(), 10, 15, "note".into())];
    let diff = FileDiff {
        old_path: Some("old.rs".into()),
        new_path: Some("new.rs".into()),
        hunks: vec![make_hunk(2, 0, 3, 2, vec![addition_line(3), addition_line(4)])],
        status: FileDiffStatus::Renamed,
    };
    let diffs = vec![diff];
    let renames = apply_renames(&mut annotations, &diffs);
    assert_eq!(renames.len(), 1);
    assert_eq!(annotations[0].file_path, "new.rs");

    let results = adjust_annotations(&annotations, &diffs);
    assert_eq!(
        results[0].1,
        AdjustResult::Shifted { old_start: 10, old_end: 15, new_start: 12, new_end: 17 }
    );
}

#[test]
fn test_deletion_just_before_start_shifts_up() {
    // A deletion at start - 1 is pre-range: the annotation moves up by one.
    let a = make_annotation(5, 10);
    let hunk = make_hunk(4, 1, 4, 0, vec![deletion_line(4)]);
    let diff = modified(vec![hunk]);
    assert_eq!(
        adjust_annotation(&a, &diff),
        AdjustResult::Shifted { old_start: 5, old_end: 10, new_start: 4, new_end: 9 }
    );
}

#[test]
fn test_insertion_inside_range_ignored() {
    // Lines added strictly inside the annotation expand it without moving
    // it: the range is reported unchanged.
    let a = make_annotation(5, 10);
    let hunk = make_hunk(6, 0, 7, 2, vec![addition_line(7), addition_line(8)]);
    let diff = modified(vec![hunk]);
    assert_eq!(adjust_annotation(&a, &diff), AdjustResult::Unchanged);
}

#[test]
fn test_shift_preserves_range_length() {
    let a = make_annotation(40, 52);
    let hunk = make_hunk(1, 2, 1, 9, vec![
        deletion_line(1),
        deletion_line(2),
        addition_line(1),
        addition_line(2),
        addition_line(3),
        addition_line(4),
        addition_line(5),
        addition_line(6),
        addition_line(7),
        addition_line(8),
        addition_line(9),
    ]);
    let diff = modified(vec![hunk]);
    match adjust_annotation(&a, &diff) {
        AdjustResult::Shifted { old_start, old_end, new_start, new_end } => {
            assert_eq!(old_start, 40);
            assert_eq!(old_end, 52);
            assert_eq!(new_end - new_start, old_end - old_start);
            assert_eq!(new_start, 47);
        }
        other => panic!("expected Shifted, got {:?}", other),
    }
}

#[test]
fn test_adjust_against_empty_diffs_unchanged() {
    // With no diffs at all, every annotation's outcome is Unchanged.
    let annotations = vec![make_annotation(1, 3), make_annotation(7, 9)];
    let results = adjust_annotations(&annotations, &[]);
    assert_eq!(results.len(), 2);
    for (_, r) in &results {
        assert_eq!(*r, AdjustResult::Unchanged);
    }
}

#[test]
fn test_apply_adjustments_idempotent() {
    // Applying the same result batch twice gives the same annotations as
    // applying it once.
    let a = make_annotation(10, 15);
    let b = make_annotation(20, 22);
    let hunk = make_hunk(1, 0, 1, 3, vec![
        addition_line(1),
        addition_line(2),
        addition_line(3),
    ]);
    let diff = modified(vec![hunk]);
    let annotations = vec![a, b];
    let results = adjust_annotations(&annotations, &[diff]);

    let mut once = annotations.clone();
    apply_adjustments_at(&mut once, &results, "2024-01-01T00:00:00+00:00");

    let mut twice = annotations.clone();
    apply_adjustments_at(&mut twice, &results, "2024-01-01T00:00:00+00:00");
    apply_adjustments_at(&mut twice, &results, "2024-01-01T00:00:00+00:00");

    assert_eq!(once, twice);
    assert_eq!(once[0].start_line, 13);
    assert_eq!(once[0].end_line, 18);
    assert_eq!(once[1].start_line, 23);
    assert_eq!(once[1].end_line, 25);
}

#[test]
fn test_apply_adjustments_deletes_record() {
    let a = make_annotation(5, 7);
    let hunk = make_hunk(5, 3, 5, 0, vec![
        deletion_line(5),
        deletion_line(6),
        deletion_line(7),
    ]);
    let diff = modified(vec![hunk]);
    let mut annotations = vec![a];
    let results = adjust_annotations(&annotations, &[diff]);
    apply_adjustments_at(&mut annotations, &results, "2024-01-01T00:00:00+00:00");
    assert!(annotations.is_empty());
}

#[test]
fn test_conflict_leaves_record_in_place() {
    let a = make_annotation(5, 10);
    let hunk = make_hunk(5, 3, 5, 1, vec![
        context_line(5, 5),
        deletion_line(6),
        deletion_line(7),
    ]);
    let diff = modified(vec![hunk]);
    let mut annotations = vec![a.clone()];
    let results = adjust_annotations(&annotations, &[diff]);
    assert!(matches!(results[0].1, AdjustResult::Conflict { .. }));
    apply_adjustments_at(&mut annotations, &results, "2024-01-01T00:00:00+00:00");
    assert_eq!(annotations.len(), 1);
    assert_eq!(annotations[0].start_line, a.start_line);
    assert_eq!(annotations[0].end_line, a.end_line);
}

#[test]
fn test_shift_below_line_one_deletes() {
    // A shift that would push the range above the top of the file deletes
    // the annotation: its anchor vanished.
    let hunk = make_hunk(1, 2, 1, 0, vec![deletion_line(1), deletion_line(2)]);
    let diff = modified(vec![hunk]);
    let a = make_annotation(3, 4);
    assert_eq!(
        adjust_annotation(&a, &diff),
        AdjustResult::Shifted { old_start: 3, old_end: 4, new_start: 1, new_end: 2 }
    );
    // The same deletions above an annotation starting at line 2 would put
    // its start at 0: the anchor is gone.
    let hunk2 = make_hunk(1, 2, 1, 0, vec![deletion_line(1), deletion_line(1)]);
    let diff2 = modified(vec![hunk2]);
    let a2 = make_annotation(2, 3);
    assert_eq!(adjust_annotation(&a2, &diff2), AdjustResult::Deleted);
}
