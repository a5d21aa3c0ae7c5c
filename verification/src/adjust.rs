//! The adjustment engine: given an annotation and the diff of its file,
//! compute where the annotation lands — shifted, deleted, conflicted, or
//! unchanged — and apply a batch of such results to the annotation list.
//!
//! The walk over a file's hunks keeps a running `offset`, the net number of
//! lines added minus removed strictly before the annotation's old start, and
//! collects the old line numbers inside the annotation that a deletion
//! removed. Changes inside the range expand or contract the annotation's
//! body without moving it, so they do not contribute to the shift.

use vstd::prelude::*;

use crate::annotation::{AdjustResult, AdjustResultView, Annotation, AnnotationView};
use crate::diff::{DiffLine, DiffLineType, FileDiff, FileDiffStatus, FileDiffView, HunkView};

verus! {

/// The old line numbers among `lines` that a deletion removed and that fall
/// inside `[start, end]`, in hunk order.
pub open spec fn deleted_in_range(lines: Seq<crate::diff::DiffLineView>, start: int, end: int)
    -> Seq<u32>
    decreases lines.len(),
{
    if lines.len() == 0 {
        Seq::empty()
    } else {
        let rest = deleted_in_range(lines.drop_last(), start, end);
        let l = lines.last();
        if l.origin == DiffLineType::Deletion && l.old_lineno is Some && start
            <= l.old_lineno->Some_0 <= end {
            rest.push(l.old_lineno->Some_0)
        } else {
            rest
        }
    }
}

/// Net line change contributed by `lines` strictly before `start`, with
/// `offset` the shift accumulated from earlier hunks. A deletion counts when
/// its old line number is below `start`; an addition counts when its
/// effective old position — its new line number minus every shift
/// accumulated so far — is below `start`.
pub open spec fn hunk_pre_offset(lines: Seq<crate::diff::DiffLineView>, offset: int, start: int)
    -> int
    decreases lines.len(),
{
    if lines.len() == 0 {
        0
    } else {
        let acc = hunk_pre_offset(lines.drop_last(), offset, start);
        let l = lines.last();
        if l.origin == DiffLineType::Deletion && l.old_lineno is Some && l.old_lineno->Some_0
            < start {
            acc - 1
        } else if l.origin == DiffLineType::Addition && l.new_lineno is Some && l.new_lineno->Some_0
            - offset - acc < start {
            acc + 1
        } else {
            acc
        }
    }
}

/// The walk over a file's hunks, sorted by `old_start`: a hunk wholly before
/// the annotation shifts it by its net offset; the first hunk wholly after
/// it stops the walk; an overlapping hunk records its in-range deletions and
/// shifts the annotation by its pre-range contribution only.
pub open spec fn walk_hunks(
    hunks: Seq<HunkView>,
    start: int,
    end: int,
    offset: int,
    deleted: Seq<u32>,
) -> (int, Seq<u32>)
    decreases hunks.len(),
{
    if hunks.len() == 0 {
        (offset, deleted)
    } else {
        let h = hunks[0];
        if h.spec_old_end() < start {
            walk_hunks(hunks.drop_first(), start, end, offset + h.spec_net_offset(), deleted)
        } else if h.old_start > end {
            (offset, deleted)
        } else {
            walk_hunks(
                hunks.drop_first(),
                start,
                end,
                offset + hunk_pre_offset(h.lines, offset, start),
                deleted + deleted_in_range(h.lines, start, end),
            )
        }
    }
}

/// What adjusting one annotation against the diff of its file yields.
///
/// A deleted file deletes the annotation; an added file leaves it alone.
/// Otherwise the hunk walk fixes a shift and the deleted lines, and the
/// result classifies them: every line deleted means the annotation is gone;
/// some lines deleted is a conflict for the user; no shift means unchanged;
/// a shift that would push the range outside `1..=u32::MAX` deletes the
/// annotation (its anchor vanished); any other shift moves the whole range,
/// preserving its length.
pub open spec fn spec_adjust(a: AnnotationView, d: FileDiffView) -> AdjustResultView {
    if d.status == FileDiffStatus::Deleted {
        AdjustResultView::Deleted
    } else if d.status == FileDiffStatus::Added {
        AdjustResultView::Unchanged
    } else {
        let walked = walk_hunks(d.hunks, a.start_line as int, a.end_line as int, 0, Seq::empty());
        let offset = walked.0;
        let deleted = walked.1;
        if deleted.len() == a.end_line - a.start_line + 1 {
            AdjustResultView::Deleted
        } else if deleted.len() > 0 {
            AdjustResultView::Conflict { deleted_lines: deleted }
        } else if offset == 0 {
            AdjustResultView::Unchanged
        } else if a.start_line + offset < 1 || a.end_line + offset > u32::MAX {
            AdjustResultView::Deleted
        } else {
            AdjustResultView::Shifted {
                old_start: a.start_line,
                old_end: a.end_line,
                new_start: (a.start_line + offset) as u32,
                new_end: (a.end_line + offset) as u32,
            }
        }
    }
}

proof fn lemma_pre_offset_bounded(lines: Seq<crate::diff::DiffLineView>, offset: int, start: int)
    ensures
        -(lines.len() as int) <= hunk_pre_offset(lines, offset, start) <= lines.len() as int,
    decreases lines.len(),
{
    if lines.len() > 0 {
        lemma_pre_offset_bounded(lines.drop_last(), offset, start);
    }
}

/// Adjust one annotation against the diff of its file.
pub fn adjust_annotation(annotation: &Annotation, file_diff: &FileDiff) -> (r: AdjustResult)
    requires
        1 <= annotation@.start_line <= annotation@.end_line,
        file_diff@.wf(),
    ensures
        r@ == spec_adjust(annotation@, file_diff@),
        r@ matches AdjustResultView::Shifted { old_start, old_end, new_start, new_end } ==> {
            &&& old_start == annotation@.start_line
            &&& old_end == annotation@.end_line
            &&& new_end - new_start == annotation@.end_line - annotation@.start_line
        },
{
    match file_diff.status {
        FileDiffStatus::Deleted => {
            return AdjustResult::Deleted;
        },
        FileDiffStatus::Added => {
            return AdjustResult::Unchanged;
        },
        _ => {},
    }

    let start = annotation.start_line;
    let end = annotation.end_line;
    let ghost hv = file_diff@.hunks;

    let mut offset: i128 = 0;
    let mut deleted: Vec<u32> = Vec::new();
    let mut i: usize = 0;
    let mut stopped = false;

    proof {
        assert(hv.skip(0) =~= hv);
    }

    while i < file_diff.hunks.len() && !stopped
        invariant
            1 <= start <= end,
            file_diff@.wf(),
            hv == file_diff@.hunks,
            hv.len() == file_diff.hunks@.len(),
            i <= file_diff.hunks@.len(),
            -(i as int) * 0x1_0000_0000 <= offset <= (i as int) * 0x1_0000_0000,
            walk_hunks(hv, start as int, end as int, 0, Seq::empty()) == if stopped {
                (offset as int, deleted@)
            } else {
                walk_hunks(hv.skip(i as int), start as int, end as int, offset as int, deleted@)
            },
        decreases file_diff.hunks@.len() - i + if stopped {
            0int
        } else {
            1int
        },
    {
        let hunk = &file_diff.hunks[i];
        proof {
            assert(hv[i as int] == hunk@);
            assert(hv.skip(i as int)[0] == hv[i as int]);
            assert(hv.skip(i as int).drop_first() =~= hv.skip(i as int + 1));
        }
        let hunk_old_end = hunk.old_end();

        if hunk_old_end < start {
            offset = offset + hunk.net_offset() as i128;
            i = i + 1;
        } else if hunk.old_start > end {
            stopped = true;
        } else {
            let ghost lv = hunk@.lines;
            let ghost deleted_before = deleted@;
            let ghost offset0 = offset as int;

            // In-range deletions of this hunk, in hunk order.
            let mut j: usize = 0;
            while j < hunk.lines.len()
                invariant
                    1 <= start <= end,
                    lv == hunk@.lines,
                    lv.len() == hunk.lines@.len(),
                    j <= hunk.lines@.len(),
                    deleted@ == deleted_before + deleted_in_range(
                        lv.take(j as int),
                        start as int,
                        end as int,
                    ),
                decreases hunk.lines@.len() - j,
            {
                let l = &hunk.lines[j];
                proof {
                    assert(lv[j as int] == l@);
                    assert(lv.take(j as int + 1).drop_last() =~= lv.take(j as int));
                    assert(lv.take(j as int + 1).last() == lv[j as int]);
                }
                if l.origin == DiffLineType::Deletion {
                    if let Some(old) = l.old_lineno {
                        if old >= start && old <= end {
                            deleted.push(old);
                        }
                    }
                }
                j = j + 1;
            }
            proof {
                assert(lv.take(lv.len() as int) =~= lv);
            }

            // Net contribution of this hunk strictly before the annotation.
            let mut pre: i128 = 0;
            let mut k: usize = 0;
            while k < hunk.lines.len()
                invariant
                    1 <= start <= end,
                    lv == hunk@.lines,
                    lv.len() == hunk.lines@.len(),
                    k <= hunk.lines@.len(),
                    offset == offset0,
                    -(k as int) <= pre <= k as int,
                    -0x1_0000_0000_0000_0000 <= offset0 <= 0x1_0000_0000_0000_0000,
                    pre == hunk_pre_offset(lv.take(k as int), offset0, start as int),
                decreases hunk.lines@.len() - k,
            {
                let l = &hunk.lines[k];
                proof {
                    assert(lv[k as int] == l@);
                    assert(lv.take(k as int + 1).drop_last() =~= lv.take(k as int));
                    assert(lv.take(k as int + 1).last() == lv[k as int]);
                }
                match l.origin {
                    DiffLineType::Deletion => {
                        if let Some(old) = l.old_lineno {
                            if old < start {
                                pre = pre - 1;
                            }
                        }
                    },
                    DiffLineType::Addition => {
                        if let Some(new) = l.new_lineno {
                            let effective_old: i128 = new as i128 - offset - pre;
                            if effective_old < start as i128 {
                                pre = pre + 1;
                            }
                        }
                    },
                    DiffLineType::Context => {},
                }
                k = k + 1;
            }
            proof {
                assert(lv.take(lv.len() as int) =~= lv);
                assert(hv[i as int].wf());
                lemma_pre_offset_bounded(lv, offset0, start as int);
            }
            offset = offset + pre;
            i = i + 1;
        }
    }

    proof {
        if !stopped {
            assert(hv.skip(hv.len() as int) =~= Seq::<HunkView>::empty());
        }
        assert(walk_hunks(hv, start as int, end as int, 0, Seq::empty()) == (
            offset as int,
            deleted@,
        ));
    }

    let total: u32 = end - start + 1;

    if deleted.len() == total as usize {
        return AdjustResult::Deleted;
    }
    if deleted.len() > 0 {
        return AdjustResult::Conflict { deleted_lines: deleted };
    }
    if offset == 0 {
        return AdjustResult::Unchanged;
    }

    let new_start: i128 = start as i128 + offset;
    let new_end: i128 = end as i128 + offset;
    if new_start < 1 || new_end > u32::MAX as i128 {
        return AdjustResult::Deleted;
    }
    AdjustResult::Shifted {
        old_start: start,
        old_end: end,
        new_start: new_start as u32,
        new_end: new_end as u32,
    }
}

/// Whether `d` describes the file at `path`, on either side of the change.
pub open spec fn diff_matches(d: FileDiffView, path: Seq<char>) -> bool {
    ||| d.old_path is Some && d.old_path->Some_0 == path
    ||| d.new_path is Some && d.new_path->Some_0 == path
}

/// The first diff in `diffs` that describes the file at `path`.
pub open spec fn spec_find_diff(diffs: Seq<FileDiffView>, path: Seq<char>) -> Option<FileDiffView>
    decreases diffs.len(),
{
    if diffs.len() == 0 {
        None
    } else if diff_matches(diffs[0], path) {
        Some(diffs[0])
    } else {
        spec_find_diff(diffs.drop_first(), path)
    }
}

/// The outcome for one annotation against a whole snapshot diff: adjusted
/// against the first diff of its file, untouched when no diff names it.
pub open spec fn spec_adjust_outcome(a: AnnotationView, diffs: Seq<FileDiffView>)
    -> AdjustResultView {
    match spec_find_diff(diffs, a.file_path) {
        Some(d) => spec_adjust(a, d),
        None => AdjustResultView::Unchanged,
    }
}

/// Models of a sequence of diffs.
pub open spec fn diff_views(s: Seq<FileDiff>) -> Seq<FileDiffView> {
    Seq::new(s.len(), |i: int| s[i]@)
}

/// Models of a sequence of annotations.
pub open spec fn ann_views(s: Seq<Annotation>) -> Seq<AnnotationView> {
    Seq::new(s.len(), |i: int| s[i]@)
}

/// Models of a sequence of per-annotation results.
pub open spec fn pair_views(s: Seq<(Annotation, AdjustResult)>) -> Seq<
    (AnnotationView, AdjustResultView),
> {
    Seq::new(s.len(), |i: int| (s[i].0@, s[i].1@))
}

fn find_diff<'a>(diffs: &'a [FileDiff], path: &String) -> (r: Option<&'a FileDiff>)
    ensures
        match r {
            Some(d) => spec_find_diff(diff_views(diffs@), path@) == Some(d@) && exists|k: int|
                0 <= k < diffs@.len() && #[trigger] diffs@[k]@ == d@,
            None => spec_find_diff(diff_views(diffs@), path@) is None,
        },
{
    let ghost dv = diff_views(diffs@);
    let mut i: usize = 0;
    proof {
        assert(dv.skip(0) =~= dv);
    }
    while i < diffs.len()
        invariant
            dv == diff_views(diffs@),
            i <= diffs@.len(),
            spec_find_diff(dv, path@) == spec_find_diff(dv.skip(i as int), path@),
        decreases diffs@.len() - i,
    {
        let d = &diffs[i];
        proof {
            assert(dv[i as int] == d@);
            assert(dv.skip(i as int).len() == dv.len() - i);
            assert(dv.skip(i as int)[0] == dv[i as int]);
            assert(dv.skip(i as int).drop_first() =~= dv.skip(i as int + 1));
        }
        let old_matches = match &d.old_path {
            Some(p) => *p == *path,
            None => false,
        };
        let new_matches = match &d.new_path {
            Some(p) => *p == *path,
            None => false,
        };
        proof {
            assert(diff_matches(dv[i as int], path@) == (old_matches || new_matches));
        }
        if old_matches || new_matches {
            proof {
                assert(spec_find_diff(dv.skip(i as int), path@) == Some(dv[i as int]));
            }
            return Some(d);
        }
        i = i + 1;
    }
    proof {
        assert(dv.skip(dv.len() as int) =~= Seq::<FileDiffView>::empty());
    }
    None
}

/// Adjust every annotation against the diff of its file, pairing each with
/// its outcome. An annotation whose file no diff names is untouched.
pub fn adjust_annotations(annotations: &[Annotation], diffs: &[FileDiff]) -> (r: Vec<
    (Annotation, AdjustResult),
>)
    requires
        forall|i: int|
            0 <= i < annotations@.len() ==> 1 <= (#[trigger] annotations@[i])@.start_line
                <= annotations@[i]@.end_line,
        forall|i: int| 0 <= i < diffs@.len() ==> (#[trigger] diffs@[i])@.wf(),
    ensures
        r@.len() == annotations@.len(),
        forall|i: int|
            0 <= i < r@.len() ==> (#[trigger] r@[i]).0@ == annotations@[i]@ && r@[i].1@
                == spec_adjust_outcome(annotations@[i]@, diff_views(diffs@)),
{
    let mut r: Vec<(Annotation, AdjustResult)> = Vec::new();
    let mut i: usize = 0;
    while i < annotations.len()
        invariant
            forall|k: int|
                0 <= k < annotations@.len() ==> 1 <= (#[trigger] annotations@[k])@.start_line
                    <= annotations@[k]@.end_line,
            forall|k: int| 0 <= k < diffs@.len() ==> (#[trigger] diffs@[k])@.wf(),
            i <= annotations@.len(),
            r@.len() == i,
            forall|k: int|
                0 <= k < i ==> (#[trigger] r@[k]).0@ == annotations@[k]@ && r@[k].1@
                    == spec_adjust_outcome(annotations@[k]@, diff_views(diffs@)),
        decreases annotations@.len() - i,
    {
        let a = &annotations[i];
        let result = match find_diff(diffs, &a.file_path) {
            Some(d) => {
                proof {
                    let k = choose|k: int| 0 <= k < diffs@.len() && #[trigger] diffs@[k]@ == d@;
                    assert(diffs@[k]@.wf());
                }
                adjust_annotation(a, d)
            },
            None => AdjustResult::Unchanged,
        };
        r.push((a.duplicate(), result));
        i = i + 1;
    }
    r
}

/// The result recorded for the annotation with identity `id`, if any.
pub open spec fn result_for(rs: Seq<(AnnotationView, AdjustResultView)>, id: u128) -> Option<
    AdjustResultView,
>
    decreases rs.len(),
{
    if rs.len() == 0 {
        None
    } else if rs[0].0.id == id {
        Some(rs[0].1)
    } else {
        result_for(rs.drop_first(), id)
    }
}

/// What one annotation becomes under its recorded result: a shift rewrites
/// the range and stamps `now`; a deletion removes the record; a conflict or
/// no change leaves it untouched in storage.
pub open spec fn apply_to(a: AnnotationView, r: Option<AdjustResultView>, now: Seq<char>) -> Seq<
    AnnotationView,
> {
    match r {
        Some(AdjustResultView::Shifted { new_start, new_end, .. }) => seq![
            AnnotationView {
                start_line: new_start,
                end_line: new_end,
                updated_at: now,
                ..a
            },
        ],
        Some(AdjustResultView::Deleted) => Seq::empty(),
        _ => seq![a],
    }
}

/// The annotation list after a batch of results is applied in place.
pub open spec fn spec_apply_adjustments(
    anns: Seq<AnnotationView>,
    rs: Seq<(AnnotationView, AdjustResultView)>,
    now: Seq<char>,
) -> Seq<AnnotationView>
    decreases anns.len(),
{
    if anns.len() == 0 {
        Seq::empty()
    } else {
        spec_apply_adjustments(anns.drop_last(), rs, now) + apply_to(
            anns.last(),
            result_for(rs, anns.last().id),
            now,
        )
    }
}

fn find_result<'a>(results: &'a [(Annotation, AdjustResult)], id: u128) -> (r: Option<
    &'a AdjustResult,
>)
    ensures
        match r {
            Some(x) => result_for(pair_views(results@), id) == Some(x@),
            None => result_for(pair_views(results@), id) is None,
        },
{
    let ghost rv = pair_views(results@);
    let mut i: usize = 0;
    proof {
        assert(rv.skip(0) =~= rv);
    }
    while i < results.len()
        invariant
            rv == pair_views(results@),
            i <= results@.len(),
            result_for(rv, id) == result_for(rv.skip(i as int), id),
        decreases results@.len() - i,
    {
        proof {
            assert(rv.skip(i as int)[0] == rv[i as int]);
            assert(rv.skip(i as int).drop_first() =~= rv.skip(i as int + 1));
        }
        if results[i].0.id == id {
            return Some(&results[i].1);
        }
        i = i + 1;
    }
    proof {
        assert(rv.skip(rv.len() as int) =~= Seq::<(AnnotationView, AdjustResultView)>::empty());
    }
    None
}

/// Apply a batch of results in place, stamping shifted records with `now`.
pub fn apply_adjustments_at(
    annotations: &mut Vec<Annotation>,
    results: &[(Annotation, AdjustResult)],
    now: &str,
)
    ensures
        ann_views(final(annotations)@) == spec_apply_adjustments(
            ann_views(old(annotations)@),
            pair_views(results@),
            now@,
        ),
{
    let ghost av = ann_views(annotations@);
    let ghost rv = pair_views(results@);
    let mut out: Vec<Annotation> = Vec::new();
    let mut i: usize = 0;
    while i < annotations.len()
        invariant
            av == ann_views(annotations@),
            rv == pair_views(results@),
            i <= annotations@.len(),
            ann_views(out@) == spec_apply_adjustments(av.take(i as int), rv, now@),
        decreases annotations@.len() - i,
    {
        let a = &annotations[i];
        let ghost out_before = ann_views(out@);
        proof {
            assert(av.take(i as int + 1).drop_last() =~= av.take(i as int));
            assert(av.take(i as int + 1).last() == av[i as int]);
        }
        match find_result(results, a.id) {
            Some(AdjustResult::Shifted { new_start, new_end, .. }) => {
                let shifted = Annotation {
                    id: a.id,
                    file_path: a.file_path.clone(),
                    start_line: *new_start,
                    end_line: *new_end,
                    text: a.text.clone(),
                    created_at: a.created_at.clone(),
                    updated_at: now.to_owned(),
                };
                out.push(shifted);
            },
            Some(AdjustResult::Deleted) => {},
            _ => {
                out.push(a.duplicate());
            },
        }
        proof {
            assert(ann_views(out@) =~= out_before + apply_to(
                av[i as int],
                result_for(rv, av[i as int].id),
                now@,
            ));
        }
        i = i + 1;
    }
    proof {
        assert(av.take(av.len() as int) =~= av);
    }
    *annotations = out;
}

/// Apply a batch of results in place, stamping shifted records with the
/// clock's current reading.
pub fn apply_adjustments(
    annotations: &mut Vec<Annotation>,
    results: &[(Annotation, AdjustResult)],
)
    ensures
        exists|t: Seq<char>|
            ann_views(final(annotations)@) == spec_apply_adjustments(
                ann_views(old(annotations)@),
                pair_views(results@),
                t,
            ),
{
    let now = crate::annotation::now_timestamp();
    apply_adjustments_at(annotations, results, now.as_str());
}

/// Adjustment against an empty snapshot diff touches nothing: every
/// annotation's outcome is `Unchanged`.
pub proof fn lemma_adjust_against_empty_diffs(a: AnnotationView)
    ensures
        spec_adjust_outcome(a, Seq::empty()) == AdjustResultView::Unchanged,
{
}

/// Classification is conserved: with `walked` the hunk walk of the diff of
/// the annotation's file, deleting every line of the range deletes the
/// annotation; deleting some but not all lines is a conflict carrying
/// exactly those lines; deleting none and shifting by nothing changes
/// nothing.
pub proof fn lemma_classification(a: AnnotationView, d: FileDiffView)
    requires
        1 <= a.start_line <= a.end_line,
        d.status != FileDiffStatus::Deleted,
        d.status != FileDiffStatus::Added,
    ensures
        ({
            let walked = walk_hunks(
                d.hunks,
                a.start_line as int,
                a.end_line as int,
                0,
                Seq::empty(),
            );
            &&& walked.1.len() == a.end_line - a.start_line + 1 ==> spec_adjust(a, d)
                == AdjustResultView::Deleted
            &&& 0 < walked.1.len() < a.end_line - a.start_line + 1 ==> spec_adjust(a, d)
                == (AdjustResultView::Conflict { deleted_lines: walked.1 })
            &&& walked.1.len() == 0 && walked.0 == 0 ==> spec_adjust(a, d)
                == AdjustResultView::Unchanged
        }),
{
}

/// A shift preserves the range: a `Shifted` outcome reports the original
/// range and a new range of exactly the same length.
pub proof fn lemma_shift_preserves_range(a: AnnotationView, d: FileDiffView)
    requires
        1 <= a.start_line <= a.end_line,
    ensures
        spec_adjust(a, d) matches AdjustResultView::Shifted {
            old_start,
            old_end,
            new_start,
            new_end,
        } ==> {
            &&& old_start == a.start_line
            &&& old_end == a.end_line
            &&& new_end - new_start == a.end_line - a.start_line
        },
{
}

/// Applying the same batch of results twice gives the same annotations as
/// applying it once (at the time of the second pass): the second pass finds
/// every shift already in place and every deletion already gone.
pub proof fn lemma_apply_adjustments_idempotent(
    anns: Seq<AnnotationView>,
    rs: Seq<(AnnotationView, AdjustResultView)>,
    t1: Seq<char>,
    t2: Seq<char>,
)
    ensures
        spec_apply_adjustments(spec_apply_adjustments(anns, rs, t1), rs, t2)
            == spec_apply_adjustments(spec_apply_adjustments(anns, rs, t2), rs, t2),
        spec_apply_adjustments(spec_apply_adjustments(anns, rs, t2), rs, t2)
            == spec_apply_adjustments(anns, rs, t2),
        spec_apply_adjustments(spec_apply_adjustments(anns, rs, t1), rs, t2)
            == spec_apply_adjustments(anns, rs, t2),
    decreases anns.len(),
{
    if anns.len() == 0 {
    } else {
        let prior = anns.drop_last();
        let a = anns.last();
        lemma_apply_adjustments_idempotent(prior, rs, t1, t2);
        let r = result_for(rs, a.id);
        match r {
            Some(AdjustResultView::Shifted { new_start, new_end, .. }) => {
                let a1 = AnnotationView {
                    start_line: new_start,
                    end_line: new_end,
                    updated_at: t1,
                    ..a
                };
                let a2 = AnnotationView {
                    start_line: new_start,
                    end_line: new_end,
                    updated_at: t2,
                    ..a
                };
                lemma_apply_adjustments_push(spec_apply_adjustments(anns, rs, t1).drop_last(),
                    a1, rs, t2);
                lemma_apply_adjustments_push(spec_apply_adjustments(anns, rs, t2).drop_last(),
                    a2, rs, t2);
                assert(spec_apply_adjustments(anns, rs, t1).drop_last() =~= spec_apply_adjustments(
                    prior,
                    rs,
                    t1,
                ));
                assert(spec_apply_adjustments(anns, rs, t2).drop_last() =~= spec_apply_adjustments(
                    prior,
                    rs,
                    t2,
                ));
                assert(apply_to(a1, result_for(rs, a1.id), t2) =~= apply_to(a2, r, t2));
            },
            Some(AdjustResultView::Deleted) => {
                assert(spec_apply_adjustments(anns, rs, t1) =~= spec_apply_adjustments(
                    prior,
                    rs,
                    t1,
                ));
                assert(spec_apply_adjustments(anns, rs, t2) =~= spec_apply_adjustments(
                    prior,
                    rs,
                    t2,
                ));
            },
            _ => {
                lemma_apply_adjustments_push(spec_apply_adjustments(anns, rs, t1).drop_last(), a,
                    rs, t2);
                lemma_apply_adjustments_push(spec_apply_adjustments(anns, rs, t2).drop_last(), a,
                    rs, t2);
                assert(spec_apply_adjustments(anns, rs, t1).drop_last() =~= spec_apply_adjustments(
                    prior,
                    rs,
                    t1,
                ));
                assert(spec_apply_adjustments(anns, rs, t2).drop_last() =~= spec_apply_adjustments(
                    prior,
                    rs,
                    t2,
                ));
            },
        }
    }
}

proof fn lemma_apply_adjustments_push(
    anns: Seq<AnnotationView>,
    a: AnnotationView,
    rs: Seq<(AnnotationView, AdjustResultView)>,
    now: Seq<char>,
)
    ensures
        spec_apply_adjustments(anns.push(a), rs, now) == spec_apply_adjustments(anns, rs, now)
            + apply_to(a, result_for(rs, a.id), now),
{
    assert(anns.push(a).drop_last() =~= anns);
    assert(anns.push(a).last() == a);
}

} // verus!
