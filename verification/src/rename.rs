//! File-path rewriting for renamed files, sequenced before line adjustment
//! so that later lookups by the new path succeed.

use vstd::prelude::*;

use crate::adjust::{ann_views, diff_views};
use crate::annotation::{Annotation, AnnotationView};
use crate::diff::{FileDiff, FileDiffStatus, FileDiffView};

verus! {

/// The rename a diff carries, when it is a rename with both paths present.
pub open spec fn renamed_paths(d: FileDiffView) -> Option<(Seq<char>, Seq<char>)> {
    if d.status == FileDiffStatus::Renamed && d.old_path is Some && d.new_path is Some {
        Some((d.old_path->Some_0, d.new_path->Some_0))
    } else {
        None
    }
}

/// Whether some annotation sits at `path`.
pub open spec fn any_at_path(anns: Seq<AnnotationView>, path: Seq<char>) -> bool {
    exists|k: int| 0 <= k < anns.len() && (#[trigger] anns[k]).file_path == path
}

/// Every annotation at `old` moved to `new` and stamped `t`; the rest as
/// they were.
pub open spec fn rename_one(
    anns: Seq<AnnotationView>,
    old: Seq<char>,
    new: Seq<char>,
    t: Seq<char>,
) -> Seq<AnnotationView> {
    Seq::new(
        anns.len(),
        |k: int|
            if anns[k].file_path == old {
                AnnotationView { file_path: new, updated_at: t, ..anns[k] }
            } else {
                anns[k]
            },
    )
}

/// The annotation list and the report after the renames of `diffs` are
/// applied in order. A rename is reported exactly when it moved at least
/// one annotation.
pub open spec fn spec_apply_renames(
    anns: Seq<AnnotationView>,
    diffs: Seq<FileDiffView>,
    t: Seq<char>,
) -> (Seq<AnnotationView>, Seq<(Seq<char>, Seq<char>)>)
    decreases diffs.len(),
{
    if diffs.len() == 0 {
        (anns, Seq::empty())
    } else {
        let step = match renamed_paths(diffs[0]) {
            Some(pair) => (
                rename_one(anns, pair.0, pair.1, t),
                if any_at_path(anns, pair.0) {
                    seq![pair]
                } else {
                    Seq::empty()
                },
            ),
            None => (anns, Seq::empty()),
        };
        let rest = spec_apply_renames(step.0, diffs.drop_first(), t);
        (rest.0, step.1 + rest.1)
    }
}

/// Models of the returned report.
pub open spec fn report_views(s: Seq<(String, String)>) -> Seq<(Seq<char>, Seq<char>)> {
    Seq::new(s.len(), |i: int| (s[i].0@, s[i].1@))
}

/// Apply the renames of `diffs` to the annotations in order, stamping every
/// moved record with `now`, and report each rename that moved at least one
/// annotation.
pub fn apply_renames_at(annotations: &mut Vec<Annotation>, diffs: &[FileDiff], now: &str) -> (r:
    Vec<(String, String)>)
    ensures
        ann_views(final(annotations)@) == spec_apply_renames(
            ann_views(old(annotations)@),
            diff_views(diffs@),
            now@,
        ).0,
        report_views(r@) == spec_apply_renames(
            ann_views(old(annotations)@),
            diff_views(diffs@),
            now@,
        ).1,
{
    let ghost av0 = ann_views(annotations@);
    let ghost dv = diff_views(diffs@);
    let ghost t = now@;
    let mut report: Vec<(String, String)> = Vec::new();
    let mut i: usize = 0;
    proof {
        assert(dv.skip(0) =~= dv);
    }
    while i < diffs.len()
        invariant
            dv == diff_views(diffs@),
            t == now@,
            i <= diffs@.len(),
            spec_apply_renames(av0, dv, t) == ({
                let rest = spec_apply_renames(ann_views(annotations@), dv.skip(i as int), t);
                (rest.0, report_views(report@) + rest.1)
            }),
        decreases diffs@.len() - i,
    {
        let d = &diffs[i];
        proof {
            assert(dv[i as int] == d@);
            assert(dv.skip(i as int).len() == dv.len() - i);
            assert(dv.skip(i as int)[0] == dv[i as int]);
            assert(dv.skip(i as int).drop_first() =~= dv.skip(i as int + 1));
        }
        let is_rename = match (&d.old_path, &d.new_path) {
            (Some(_), Some(_)) => matches!(d.status, FileDiffStatus::Renamed),
            _ => false,
        };
        if is_rename {
            let old_path = match &d.old_path {
                Some(p) => p,
                None => unreached(),
            };
            let new_path = match &d.new_path {
                Some(p) => p,
                None => unreached(),
            };
            let ghost cur = ann_views(annotations@);
            let mut out: Vec<Annotation> = Vec::new();
            let mut matched = false;
            let mut j: usize = 0;
            while j < annotations.len()
                invariant
                    cur == ann_views(annotations@),
                    j <= annotations@.len(),
                    old_path@ == d@.old_path->Some_0,
                    new_path@ == d@.new_path->Some_0,
                    t == now@,
                    out@.len() == j,
                    matched == any_at_path(cur.take(j as int), old_path@),
                    forall|k: int|
                        0 <= k < j ==> (#[trigger] out@[k])@ == (if cur[k].file_path == old_path@ {
                            AnnotationView { file_path: new_path@, updated_at: t, ..cur[k] }
                        } else {
                            cur[k]
                        }),
                decreases annotations@.len() - j,
            {
                let a = &annotations[j];
                proof {
                    assert(cur[j as int] == a@);
                }
                if a.file_path == *old_path {
                    out.push(
                        Annotation {
                            id: a.id,
                            file_path: new_path.clone(),
                            start_line: a.start_line,
                            end_line: a.end_line,
                            text: a.text.clone(),
                            created_at: a.created_at.clone(),
                            updated_at: now.to_owned(),
                        },
                    );
                    matched = true;
                } else {
                    out.push(a.duplicate());
                }
                proof {
                    assert(cur.take(j as int + 1) =~= cur.take(j as int).push(cur[j as int]));
                    assert(any_at_path(cur.take(j as int + 1), old_path@) == (any_at_path(
                        cur.take(j as int),
                        old_path@,
                    ) || cur[j as int].file_path == old_path@)) by {
                        let pre = cur.take(j as int);
                        let post = cur.take(j as int + 1);
                        if any_at_path(post, old_path@) {
                            let k = choose|k: int|
                                0 <= k < post.len() && (#[trigger] post[k]).file_path == old_path@;
                            if k < j {
                                assert(pre[k].file_path == old_path@);
                            }
                        }
                        if any_at_path(pre, old_path@) {
                            let k = choose|k: int|
                                0 <= k < pre.len() && (#[trigger] pre[k]).file_path == old_path@;
                            assert(post[k].file_path == old_path@);
                        }
                        if cur[j as int].file_path == old_path@ {
                            assert(post[j as int].file_path == old_path@);
                        }
                    }
                }
                j = j + 1;
            }
            proof {
                assert(cur.take(cur.len() as int) =~= cur);
                assert(ann_views(out@) =~= rename_one(cur, old_path@, new_path@, t));
            }
            if matched {
                report.push((old_path.clone(), new_path.clone()));
            }
            *annotations = out;
            proof {
                if matched {
                    assert(report_views(report@) =~= report_views(report@.drop_last()).push(
                        (old_path@, new_path@),
                    ));
                    assert(report_views(report@.drop_last()) + (seq![(old_path@, new_path@)]
                        + spec_apply_renames(ann_views(annotations@), dv.skip(i as int + 1), t).1)
                        =~= report_views(report@) + spec_apply_renames(
                        ann_views(annotations@),
                        dv.skip(i as int + 1),
                        t,
                    ).1);
                } else {
                    assert(Seq::<(Seq<char>, Seq<char>)>::empty() + spec_apply_renames(
                        ann_views(annotations@),
                        dv.skip(i as int + 1),
                        t,
                    ).1 =~= spec_apply_renames(ann_views(annotations@), dv.skip(i as int + 1), t).1);
                }
            }
        } else {
            proof {
                assert(renamed_paths(dv[i as int]) is None);
            }
        }
        i = i + 1;
    }
    proof {
        assert(dv.skip(dv.len() as int) =~= Seq::<FileDiffView>::empty());
        assert(report_views(report@) + Seq::<(Seq<char>, Seq<char>)>::empty() =~= report_views(
            report@,
        ));
    }
    report
}

proof fn lemma_rename_one_absence(
    anns: Seq<AnnotationView>,
    old: Seq<char>,
    new: Seq<char>,
    t: Seq<char>,
    p: Seq<char>,
)
    requires
        p != new,
        p == old || !any_at_path(anns, p),
    ensures
        !any_at_path(rename_one(anns, old, new, t), p),
{
    let out = rename_one(anns, old, new, t);
    if any_at_path(out, p) {
        let k = choose|k: int| 0 <= k < out.len() && (#[trigger] out[k]).file_path == p;
        if anns[k].file_path == old {
            assert(out[k].file_path == new);
        } else {
            assert(anns[k].file_path == p);
        }
    }
}

proof fn lemma_rename_one_presence(
    anns: Seq<AnnotationView>,
    old: Seq<char>,
    new: Seq<char>,
    t: Seq<char>,
    p: Seq<char>,
)
    requires
        p != old,
        p != new,
    ensures
        any_at_path(rename_one(anns, old, new, t), p) == any_at_path(anns, p),
{
    let out = rename_one(anns, old, new, t);
    if any_at_path(out, p) {
        let k = choose|k: int| 0 <= k < out.len() && (#[trigger] out[k]).file_path == p;
        assert(anns[k].file_path == p);
    }
    if any_at_path(anns, p) {
        let k = choose|k: int| 0 <= k < anns.len() && (#[trigger] anns[k]).file_path == p;
        assert(out[k].file_path == p);
    }
}

proof fn lemma_no_path_through(
    anns: Seq<AnnotationView>,
    diffs: Seq<FileDiffView>,
    t: Seq<char>,
    p: Seq<char>,
)
    requires
        !any_at_path(anns, p),
        forall|j: int|
            0 <= j < diffs.len() && renamed_paths(#[trigger] diffs[j]) is Some ==> renamed_paths(
                diffs[j],
            )->Some_0.1 != p,
    ensures
        !any_at_path(spec_apply_renames(anns, diffs, t).0, p),
    decreases diffs.len(),
{
    if diffs.len() > 0 {
        let rest = diffs.drop_first();
        assert(forall|j: int|
            0 <= j < rest.len() && renamed_paths(#[trigger] rest[j]) is Some ==> renamed_paths(
                rest[j],
            )->Some_0.1 != p) by {
            assert(forall|j: int| 0 <= j < rest.len() ==> #[trigger] rest[j] == diffs[j + 1]);
        }
        match renamed_paths(diffs[0]) {
            Some(pair) => {
                lemma_rename_one_absence(anns, pair.0, pair.1, t, p);
                lemma_no_path_through(rename_one(anns, pair.0, pair.1, t), rest, t, p);
            },
            None => {
                lemma_no_path_through(anns, rest, t, p);
            },
        }
    }
}

proof fn lemma_report_from_diffs(
    anns: Seq<AnnotationView>,
    diffs: Seq<FileDiffView>,
    t: Seq<char>,
)
    ensures
        forall|k: int|
            0 <= k < spec_apply_renames(anns, diffs, t).1.len() ==> exists|j: int|
                0 <= j < diffs.len() && renamed_paths(#[trigger] diffs[j]) == Some(
                    #[trigger] spec_apply_renames(anns, diffs, t).1[k],
                ),
    decreases diffs.len(),
{
    if diffs.len() > 0 {
        let rest = diffs.drop_first();
        let rep = spec_apply_renames(anns, diffs, t).1;
        match renamed_paths(diffs[0]) {
            Some(pair) => {
                let anns1 = rename_one(anns, pair.0, pair.1, t);
                lemma_report_from_diffs(anns1, rest, t);
                let rep_rest = spec_apply_renames(anns1, rest, t).1;
                assert forall|k: int| 0 <= k < rep.len() implies exists|j: int|
                    0 <= j < diffs.len() && renamed_paths(#[trigger] diffs[j]) == Some(
                        #[trigger] rep[k],
                    ) by {
                    let head_len = rep.len() - rep_rest.len();
                    if k < head_len {
                        assert(renamed_paths(diffs[0]) == Some(rep[k]));
                    } else {
                        assert(rep[k] == rep_rest[k - head_len]);
                        let j = choose|j: int|
                            0 <= j < rest.len() && renamed_paths(#[trigger] rest[j]) == Some(
                                rep_rest[k - head_len],
                            );
                        assert(rest[j] == diffs[j + 1]);
                        assert(renamed_paths(diffs[j + 1]) == Some(rep[k]));
                    }
                }
            },
            None => {
                lemma_report_from_diffs(anns, rest, t);
                let rep_rest = spec_apply_renames(anns, rest, t).1;
                assert(rep =~= rep_rest);
                assert forall|k: int| 0 <= k < rep.len() implies exists|j: int|
                    0 <= j < diffs.len() && renamed_paths(#[trigger] diffs[j]) == Some(
                        #[trigger] rep[k],
                    ) by {
                    let j = choose|j: int|
                        0 <= j < rest.len() && renamed_paths(#[trigger] rest[j]) == Some(rep[k]);
                    assert(rest[j] == diffs[j + 1]);
                    assert(renamed_paths(diffs[j + 1]) == Some(rep[k]));
                }
            },
        }
    }
}

/// Rename ordering. Provided no rename's new path is any rename's old path
/// (renames neither chain nor swap) and no two renames share an old path:
/// after the renames are applied, no annotation sits at the old path of any
/// rename, and a rename's `(old, new)` pair stands in the report exactly
/// when some annotation sat at its old path.
pub proof fn lemma_rename_ordering(
    anns: Seq<AnnotationView>,
    diffs: Seq<FileDiffView>,
    t: Seq<char>,
)
    requires
        forall|i: int, j: int|
            0 <= i < diffs.len() && 0 <= j < diffs.len() && renamed_paths(#[trigger] diffs[i])
                is Some && renamed_paths(#[trigger] diffs[j]) is Some ==> renamed_paths(
                diffs[i],
            )->Some_0.1 != renamed_paths(diffs[j])->Some_0.0,
        forall|i: int, j: int|
            0 <= i < diffs.len() && 0 <= j < diffs.len() && i != j && renamed_paths(
                #[trigger] diffs[i],
            ) is Some && renamed_paths(#[trigger] diffs[j]) is Some ==> renamed_paths(
                diffs[i],
            )->Some_0.0 != renamed_paths(diffs[j])->Some_0.0,
    ensures
        forall|k: int, i: int|
            0 <= k < spec_apply_renames(anns, diffs, t).0.len() && 0 <= i < diffs.len()
                && renamed_paths(#[trigger] diffs[i]) is Some ==> (#[trigger] spec_apply_renames(
                anns,
                diffs,
                t,
            ).0[k]).file_path != renamed_paths(diffs[i])->Some_0.0,
        forall|i: int|
            0 <= i < diffs.len() && renamed_paths(#[trigger] diffs[i]) is Some ==> (
            spec_apply_renames(anns, diffs, t).1.contains(renamed_paths(diffs[i])->Some_0)
                <==> any_at_path(anns, renamed_paths(diffs[i])->Some_0.0)),
    decreases diffs.len(),
{
    if diffs.len() == 0 {
    } else {
        let rest = diffs.drop_first();
        assert(forall|j: int| 0 <= j < rest.len() ==> #[trigger] rest[j] == diffs[j + 1]);
        let out = spec_apply_renames(anns, diffs, t).0;
        let rep = spec_apply_renames(anns, diffs, t).1;
        match renamed_paths(diffs[0]) {
            Some(pair) => {
                let anns1 = rename_one(anns, pair.0, pair.1, t);
                lemma_rename_ordering(anns1, rest, t);
                let out_rest = spec_apply_renames(anns1, rest, t).0;
                let rep_rest = spec_apply_renames(anns1, rest, t).1;
                assert(out == out_rest);

                // No annotation remains at the old path of the first rename.
                assert(pair.1 != pair.0);
                lemma_rename_one_absence(anns, pair.0, pair.1, t, pair.0);
                lemma_no_path_through(anns1, rest, t, pair.0);
                assert forall|k: int, i: int|
                    0 <= k < out.len() && 0 <= i < diffs.len() && renamed_paths(
                        #[trigger] diffs[i],
                    ) is Some implies (#[trigger] out[k]).file_path != renamed_paths(
                    diffs[i],
                )->Some_0.0 by {
                    if i == 0 {
                        if out[k].file_path == pair.0 {
                            assert(any_at_path(out, pair.0));
                        }
                    } else {
                        assert(rest[i - 1] == diffs[i]);
                        assert(renamed_paths(rest[i - 1]) is Some);
                        assert(out_rest[k] == out[k]);
                    }
                }

                // The report: the head pair stands there exactly when an
                // annotation sat at the old path; later pairs carry over.
                let head = if any_at_path(anns, pair.0) {
                    seq![pair]
                } else {
                    Seq::<(Seq<char>, Seq<char>)>::empty()
                };
                assert(rep == head + rep_rest);
                assert forall|i: int|
                    0 <= i < diffs.len() && renamed_paths(#[trigger] diffs[i]) is Some implies (
                rep.contains(renamed_paths(diffs[i])->Some_0) <==> any_at_path(
                    anns,
                    renamed_paths(diffs[i])->Some_0.0,
                )) by {
                    let ip = renamed_paths(diffs[i])->Some_0;
                    if i == 0 {
                        if any_at_path(anns, pair.0) {
                            assert(rep[0] == pair);
                            assert(rep.contains(pair));
                        } else {
                            if rep.contains(pair) {
                                let k = choose|k: int| 0 <= k < rep.len() && rep[k] == pair;
                                assert(rep_rest[k - head.len()] == pair);
                                assert(rep_rest.contains(pair));
                                lemma_report_from_diffs(anns1, rest, t);
                                let kk = choose|k: int|
                                    0 <= k < rep_rest.len() && rep_rest[k] == pair;
                                let j = choose|j: int|
                                    0 <= j < rest.len() && renamed_paths(#[trigger] rest[j])
                                        == Some(rep_rest[kk]);
                                assert(renamed_paths(diffs[j + 1])->Some_0.0 == pair.0);
                            }
                        }
                    } else {
                        assert(renamed_paths(rest[i - 1]) == Some(ip));
                        assert(ip.0 != pair.0);
                        assert(renamed_paths(diffs[0])->Some_0.1 != renamed_paths(
                            diffs[i],
                        )->Some_0.0);
                        lemma_rename_one_presence(anns, pair.0, pair.1, t, ip.0);
                        if rep_rest.contains(ip) {
                            let k = choose|k: int| 0 <= k < rep_rest.len() && rep_rest[k] == ip;
                            assert(rep[head.len() + k] == ip);
                            assert(rep.contains(ip));
                        }
                        if rep.contains(ip) {
                            let k = choose|k: int| 0 <= k < rep.len() && rep[k] == ip;
                            if k < head.len() {
                                assert(ip == pair);
                            } else {
                                assert(rep_rest[k - head.len()] == ip);
                                assert(rep_rest.contains(ip));
                            }
                        }
                    }
                }
            },
            None => {
                lemma_rename_ordering(anns, rest, t);
                let out_rest = spec_apply_renames(anns, rest, t).0;
                let rep_rest = spec_apply_renames(anns, rest, t).1;
                assert(rep =~= rep_rest);
                assert forall|k: int, i: int|
                    0 <= k < out.len() && 0 <= i < diffs.len() && renamed_paths(
                        #[trigger] diffs[i],
                    ) is Some implies (#[trigger] out[k]).file_path != renamed_paths(
                    diffs[i],
                )->Some_0.0 by {
                    assert(i != 0);
                    assert(rest[i - 1] == diffs[i]);
                    assert(renamed_paths(rest[i - 1]) is Some);
                    assert(out_rest[k] == out[k]);
                }
                assert forall|i: int|
                    0 <= i < diffs.len() && renamed_paths(#[trigger] diffs[i]) is Some implies (
                rep.contains(renamed_paths(diffs[i])->Some_0) <==> any_at_path(
                    anns,
                    renamed_paths(diffs[i])->Some_0.0,
                )) by {
                    assert(i != 0);
                    assert(renamed_paths(rest[i - 1]) == renamed_paths(diffs[i]));
                }
            },
        }
    }
}

/// Apply the renames of `diffs`, stamping moved records with the clock's
/// current reading.
pub fn apply_renames(annotations: &mut Vec<Annotation>, diffs: &[FileDiff]) -> (r: Vec<
    (String, String),
>)
    ensures
        exists|t: Seq<char>|
            ann_views(final(annotations)@) == spec_apply_renames(
                ann_views(old(annotations)@),
                diff_views(diffs@),
                t,
            ).0 && report_views(r@) == spec_apply_renames(
                ann_views(old(annotations)@),
                diff_views(diffs@),
                t,
            ).1,
{
    let now = crate::annotation::now_timestamp();
    apply_renames_at(annotations, diffs, now.as_str())
}

} // verus!
