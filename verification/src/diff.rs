//! In-memory representation of file- and line-level changes between two
//! repository snapshots: the boundary contract between whatever produces the
//! diff and the adjustment engine.

use vstd::prelude::*;

verus! {

/// Origin of a single line inside a hunk.
#[derive(Debug, Clone, Copy, PartialEq, Eq, Structural)]
pub enum DiffLineType {
    Context,
    Addition,
    Deletion,
}

/// Tree-level status of a file between the two snapshots.
#[derive(Debug, Clone, Copy, PartialEq, Eq, Structural)]
pub enum FileDiffStatus {
    Added,
    Deleted,
    Modified,
    Renamed,
}

/// One line of a unified-diff hunk. `old_lineno` applies to context and
/// deletion lines, `new_lineno` to context and addition lines.
#[derive(Debug, Clone)]
pub struct DiffLine {
    pub origin: DiffLineType,
    pub old_lineno: Option<u32>,
    pub new_lineno: Option<u32>,
    pub content: String,
}

/// Mathematical model of a [`DiffLine`].
pub ghost struct DiffLineView {
    pub origin: DiffLineType,
    pub old_lineno: Option<u32>,
    pub new_lineno: Option<u32>,
    pub content: Seq<char>,
}

impl View for DiffLine {
    type V = DiffLineView;

    open spec fn view(&self) -> DiffLineView {
        DiffLineView {
            origin: self.origin,
            old_lineno: self.old_lineno,
            new_lineno: self.new_lineno,
            content: self.content@,
        }
    }
}

/// A classical unified-diff hunk: one contiguous region of change.
#[derive(Debug, Clone)]
pub struct Hunk {
    pub old_start: u32,
    pub old_lines: u32,
    pub new_start: u32,
    pub new_lines: u32,
    pub lines: Vec<DiffLine>,
}

/// Mathematical model of a [`Hunk`].
pub ghost struct HunkView {
    pub old_start: u32,
    pub old_lines: u32,
    pub new_start: u32,
    pub new_lines: u32,
    pub lines: Seq<DiffLineView>,
}

impl View for Hunk {
    type V = HunkView;

    open spec fn view(&self) -> HunkView {
        HunkView {
            old_start: self.old_start,
            old_lines: self.old_lines,
            new_start: self.new_start,
            new_lines: self.new_lines,
            lines: Seq::new(self.lines@.len(), |i: int| self.lines@[i]@),
        }
    }
}

impl HunkView {
    /// Last old line covered by the hunk; for an empty old side (a pure
    /// insertion) the hunk's position itself.
    pub open spec fn spec_old_end(self) -> int {
        if self.old_lines == 0 {
            self.old_start as int
        } else {
            self.old_start + self.old_lines - 1
        }
    }

    /// Lines added minus lines removed by the hunk.
    pub open spec fn spec_net_offset(self) -> int {
        self.new_lines - self.old_lines
    }

    /// Bounds that any hunk describing a real file satisfies: line numbers
    /// are `u32`, so the old extent and the number of hunk lines fit there.
    pub open spec fn wf(self) -> bool {
        &&& self.lines.len() <= u32::MAX
        &&& self.old_lines == 0 || self.old_start + self.old_lines - 1 <= u32::MAX
    }
}

/// The old line numbers of the deletion lines of `lines`, in hunk order.
pub open spec fn spec_deleted_old_lines(lines: Seq<DiffLineView>) -> Seq<u32>
    decreases lines.len(),
{
    if lines.len() == 0 {
        Seq::empty()
    } else {
        let rest = spec_deleted_old_lines(lines.drop_last());
        let l = lines.last();
        if l.origin == DiffLineType::Deletion && l.old_lineno is Some {
            rest.push(l.old_lineno->Some_0)
        } else {
            rest
        }
    }
}

impl Hunk {
    /// Last old line covered by the hunk (inclusive).
    pub fn old_end(&self) -> (r: u32)
        requires
            self@.wf(),
        ensures
            r == self@.spec_old_end(),
    {
        if self.old_lines == 0 {
            self.old_start
        } else {
            (self.old_start as u64 + self.old_lines as u64 - 1) as u32
        }
    }

    /// Net line-count change the hunk applies to the file.
    pub fn net_offset(&self) -> (r: i64)
        ensures
            r == self@.spec_net_offset(),
    {
        self.new_lines as i64 - self.old_lines as i64
    }

    /// The old line numbers deleted by this hunk, in hunk order.
    pub fn deleted_old_lines(&self) -> (r: Vec<u32>)
        ensures
            r@ == spec_deleted_old_lines(self@.lines),
    {
        let mut r: Vec<u32> = Vec::new();
        let mut i: usize = 0;
        while i < self.lines.len()
            invariant
                i <= self.lines@.len(),
                r@ == spec_deleted_old_lines(self@.lines.take(i as int)),
            decreases self.lines@.len() - i,
        {
            let l = &self.lines[i];
            if l.origin == DiffLineType::Deletion {
                if let Some(old) = l.old_lineno {
                    r.push(old);
                }
            }
            proof {
                assert(self@.lines.take(i + 1).drop_last() =~= self@.lines.take(i as int));
                assert(self@.lines.take(i + 1).last() == self@.lines[i as int]);
            }
            i = i + 1;
        }
        proof {
            assert(self@.lines.take(self.lines@.len() as int) =~= self@.lines);
        }
        r
    }
}

/// File-level change description: paths on both sides, tree-level status,
/// and the hunks, sorted by `old_start` ascending.
#[derive(Debug, Clone)]
pub struct FileDiff {
    pub old_path: Option<String>,
    pub new_path: Option<String>,
    pub hunks: Vec<Hunk>,
    pub status: FileDiffStatus,
}

/// Mathematical model of a [`FileDiff`].
pub ghost struct FileDiffView {
    pub old_path: Option<Seq<char>>,
    pub new_path: Option<Seq<char>>,
    pub hunks: Seq<HunkView>,
    pub status: FileDiffStatus,
}

impl View for FileDiff {
    type V = FileDiffView;

    open spec fn view(&self) -> FileDiffView {
        FileDiffView {
            old_path: match self.old_path {
                Some(ref p) => Some(p@),
                None => None,
            },
            new_path: match self.new_path {
                Some(ref p) => Some(p@),
                None => None,
            },
            hunks: Seq::new(self.hunks@.len(), |i: int| self.hunks@[i]@),
            status: self.status,
        }
    }
}

impl FileDiffView {
    /// Bounds that any diff of a real file satisfies (see [`HunkView::wf`]).
    pub open spec fn wf(self) -> bool {
        &&& self.hunks.len() <= u32::MAX
        &&& forall|i: int| 0 <= i < self.hunks.len() ==> (#[trigger] self.hunks[i]).wf()
    }
}

} // verus!
