//! The annotation record and its companions: per-file review status and the
//! outcome of adjusting one annotation against a file's changes.

use vstd::prelude::*;

verus! {

/// A note anchored to an inclusive, 1-based line range of one
/// repository-relative file. Identity is the opaque 128-bit `id`; timestamps
/// are carried as the RFC 3339 text they are persisted as.
#[derive(Debug, Clone, PartialEq)]
pub struct Annotation {
    pub id: u128,
    pub file_path: String,
    pub start_line: u32,
    pub end_line: u32,
    pub text: String,
    pub created_at: String,
    pub updated_at: String,
}

/// Mathematical model of an [`Annotation`].
pub ghost struct AnnotationView {
    pub id: u128,
    pub file_path: Seq<char>,
    pub start_line: u32,
    pub end_line: u32,
    pub text: Seq<char>,
    pub created_at: Seq<char>,
    pub updated_at: Seq<char>,
}

impl View for Annotation {
    type V = AnnotationView;

    open spec fn view(&self) -> AnnotationView {
        AnnotationView {
            id: self.id,
            file_path: self.file_path@,
            start_line: self.start_line,
            end_line: self.end_line,
            text: self.text@,
            created_at: self.created_at@,
            updated_at: self.updated_at@,
        }
    }
}

impl AnnotationView {
    /// The record invariant: a non-empty 1-based range on a named file.
    pub open spec fn wf(self) -> bool {
        &&& 1 <= self.start_line <= self.end_line
        &&& self.file_path.len() > 0
    }
}

/// Relies on `uuid::Uuid::new_v4` and `Uuid::as_u128`: a freshly drawn
/// random version-4 identifier as its 128-bit value. The value is random,
/// so nothing is promised of it.
#[verifier::external_body]
pub(crate) fn fresh_id() -> u128 {
    uuid::Uuid::new_v4().as_u128()
}

/// Relies on `chrono::Utc::now` and `DateTime::to_rfc3339`: the current UTC
/// time rendered as RFC 3339 text. The value depends on the clock, so
/// nothing is promised of it.
#[verifier::external_body]
pub(crate) fn now_timestamp() -> String {
    chrono::Utc::now().to_rfc3339()
}

impl Annotation {
    /// A new annotation with a fresh identity and both timestamps set to the
    /// same reading of the clock.
    pub fn new(file_path: String, start_line: u32, end_line: u32, text: String) -> (r:
        Annotation)
        ensures
            r@.file_path == file_path@,
            r@.start_line == start_line,
            r@.end_line == end_line,
            r@.text == text@,
            r@.created_at == r@.updated_at,
    {
        let now = now_timestamp();
        let created_at = now.clone();
        Annotation {
            id: fresh_id(),
            file_path,
            start_line,
            end_line,
            text,
            created_at,
            updated_at: now,
        }
    }

    /// An identical copy, field by field.
    pub fn duplicate(&self) -> (r: Annotation)
        ensures
            r@ == self@,
    {
        Annotation {
            id: self.id,
            file_path: self.file_path.clone(),
            start_line: self.start_line,
            end_line: self.end_line,
            text: self.text.clone(),
            created_at: self.created_at.clone(),
            updated_at: self.updated_at.clone(),
        }
    }

    /// Whether `line` falls inside the annotation's inclusive range.
    pub fn contains_line(&self, line: u32) -> (r: bool)
        ensures
            r == (self.start_line <= line <= self.end_line),
    {
        self.start_line <= line && line <= self.end_line
    }

    /// Whether the annotation's range intersects the inclusive range
    /// `[start, end]`.
    pub fn overlaps(&self, start: u32, end: u32) -> (r: bool)
        ensures
            r == (self.start_line <= end && start <= self.end_line),
    {
        self.start_line <= end && start <= self.end_line
    }
}

/// Review status of one file.
#[derive(Debug, Clone, Copy, PartialEq, Eq, Structural)]
pub enum FileStatus {
    Unreviewed,
    Annotated,
    Clean,
}

impl Default for FileStatus {
    /// Unknown paths count as unreviewed.
    fn default() -> (r: Self)
        ensures
            r == FileStatus::Unreviewed,
    {
        FileStatus::Unreviewed
    }
}

/// The persisted pairing of a file path with its review status.
#[derive(Debug, Clone, PartialEq)]
pub struct FileReviewState {
    pub file_path: String,
    pub status: FileStatus,
}

/// Mathematical model of a [`FileReviewState`].
pub ghost struct FileReviewStateView {
    pub file_path: Seq<char>,
    pub status: FileStatus,
}

impl View for FileReviewState {
    type V = FileReviewStateView;

    open spec fn view(&self) -> FileReviewStateView {
        FileReviewStateView { file_path: self.file_path@, status: self.status }
    }
}

/// Outcome of adjusting one annotation against the diff of its file.
#[derive(Debug, Clone, PartialEq)]
pub enum AdjustResult {
    /// The whole range moved; its length is preserved.
    Shifted { old_start: u32, old_end: u32, new_start: u32, new_end: u32 },
    /// Part, but not all, of the range was deleted; the old line numbers
    /// that vanished, in hunk order. Resolution is left to the user.
    Conflict { deleted_lines: Vec<u32> },
    /// Every line of the range vanished (or the file itself did).
    Deleted,
    /// The diff does not move the annotation.
    Unchanged,
}

/// Mathematical model of an [`AdjustResult`].
pub ghost enum AdjustResultView {
    Shifted { old_start: u32, old_end: u32, new_start: u32, new_end: u32 },
    Conflict { deleted_lines: Seq<u32> },
    Deleted,
    Unchanged,
}

impl View for AdjustResult {
    type V = AdjustResultView;

    open spec fn view(&self) -> AdjustResultView {
        match self {
            AdjustResult::Shifted { old_start, old_end, new_start, new_end } => {
                AdjustResultView::Shifted {
                    old_start: *old_start,
                    old_end: *old_end,
                    new_start: *new_start,
                    new_end: *new_end,
                }
            },
            AdjustResult::Conflict { deleted_lines } => {
                AdjustResultView::Conflict { deleted_lines: deleted_lines@ }
            },
            AdjustResult::Deleted => AdjustResultView::Deleted,
            AdjustResult::Unchanged => AdjustResultView::Unchanged,
        }
    }
}

} // verus!
