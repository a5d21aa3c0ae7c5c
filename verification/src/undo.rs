//! The in-memory, invertible edit ledger for interactive mutations. Two
//! stacks of actions; adjustments computed by the engine are reconciliations,
//! not user edits, and are never pushed here.

use vstd::prelude::*;

use crate::annotation::{Annotation, AnnotationView};

verus! {

/// One invertible user edit.
#[derive(Debug, Clone)]
pub enum UndoAction {
    Create(Annotation),
    Delete(Annotation),
    Update { before: Annotation, after: Annotation },
}

/// Mathematical model of an [`UndoAction`].
pub ghost enum UndoActionView {
    Create(AnnotationView),
    Delete(AnnotationView),
    Update { before: AnnotationView, after: AnnotationView },
}

impl View for UndoAction {
    type V = UndoActionView;

    open spec fn view(&self) -> UndoActionView {
        match self {
            UndoAction::Create(a) => UndoActionView::Create(a@),
            UndoAction::Delete(a) => UndoActionView::Delete(a@),
            UndoAction::Update { before, after } => UndoActionView::Update {
                before: before@,
                after: after@,
            },
        }
    }
}

/// The inverse of an action: creating undoes deleting, and an update swaps
/// its two sides.
pub open spec fn spec_invert(a: UndoActionView) -> UndoActionView {
    match a {
        UndoActionView::Create(x) => UndoActionView::Delete(x),
        UndoActionView::Delete(x) => UndoActionView::Create(x),
        UndoActionView::Update { before, after } => UndoActionView::Update {
            before: after,
            after: before,
        },
    }
}

impl UndoAction {
    /// The action that exactly undoes this one.
    pub fn invert(&self) -> (r: UndoAction)
        ensures
            r@ == spec_invert(self@),
    {
        match self {
            UndoAction::Create(a) => UndoAction::Delete(a.duplicate()),
            UndoAction::Delete(a) => UndoAction::Create(a.duplicate()),
            UndoAction::Update { before, after } => UndoAction::Update {
                before: after.duplicate(),
                after: before.duplicate(),
            },
        }
    }
}

/// Inverting twice gives the action back.
pub proof fn lemma_invert_involution(a: UndoActionView)
    ensures
        spec_invert(spec_invert(a)) == a,
{
}

/// The two stacks of the ledger.
#[derive(Debug)]
pub struct UndoStack {
    undo: Vec<UndoAction>,
    redo: Vec<UndoAction>,
}

/// Mathematical model of an [`UndoStack`].
#[verifier::ext_equal]
pub ghost struct UndoStackView {
    pub undo: Seq<UndoActionView>,
    pub redo: Seq<UndoActionView>,
}

impl View for UndoStack {
    type V = UndoStackView;

    closed spec fn view(&self) -> UndoStackView {
        UndoStackView {
            undo: Seq::new(self.undo@.len(), |i: int| self.undo@[i]@),
            redo: Seq::new(self.redo@.len(), |i: int| self.redo@[i]@),
        }
    }
}

/// Recording a new edit: it lands on the undo stack and forfeits everything
/// that could have been redone.
pub open spec fn spec_push(s: UndoStackView, a: UndoActionView) -> UndoStackView {
    UndoStackView { undo: s.undo.push(a), redo: Seq::empty() }
}

/// Undoing: the latest edit moves to the redo stack. Empty stacks are left
/// alone.
pub open spec fn spec_undo(s: UndoStackView) -> UndoStackView {
    if s.undo.len() == 0 {
        s
    } else {
        UndoStackView { undo: s.undo.drop_last(), redo: s.redo.push(s.undo.last()) }
    }
}

/// Redoing: the latest undone edit moves back to the undo stack.
pub open spec fn spec_redo(s: UndoStackView) -> UndoStackView {
    if s.redo.len() == 0 {
        s
    } else {
        UndoStackView { undo: s.undo.push(s.redo.last()), redo: s.redo.drop_last() }
    }
}

impl Default for UndoStack {
    /// An empty ledger.
    fn default() -> (r: Self)
        ensures
            r@.undo == Seq::<UndoActionView>::empty(),
            r@.redo == Seq::<UndoActionView>::empty(),
    {
        let r = UndoStack { undo: Vec::new(), redo: Vec::new() };
        proof {
            assert(r@.undo =~= Seq::<UndoActionView>::empty());
            assert(r@.redo =~= Seq::<UndoActionView>::empty());
        }
        r
    }
}

impl UndoStack {
    /// Record a user edit.
    pub fn push(&mut self, action: UndoAction)
        ensures
            final(self)@ == spec_push(old(self)@, action@),
    {
        self.undo.push(action);
        self.redo.clear();
        proof {
            assert(final(self)@.undo =~= spec_push(old(self)@, action@).undo);
            assert(final(self)@.redo =~= Seq::<UndoActionView>::empty());
        }
    }

    /// Pop the latest edit, remember it for redo, and hand back its inverse
    /// for the caller to apply. `None` when nothing is left to undo.
    pub fn undo(&mut self) -> (r: Option<UndoAction>)
        ensures
            final(self)@ == spec_undo(old(self)@),
            match r {
                Some(a) => old(self)@.undo.len() > 0 && a@ == spec_invert(old(self)@.undo.last()),
                None => old(self)@.undo.len() == 0,
            },
    {
        match self.undo.pop() {
            Some(action) => {
                let inverted = action.invert();
                self.redo.push(action);
                proof {
                    assert(final(self)@.undo =~= spec_undo(old(self)@).undo);
                    assert(final(self)@.redo =~= spec_undo(old(self)@).redo);
                }
                Some(inverted)
            },
            None => {
                proof {
                    assert(final(self)@.undo =~= old(self)@.undo);
                    assert(final(self)@.redo =~= old(self)@.redo);
                }
                None
            },
        }
    }

    /// Pop the latest undone edit, put it back on the undo stack, and hand
    /// back its inverse for the caller to apply. `None` when nothing is left
    /// to redo.
    pub fn redo(&mut self) -> (r: Option<UndoAction>)
        ensures
            final(self)@ == spec_redo(old(self)@),
            match r {
                Some(a) => old(self)@.redo.len() > 0 && a@ == spec_invert(old(self)@.redo.last()),
                None => old(self)@.redo.len() == 0,
            },
    {
        match self.redo.pop() {
            Some(action) => {
                let inverted = action.invert();
                self.undo.push(action);
                proof {
                    assert(final(self)@.undo =~= spec_redo(old(self)@).undo);
                    assert(final(self)@.redo =~= spec_redo(old(self)@).redo);
                }
                Some(inverted)
            },
            None => {
                proof {
                    assert(final(self)@.undo =~= old(self)@.undo);
                    assert(final(self)@.redo =~= old(self)@.redo);
                }
                None
            },
        }
    }

    /// Whether an edit is there to undo.
    pub fn can_undo(&self) -> (r: bool)
        ensures
            r == (self@.undo.len() > 0),
    {
        !self.undo.is_empty()
    }

    /// Whether an undone edit is there to redo.
    pub fn can_redo(&self) -> (r: bool)
        ensures
            r == (self@.redo.len() > 0),
    {
        !self.redo.is_empty()
    }
}

/// Undo and redo are inverse on non-empty stacks: redoing right after an
/// undo, or undoing right after a redo, restores the prior ledger; and a
/// push forfeits the redo stack.
pub proof fn lemma_undo_redo_involution(s: UndoStackView, a: UndoActionView)
    ensures
        s.undo.len() > 0 ==> spec_redo(spec_undo(s)) == s,
        s.redo.len() > 0 ==> spec_undo(spec_redo(s)) == s,
        spec_push(s, a).redo == Seq::<UndoActionView>::empty(),
{
    if s.undo.len() > 0 {
        assert(spec_redo(spec_undo(s)) =~= s);
    }
    if s.redo.len() > 0 {
        assert(spec_undo(spec_redo(s)) =~= s);
    }
}

} // verus!
