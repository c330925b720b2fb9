//! Per-photo undo / redo history of committed edit states.

use vstd::prelude::*;

verus! {

/// Cap on the undo history depth per photo.
pub const MAX_HISTORY: usize = 100;

/// Undo and redo stacks of edit states; the last element of each is the
/// next one to come back.
pub struct History<T> {
    undo: Vec<T>,
    redo: Vec<T>,
}

/// The stacks after committing a new state whose predecessor was
/// `previous`: it goes on the undo stack (dropping the oldest step beyond
/// the cap) and the redo stack is emptied.
pub open spec fn recorded<T>(undo: Seq<T>, previous: T) -> Seq<T> {
    let pushed = undo.push(previous);
    if pushed.len() > MAX_HISTORY {
        pushed.drop_first()
    } else {
        pushed
    }
}

impl<T> History<T> {
    /// The undo stack, oldest first.
    pub closed spec fn undo_stack(&self) -> Seq<T> {
        self.undo@
    }

    /// The redo stack, oldest first.
    pub closed spec fn redo_stack(&self) -> Seq<T> {
        self.redo@
    }

    /// An empty history.
    pub fn new() -> (h: Self)
        ensures
            h.undo_stack() == Seq::<T>::empty(),
            h.redo_stack() == Seq::<T>::empty(),
    {
        History { undo: Vec::new(), redo: Vec::new() }
    }

    pub fn can_undo(&self) -> (r: bool)
        ensures
            r == (self.undo_stack().len() > 0),
    {
        self.undo.len() > 0
    }

    pub fn can_redo(&self) -> (r: bool)
        ensures
            r == (self.redo_stack().len() > 0),
    {
        self.redo.len() > 0
    }

    /// Forget every step (a different photo was opened).
    pub fn clear(&mut self)
        ensures
            final(self).undo_stack() == Seq::<T>::empty(),
            final(self).redo_stack() == Seq::<T>::empty(),
    {
        self.undo.clear();
        self.redo.clear();
    }

    /// Commit an edit: `previous` is the state it replaced. It becomes the
    /// next undo step, the oldest step falls off past the cap, and the redo
    /// steps are gone.
    pub fn record(&mut self, previous: T)
        ensures
            final(self).undo_stack() == recorded(old(self).undo_stack(), previous),
            final(self).redo_stack() == Seq::<T>::empty(),
    {
        self.undo.push(previous);
        if self.undo.len() > MAX_HISTORY {
            self.undo.remove(0);
        }
        self.redo.clear();
    }

    /// Push a pending, not yet committed step onto the undo stack without
    /// touching the redo steps or the cap (done right before an undo, so the
    /// undo returns to it).
    pub fn flush(&mut self, previous: T)
        ensures
            final(self).undo_stack() == old(self).undo_stack().push(previous),
            final(self).redo_stack() == old(self).redo_stack(),
    {
        self.undo.push(previous);
    }

    /// Undo: `current` moves onto the redo stack and the last undo step
    /// comes back. With nothing to undo, nothing changes and `None` comes back.
    pub fn step_back(&mut self, current: T) -> (r: Option<T>)
        ensures
            (final(self).undo_stack(), final(self).redo_stack(), r) == undone(
                old(self).undo_stack(),
                old(self).redo_stack(),
                current,
            ),
    {
        match self.undo.pop() {
            Some(prev) => {
                self.redo.push(current);
                Some(prev)
            },
            None => None,
        }
    }

    /// Undo from the editor's state: when an edit is `pending` (the current
    /// state differs from the last `committed` one), that committed state is
    /// first pushed as a step of its own, so the undo returns to it; then
    /// `current` moves onto the redo stack and the last undo step comes back.
    pub fn undo_pending(&mut self, pending: bool, committed: T, current: T) -> (r: Option<T>)
        ensures
            (final(self).undo_stack(), final(self).redo_stack(), r) == undone(
                if pending {
                    old(self).undo_stack().push(committed)
                } else {
                    old(self).undo_stack()
                },
                old(self).redo_stack(),
                current,
            ),
            pending ==> r == Some(committed),
    {
        if pending {
            self.flush(committed);
        }
        self.step_back(current)
    }

    /// Redo: `current` moves back onto the undo stack and the last redo step
    /// comes back. With nothing to redo, nothing changes and `None` comes back.
    pub fn step_forward(&mut self, current: T) -> (r: Option<T>)
        ensures
            (final(self).undo_stack(), final(self).redo_stack(), r) == redone(
                old(self).undo_stack(),
                old(self).redo_stack(),
                current,
            ),
    {
        match self.redo.pop() {
            Some(next) => {
                self.undo.push(current);
                Some(next)
            },
            None => None,
        }
    }
}

/// The stacks and the state that comes back after an undo from `current`.
pub open spec fn undone<T>(undo: Seq<T>, redo: Seq<T>, current: T) -> (Seq<T>, Seq<T>, Option<T>) {
    if undo.len() == 0 {
        (undo, redo, Option::None)
    } else {
        (undo.drop_last(), redo.push(current), Some(undo.last()))
    }
}

/// The stacks and the state that comes back after a redo from `current`.
pub open spec fn redone<T>(undo: Seq<T>, redo: Seq<T>, current: T) -> (Seq<T>, Seq<T>, Option<T>) {
    if redo.len() == 0 {
        (undo, redo, Option::None)
    } else {
        (undo.push(current), redo.drop_last(), Some(redo.last()))
    }
}

/// Undo then redo is a round trip: redoing right after a successful undo
/// brings back the state that was current before the undo, and both stacks
/// are as they were.
pub proof fn lemma_undo_then_redo<T>(undo: Seq<T>, redo: Seq<T>, current: T)
    requires
        undo.len() > 0,
    ensures
        ({
            let (u1, r1, back) = undone(undo, redo, current);
            &&& back == Some(undo.last())
            &&& redone(u1, r1, back->0) == (undo, redo, Some(current))
        }),
{
    assert(redo.push(current).drop_last() =~= redo);
    assert(undo.drop_last().push(undo.last()) =~= undo);
}

/// Redo then undo is a round trip as well.
pub proof fn lemma_redo_then_undo<T>(undo: Seq<T>, redo: Seq<T>, current: T)
    requires
        redo.len() > 0,
    ensures
        ({
            let (u1, r1, fwd) = redone(undo, redo, current);
            &&& fwd == Some(redo.last())
            &&& undone(u1, r1, fwd->0) == (undo, redo, Some(current))
        }),
{
    assert(undo.push(current).drop_last() =~= undo);
    assert(redo.drop_last().push(redo.last()) =~= redo);
}

/// Undoing right after committing an edit gives back the state the edit
/// replaced, and that edit becomes the one redo step.
pub proof fn lemma_record_then_undo<T>(undo: Seq<T>, previous: T, current: T)
    ensures
        ({
            let (u1, r1, back) = undone(recorded(undo, previous), Seq::<T>::empty(), current);
            &&& back == Some(previous)
            &&& r1 == seq![current]
        }),
{
    assert(Seq::<T>::empty().push(current) =~= seq![current]);
}

/// Committing never lets the undo stack grow past the cap once it is within
/// it.
pub proof fn lemma_record_bounded<T>(undo: Seq<T>, previous: T)
    requires
        undo.len() <= MAX_HISTORY,
    ensures
        recorded(undo, previous).len() <= MAX_HISTORY,
{
}

} // verus!
