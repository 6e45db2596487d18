//! Bounded undo/redo history of whole-project snapshots.
use vstd::prelude::*;
use vstd::string::*;
use crate::schema::{Project, ProjectModel};

verus! {

/// One undoable step: what it was, and the project as it was before it.
#[derive(Debug)]
pub struct HistoryEntry {
    pub description: String,
    pub project: Project,
}

/// Model of a history entry.
pub struct EntryModel {
    pub description: Seq<char>,
    pub project: ProjectModel,
}

impl View for HistoryEntry {
    type V = EntryModel;

    open spec fn view(&self) -> EntryModel {
        EntryModel { description: self.description@, project: self.project@ }
    }
}

impl Clone for HistoryEntry {
    fn clone(&self) -> (r: HistoryEntry)
        ensures
            r@ == self@,
    {
        HistoryEntry { description: self.description.clone(), project: self.project.clone() }
    }
}

/// Bounded undo and redo stacks of project snapshots.
#[derive(Debug)]
pub struct ProjectHistory {
    undo_stack: Vec<HistoryEntry>,
    redo_stack: Vec<HistoryEntry>,
    max_history: usize,
}

/// Model of the history: both stacks (top last) and the bound.
pub struct HistoryModel {
    pub undo: Seq<EntryModel>,
    pub redo: Seq<EntryModel>,
    pub max_history: nat,
}

impl View for ProjectHistory {
    type V = HistoryModel;

    closed spec fn view(&self) -> HistoryModel {
        HistoryModel {
            undo: self.undo_stack@.map_values(|e: HistoryEntry| e@),
            redo: self.redo_stack@.map_values(|e: HistoryEntry| e@),
            max_history: self.max_history as nat,
        }
    }
}

/// History after recording `p` as the state before an operation described by `d`:
/// the oldest entry is dropped when the undo stack is full, and redo is cleared.
pub open spec fn spec_commit(h: HistoryModel, p: ProjectModel, d: Seq<char>) -> HistoryModel {
    let kept = if h.undo.len() >= h.max_history {
        h.undo.drop_first()
    } else {
        h.undo
    };
    HistoryModel {
        undo: kept.push(EntryModel { description: d, project: p }),
        redo: Seq::empty(),
        max_history: h.max_history,
    }
}

/// Undo from state `cur`: (new history, new current project, whether anything was undone).
pub open spec fn spec_undo(h: HistoryModel, cur: ProjectModel) -> (HistoryModel, ProjectModel, bool) {
    if h.undo.len() == 0 {
        (h, cur, false)
    } else {
        let e = h.undo.last();
        (
            HistoryModel {
                undo: h.undo.drop_last(),
                redo: h.redo.push(EntryModel { description: e.description, project: cur }),
                max_history: h.max_history,
            },
            e.project,
            true,
        )
    }
}

/// Redo from state `cur`: (new history, new current project, whether anything was redone).
pub open spec fn spec_redo(h: HistoryModel, cur: ProjectModel) -> (HistoryModel, ProjectModel, bool) {
    if h.redo.len() == 0 {
        (h, cur, false)
    } else {
        let e = h.redo.last();
        (
            HistoryModel {
                undo: h.undo.push(EntryModel { description: e.description, project: cur }),
                redo: h.redo.drop_last(),
                max_history: h.max_history,
            },
            e.project,
            true,
        )
    }
}

/// The history respects its bound: at least one step is kept and the two
/// stacks together never hold more than `max_history` entries.
pub open spec fn history_wf(h: HistoryModel) -> bool {
    h.max_history >= 1 && h.undo.len() + h.redo.len() <= h.max_history
}

impl ProjectHistory {
    pub open spec fn wf(&self) -> bool {
        history_wf(self@)
    }

    /// An empty history keeping at most `max_history` steps (at least one).
    pub fn new(max_history: usize) -> (r: ProjectHistory)
        ensures
            r@.undo.len() == 0,
            r@.redo.len() == 0,
            r@.max_history == (if max_history >= 1 {
                max_history as nat
            } else {
                1
            }),
            r.wf(),
    {
        let m = if max_history >= 1 {
            max_history
        } else {
            1
        };
        let r = ProjectHistory { undo_stack: Vec::new(), redo_stack: Vec::new(), max_history: m };
        assert(r@.undo =~= Seq::<EntryModel>::empty());
        assert(r@.redo =~= Seq::<EntryModel>::empty());
        r
    }

    /// Record `current` as the state before an operation described by `description`.
    pub fn commit(&mut self, current: &Project, description: &str)
        requires
            old(self).wf(),
        ensures
            final(self)@ == spec_commit(old(self)@, current@, description@),
            final(self).wf(),
    {
        let ghost h = self@;
        if self.undo_stack.len() >= self.max_history {
            let ghost before = self.undo_stack@;
            self.undo_stack.remove(0);
            assert(self.undo_stack@.map_values(|e: HistoryEntry| e@) =~= before.map_values(
                |e: HistoryEntry| e@,
            ).drop_first());
        }
        let ghost mid = self.undo_stack@;
        self.undo_stack.push(
            HistoryEntry { description: String::from_str(description), project: current.clone() },
        );
        assert(self.undo_stack@.map_values(|e: HistoryEntry| e@) =~= mid.map_values(
            |e: HistoryEntry| e@,
        ).push(EntryModel { description: description@, project: current@ }));
        self.redo_stack.clear();
        assert(self@.redo =~= Seq::<EntryModel>::empty());
        assert(self@ == spec_commit(h, current@, description@));
    }

    /// Restore the state before the latest recorded operation; `current`
    /// moves to the redo stack. Returns whether there was anything to undo.
    pub fn undo(&mut self, current: &mut Project) -> (r: bool)
        requires
            old(self).wf(),
        ensures
            (final(self)@, final(current)@, r) == spec_undo(old(self)@, old(current)@),
            final(self).wf(),
    {
        let ghost u = self.undo_stack@;
        let ghost rd = self.redo_stack@;
        match self.undo_stack.pop() {
            Some(entry) => {
                assert(self.undo_stack@.map_values(|e: HistoryEntry| e@) =~= u.map_values(
                    |e: HistoryEntry| e@,
                ).drop_last());
                let redo_entry = HistoryEntry {
                    description: entry.description.clone(),
                    project: current.clone(),
                };
                self.redo_stack.push(redo_entry);
                assert(self.redo_stack@.map_values(|e: HistoryEntry| e@) =~= rd.map_values(
                    |e: HistoryEntry| e@,
                ).push(EntryModel { description: entry.description@, project: old(current)@ }));
                *current = entry.project;
                true
            },
            None => {
                assert(u.map_values(|e: HistoryEntry| e@).len() == 0);
                false
            },
        }
    }

    /// Re-apply the latest undone operation; `current` moves back to the
    /// undo stack. Returns whether there was anything to redo.
    pub fn redo(&mut self, current: &mut Project) -> (r: bool)
        requires
            old(self).wf(),
        ensures
            (final(self)@, final(current)@, r) == spec_redo(old(self)@, old(current)@),
            final(self).wf(),
    {
        let ghost u = self.undo_stack@;
        let ghost rd = self.redo_stack@;
        match self.redo_stack.pop() {
            Some(entry) => {
                assert(self.redo_stack@.map_values(|e: HistoryEntry| e@) =~= rd.map_values(
                    |e: HistoryEntry| e@,
                ).drop_last());
                let undo_entry = HistoryEntry {
                    description: entry.description.clone(),
                    project: current.clone(),
                };
                self.undo_stack.push(undo_entry);
                assert(self.undo_stack@.map_values(|e: HistoryEntry| e@) =~= u.map_values(
                    |e: HistoryEntry| e@,
                ).push(EntryModel { description: entry.description@, project: old(current)@ }));
                *current = entry.project;
                true
            },
            None => {
                assert(rd.map_values(|e: HistoryEntry| e@).len() == 0);
                false
            },
        }
    }

    pub fn can_undo(&self) -> (r: bool)
        ensures
            r == (self@.undo.len() > 0),
    {
        !self.undo_stack.is_empty()
    }

    pub fn can_redo(&self) -> (r: bool)
        ensures
            r == (self@.redo.len() > 0),
    {
        !self.redo_stack.is_empty()
    }

    /// Description of the operation that `undo` would revert.
    pub fn undo_description(&self) -> (r: Option<&str>)
        ensures
            self@.undo.len() == 0 ==> r is None,
            self@.undo.len() > 0 ==> (r matches Some(s) && s@ == self@.undo.last().description),
    {
        let n = self.undo_stack.len();
        if n == 0 {
            None
        } else {
            Some(self.undo_stack[n - 1].description.as_str())
        }
    }

    /// Description of the operation that `redo` would re-apply.
    pub fn redo_description(&self) -> (r: Option<&str>)
        ensures
            self@.redo.len() == 0 ==> r is None,
            self@.redo.len() > 0 ==> (r matches Some(s) && s@ == self@.redo.last().description),
    {
        let n = self.redo_stack.len();
        if n == 0 {
            None
        } else {
            Some(self.redo_stack[n - 1].description.as_str())
        }
    }
}

impl Clone for ProjectHistory {
    fn clone(&self) -> (r: ProjectHistory)
        ensures
            r@ == self@,
    {
        let undo_stack = clone_entries(&self.undo_stack);
        let redo_stack = clone_entries(&self.redo_stack);
        ProjectHistory { undo_stack, redo_stack, max_history: self.max_history }
    }
}

/// An entry-by-entry copy of `v`.
fn clone_entries(v: &Vec<HistoryEntry>) -> (r: Vec<HistoryEntry>)
    ensures
        r@.map_values(|e: HistoryEntry| e@) == v@.map_values(|e: HistoryEntry| e@),
{
    let mut out: Vec<HistoryEntry> = Vec::new();
    let mut i: usize = 0;
    while i < v.len()
        invariant
            i <= v@.len(),
            out@.len() == i,
            forall|j: int| 0 <= j < i ==> (#[trigger] out@[j])@ == v@[j]@,
        decreases v@.len() - i,
    {
        out.push(v[i].clone());
        i = i + 1;
    }
    assert(out@.map_values(|e: HistoryEntry| e@) =~= v@.map_values(|e: HistoryEntry| e@));
    out
}

impl Default for ProjectHistory {
    fn default() -> (r: ProjectHistory)
        ensures
            r@.undo.len() == 0,
            r@.redo.len() == 0,
            r@.max_history == 50,
            r.wf(),
    {
        ProjectHistory::new(50)
    }
}

/// Undoing right after recording a state gives that state back, reports
/// success, and makes the step available for redo.
pub proof fn lemma_undo_after_commit(h: HistoryModel, p: ProjectModel, d: Seq<char>, cur: ProjectModel)
    requires
        history_wf(h),
    ensures
        spec_undo(spec_commit(h, p, d), cur).1 == p,
        spec_undo(spec_commit(h, p, d), cur).2,
        spec_undo(spec_commit(h, p, d), cur).0.redo == seq![EntryModel { description: d, project: cur }],
{
    let h1 = spec_commit(h, p, d);
    assert(h1.undo.last() == EntryModel { description: d, project: p });
    assert(Seq::<EntryModel>::empty().push(EntryModel { description: d, project: cur }) =~= seq![
        EntryModel { description: d, project: cur },
    ]);
}

/// Redoing right after a successful undo restores both the project and the
/// history to what they were before the undo.
pub proof fn lemma_redo_after_undo(h: HistoryModel, cur: ProjectModel)
    requires
        h.undo.len() > 0,
    ensures
        ({
            let (h1, p1, _) = spec_undo(h, cur);
            let (h2, p2, ok) = spec_redo(h1, p1);
            ok && p2 == cur && h2 == h
        }),
{
    let (h1, p1, _) = spec_undo(h, cur);
    let (h2, p2, _) = spec_redo(h1, p1);
    assert(h2.undo =~= h.undo);
    assert(h2.redo =~= h.redo);
}

/// Undoing right after a successful redo restores both the project and the
/// history to what they were before the redo.
pub proof fn lemma_undo_after_redo(h: HistoryModel, cur: ProjectModel)
    requires
        h.redo.len() > 0,
    ensures
        ({
            let (h1, p1, _) = spec_redo(h, cur);
            let (h2, p2, ok) = spec_undo(h1, p1);
            ok && p2 == cur && h2 == h
        }),
{
    let (h1, p1, _) = spec_redo(h, cur);
    let (h2, p2, _) = spec_undo(h1, p1);
    assert(h2.undo =~= h.undo);
    assert(h2.redo =~= h.redo);
}

/// Undo and redo on an empty stack change nothing.
pub proof fn lemma_empty_stacks_change_nothing(h: HistoryModel, cur: ProjectModel)
    ensures
        h.undo.len() == 0 ==> spec_undo(h, cur) == (h, cur, false),
        h.redo.len() == 0 ==> spec_redo(h, cur) == (h, cur, false),
{
}

/// Commit appends the new step and keeps the newest steps: the undo stack
/// grows by one until it holds `max_history` steps, and from then on each
/// commit drops exactly the oldest step. Redo is cleared.
pub proof fn lemma_commit_drops_only_the_oldest(h: HistoryModel, p: ProjectModel, d: Seq<char>)
    requires
        history_wf(h),
    ensures
        ({
            let h1 = spec_commit(h, p, d);
            let all = h.undo.push(EntryModel { description: d, project: p });
            &&& h.undo.len() < h.max_history ==> h1.undo == all
            &&& h.undo.len() >= h.max_history ==> h1.undo.len() == h.max_history && h1.undo == all.subrange(
                1,
                all.len() as int,
            )
            &&& h1.undo.last() == EntryModel { description: d, project: p }
            &&& h1.redo.len() == 0
            &&& h1.max_history == h.max_history
        }),
{
    let all = h.undo.push(EntryModel { description: d, project: p });
    if h.undo.len() >= h.max_history {
        assert(spec_commit(h, p, d).undo =~= all.subrange(1, all.len() as int));
    } else {
        assert(spec_commit(h, p, d).undo =~= all);
    }
}

/// Every operation keeps the history within its bound; after a commit the
/// newest step can always be undone and nothing can be redone.
pub proof fn lemma_history_bounded(h: HistoryModel, p: ProjectModel, d: Seq<char>, cur: ProjectModel)
    requires
        history_wf(h),
    ensures
        history_wf(spec_commit(h, p, d)),
        history_wf(spec_undo(h, cur).0),
        history_wf(spec_redo(h, cur).0),
        spec_commit(h, p, d).undo.len() >= 1,
        spec_commit(h, p, d).redo.len() == 0,
{
}

} // verus!
