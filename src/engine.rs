//! Running a plan: a state machine that hands out one filesystem step at a
//! time and learns whether it succeeded. The caller performs each step
//! (creating directories, streaming an entry into a file) and reports back;
//! the first failure ends the run.
use vstd::prelude::*;
use crate::path::EntryKind;
use crate::plan::{plan_view, Planned, PlannedEntry};

verus! {

/// The next thing the caller is asked to do.
pub enum Action {
    /// Create the directory `path` with all missing ancestors; an existing
    /// directory counts as success.
    CreateDir { path: Vec<u8> },
    /// Create `parent` with all missing ancestors, create or truncate the
    /// file `path`, and copy the contents of archive entry `index` into it.
    WriteFile { parent: Vec<u8>, path: Vec<u8>, index: usize },
    /// The run is complete; `count` entries were written.
    Finish { count: usize },
    /// The run was aborted by a failed step; nothing more is to be done.
    Halt,
}

/// An action seen as plain values.
pub enum Step {
    CreateDir(Seq<u8>),
    WriteFile(Seq<u8>, Seq<u8>, usize),
    Finish(nat),
    Halt,
}

impl View for Action {
    type V = Step;

    open spec fn view(&self) -> Step {
        match self {
            Action::CreateDir { path } => Step::CreateDir(path@),
            Action::WriteFile { parent, path, index } => Step::WriteFile(parent@, path@, *index),
            Action::Finish { count } => Step::Finish(*count as nat),
            Action::Halt => Step::Halt,
        }
    }
}

/// How the caller's attempt at the last action went.
#[derive(PartialEq, Eq, Structural, Debug, Clone, Copy)]
pub enum Outcome {
    Done,
    Failed,
}

/// The state of a run: the plan, how many of its steps are done, and
/// whether a step failed.
pub struct Extraction {
    plan: Vec<PlannedEntry>,
    next: usize,
    aborted: bool,
}

pub struct RunState {
    pub plan: Seq<Planned>,
    pub next: nat,
    pub aborted: bool,
}

impl View for Extraction {
    type V = RunState;

    closed spec fn view(&self) -> RunState {
        RunState { plan: plan_view(self.plan@), next: self.next as nat, aborted: self.aborted }
    }
}

/// The action that a state asks for.
pub open spec fn spec_next_action(s: RunState) -> Step {
    if s.aborted {
        Step::Halt
    } else if s.next >= s.plan.len() {
        Step::Finish(s.plan.len())
    } else {
        let p = s.plan[s.next as int];
        match p.target.kind {
            EntryKind::Directory => Step::CreateDir(p.target.path),
            EntryKind::File => Step::WriteFile(p.target.parent, p.target.path, p.index),
        }
    }
}

/// The state after the caller reports `o` for the action that `s` asked
/// for: a success moves on to the next planned entry, a failure aborts,
/// and a finished or aborted run stays as it is.
pub open spec fn spec_record(s: RunState, o: Outcome) -> RunState {
    if s.aborted || s.next >= s.plan.len() {
        s
    } else if o == Outcome::Done {
        RunState { next: s.next + 1, ..s }
    } else {
        RunState { aborted: true, ..s }
    }
}

/// The state after the outcomes `os` are reported one after another.
pub open spec fn record_all(s: RunState, os: Seq<Outcome>) -> RunState
    decreases os.len(),
{
    if os.len() == 0 {
        s
    } else {
        spec_record(record_all(s, os.drop_last()), os.last())
    }
}

/// A failed step ends the run: from then on only `Halt` is asked for and
/// no further entry is written, whatever is reported afterwards.
pub proof fn failure_ends_run(s: RunState, later: Seq<Outcome>)
    requires
        !s.aborted,
        s.next < s.plan.len(),
    ensures
        record_all(spec_record(s, Outcome::Failed), later) == spec_record(s, Outcome::Failed),
        spec_next_action(record_all(spec_record(s, Outcome::Failed), later)) == Step::Halt,
        spec_record(s, Outcome::Failed).next == s.next,
    decreases later.len(),
{
    if later.len() > 0 {
        failure_ends_run(s, later.drop_last());
    }
}

impl Extraction {
    pub open spec fn wf(&self) -> bool {
        self@.next <= self@.plan.len()
    }

    /// A run of `plan` that has done nothing yet.
    pub fn new(plan: Vec<PlannedEntry>) -> (r: Extraction)
        ensures
            r.wf(),
            r@ == (RunState { plan: plan_view(plan@), next: 0, aborted: false }),
    {
        Extraction { plan, next: 0, aborted: false }
    }

    /// How many entries the plan holds: the size of the work to report
    /// progress against.
    pub fn total(&self) -> (r: usize)
        ensures
            r == self@.plan.len(),
    {
        self.plan.len()
    }

    /// How many planned entries have been written so far.
    pub fn written(&self) -> (r: usize)
        ensures
            r == self@.next,
    {
        self.next
    }

    pub fn is_aborted(&self) -> (r: bool)
        ensures
            r == self@.aborted,
    {
        self.aborted
    }

    /// The action the caller is to perform next.
    pub fn next_action(&self) -> (r: Action)
        requires
            self.wf(),
        ensures
            r@ == spec_next_action(self@),
    {
        if self.aborted {
            Action::Halt
        } else if self.next >= self.plan.len() {
            Action::Finish { count: self.plan.len() }
        } else {
            let p = &self.plan[self.next];
            let t = &p.target;
            match t.kind {
                EntryKind::Directory => Action::CreateDir { path: t.output_path.clone() },
                EntryKind::File => Action::WriteFile {
                    parent: t.parent_dir.clone(),
                    path: t.output_path.clone(),
                    index: p.index,
                },
            }
        }
    }

    /// Takes in how the last action went.
    pub fn record(&mut self, outcome: Outcome)
        requires
            old(self).wf(),
        ensures
            final(self).wf(),
            final(self)@ == spec_record(old(self)@, outcome),
    {
        if self.aborted || self.next >= self.plan.len() {
        } else if outcome == Outcome::Done {
            self.next = self.next + 1;
        } else {
            self.aborted = true;
        }
    }
}

} // verus!
