//! The order of object-store and engine work around a statement that stores files:
//! every file is written before the statement runs, and when the statement fails the
//! files it would have referred to are deleted again. Whoever performs the work feeds
//! each outcome back and is told what to do next.
use vstd::prelude::*;

verus! {

/// The kind of statement the files belong to.
#[derive(Debug, Clone, Copy, PartialEq, Eq, Structural)]
pub enum StatementKind {
    /// An insert: succeeds only when it returns a row.
    Insert,
    /// An update: a row it changed may have orphaned file descriptors, whose deletion
    /// the engine recorded and which are then swept.
    Update,
    /// A delete: fails as not found when no row matched; a deleted row's descriptors
    /// are then swept.
    Delete,
}

/// What to do next.
#[derive(Debug, Clone, Copy, PartialEq, Eq, Structural)]
pub enum Action {
    /// Write file `i` to the object store.
    WriteFile(usize),
    /// Run the statement.
    Execute,
    /// Delete file `i` from the object store.
    DeleteFile(usize),
    /// Delete the files whose descriptors the statement orphaned.
    SweepPending,
    /// Stop: the operation succeeded, or failed.
    Finish(Outcome),
}

#[derive(Debug, Clone, Copy, PartialEq, Eq, Structural)]
pub enum Outcome {
    Success,
    /// A file could not be written; the statement did not run.
    StorageFailed,
    /// The statement failed; the files written for it were deleted.
    StatementFailed,
    /// No row matched.
    NotFound,
}

/// What the last action came to.
#[derive(Debug, Clone, Copy, PartialEq, Eq, Structural)]
pub enum Event {
    /// The session starts; any first event starts it.
    Start,
    /// The file write finished, successfully or not.
    Written(bool),
    /// The statement ran: it failed, or succeeded with or without a row.
    Executed(ExecResult),
    /// A file deletion finished; its failure leaks the object, which is tolerated.
    Deleted,
    /// The sweep of orphaned files finished.
    Swept,
}

#[derive(Debug, Clone, Copy, PartialEq, Eq, Structural)]
pub enum ExecResult {
    Row,
    NoRow,
    Failed,
}

#[derive(Debug, Clone, Copy, PartialEq, Eq, Structural)]
pub enum Phase {
    Idle,
    /// File `i` is being written; files before it are written.
    Writing(usize),
    Executing,
    /// File `i` is being deleted after a failed statement; files before it are deleted.
    CleaningUp(usize),
    Sweeping,
    Done(Outcome),
}

/// The state of one operation that stores `files` files for a statement of `kind`.
#[derive(Debug, Clone, Copy, PartialEq, Eq, Structural)]
pub struct FileSession {
    pub kind: StatementKind,
    pub files: usize,
    pub phase: Phase,
}

/// The next state and action.
pub open spec fn step(s: FileSession, e: Event) -> (FileSession, Action) {
    let n = s.files;
    let at = |p: Phase| FileSession { phase: p, ..s };
    match (s.phase, e) {
        (Phase::Idle, _) => if n > 0 {
            (at(Phase::Writing(0)), Action::WriteFile(0))
        } else {
            (at(Phase::Executing), Action::Execute)
        },
        (Phase::Writing(i), Event::Written(ok)) => if !ok {
            (at(Phase::Done(Outcome::StorageFailed)), Action::Finish(Outcome::StorageFailed))
        } else if i + 1 < n {
            (at(Phase::Writing((i + 1) as usize)), Action::WriteFile((i + 1) as usize))
        } else {
            (at(Phase::Executing), Action::Execute)
        },
        (Phase::Executing, Event::Executed(r)) => match r {
            ExecResult::Failed => if n > 0 {
                (at(Phase::CleaningUp(0)), Action::DeleteFile(0))
            } else {
                (at(Phase::Done(Outcome::StatementFailed)), Action::Finish(Outcome::StatementFailed))
            },
            ExecResult::Row => match s.kind {
                StatementKind::Insert => (at(Phase::Done(Outcome::Success)), Action::Finish(Outcome::Success)),
                _ => (at(Phase::Sweeping), Action::SweepPending),
            },
            ExecResult::NoRow => match s.kind {
                StatementKind::Insert => if n > 0 {
                    (at(Phase::CleaningUp(0)), Action::DeleteFile(0))
                } else {
                    (at(Phase::Done(Outcome::StatementFailed)), Action::Finish(Outcome::StatementFailed))
                },
                StatementKind::Update => (at(Phase::Done(Outcome::Success)), Action::Finish(Outcome::Success)),
                StatementKind::Delete => (at(Phase::Done(Outcome::NotFound)), Action::Finish(Outcome::NotFound)),
            },
        },
        (Phase::CleaningUp(i), Event::Deleted) => if i + 1 < n {
            (at(Phase::CleaningUp((i + 1) as usize)), Action::DeleteFile((i + 1) as usize))
        } else {
            (at(Phase::Done(Outcome::StatementFailed)), Action::Finish(Outcome::StatementFailed))
        },
        (Phase::Sweeping, Event::Swept) => (at(Phase::Done(Outcome::Success)), Action::Finish(Outcome::Success)),
        (Phase::Done(o), _) => (s, Action::Finish(o)),
        _ => (s, pending(s)),
    }
}

/// The action a session waits on; an event that does not answer it asks for it again.
pub open spec fn pending(s: FileSession) -> Action {
    match s.phase {
        Phase::Idle => if s.files > 0 {
            Action::WriteFile(0)
        } else {
            Action::Execute
        },
        Phase::Writing(i) => Action::WriteFile(i),
        Phase::Executing => Action::Execute,
        Phase::CleaningUp(i) => Action::DeleteFile(i),
        Phase::Sweeping => Action::SweepPending,
        Phase::Done(o) => Action::Finish(o),
    }
}

/// The states a session passes through: positions stay within the files.
pub open spec fn valid(s: FileSession) -> bool {
    match s.phase {
        Phase::Writing(i) => i < s.files,
        Phase::CleaningUp(i) => i < s.files,
        _ => true,
    }
}

impl FileSession {
    /// A session for a statement of `kind` that stores `files` files.
    pub fn new(kind: StatementKind, files: usize) -> (r: FileSession)
        ensures
            r == (FileSession { kind, files, phase: Phase::Idle }),
    {
        FileSession { kind, files, phase: Phase::Idle }
    }

    /// The action the session waits on.
    pub fn pending_action(&self) -> (a: Action)
        ensures
            a == pending(*self),
    {
        match self.phase {
            Phase::Idle => if self.files > 0 {
                Action::WriteFile(0)
            } else {
                Action::Execute
            },
            Phase::Writing(i) => Action::WriteFile(i),
            Phase::Executing => Action::Execute,
            Phase::CleaningUp(i) => Action::DeleteFile(i),
            Phase::Sweeping => Action::SweepPending,
            Phase::Done(o) => Action::Finish(o),
        }
    }

    /// Takes in what the last action came to and says what to do next. An event that
    /// does not answer the pending action asks for it again.
    pub fn next(&mut self, e: Event) -> (a: Action)
        requires
            valid(*old(self)),
        ensures
            (*final(self), a) == step(*old(self), e),
            valid(*final(self)),
    {
        let n = self.files;
        let (phase, action) = match (self.phase, e) {
            (Phase::Idle, _) => if n > 0 {
                (Phase::Writing(0), Action::WriteFile(0))
            } else {
                (Phase::Executing, Action::Execute)
            },
            (Phase::Writing(i), Event::Written(ok)) => if !ok {
                (Phase::Done(Outcome::StorageFailed), Action::Finish(Outcome::StorageFailed))
            } else if i + 1 < n {
                (Phase::Writing(i + 1), Action::WriteFile(i + 1))
            } else {
                (Phase::Executing, Action::Execute)
            },
            (Phase::Executing, Event::Executed(r)) => match r {
                ExecResult::Failed => if n > 0 {
                    (Phase::CleaningUp(0), Action::DeleteFile(0))
                } else {
                    (Phase::Done(Outcome::StatementFailed), Action::Finish(Outcome::StatementFailed))
                },
                ExecResult::Row => match self.kind {
                    StatementKind::Insert => (Phase::Done(Outcome::Success), Action::Finish(Outcome::Success)),
                    _ => (Phase::Sweeping, Action::SweepPending),
                },
                ExecResult::NoRow => match self.kind {
                    StatementKind::Insert => if n > 0 {
                        (Phase::CleaningUp(0), Action::DeleteFile(0))
                    } else {
                        (Phase::Done(Outcome::StatementFailed), Action::Finish(Outcome::StatementFailed))
                    },
                    StatementKind::Update => (Phase::Done(Outcome::Success), Action::Finish(Outcome::Success)),
                    StatementKind::Delete => (Phase::Done(Outcome::NotFound), Action::Finish(Outcome::NotFound)),
                },
            },
            (Phase::CleaningUp(i), Event::Deleted) => if i + 1 < n {
                (Phase::CleaningUp(i + 1), Action::DeleteFile(i + 1))
            } else {
                (Phase::Done(Outcome::StatementFailed), Action::Finish(Outcome::StatementFailed))
            },
            (Phase::Sweeping, Event::Swept) => (Phase::Done(Outcome::Success), Action::Finish(Outcome::Success)),
            (Phase::Done(o), _) => (Phase::Done(o), Action::Finish(o)),
            (p, _) => (p, self.pending_action()),
        };
        self.phase = phase;
        action
    }
}

/// The statement runs only once every file is written: the step that first asks for
/// it comes from a session without files, or from the successful write of the last file.
pub proof fn lemma_execute_after_all_writes(s: FileSession, e: Event)
    requires
        valid(s),
        step(s, e).1 == Action::Execute,
        s.phase != Phase::Executing,
    ensures
        (s.phase == Phase::Idle && s.files == 0) || (s.phase == Phase::Writing(
            (s.files - 1) as usize,
        ) && e == Event::Written(true)),
{
}

/// A failed statement is followed by the deletion of every file, in order: a session
/// cleaning up finishes only after deleting the last file, and a failed statement
/// finishes at once only when it stored no file.
pub proof fn lemma_failure_deletes_every_file(s: FileSession, e: Event)
    requires
        valid(s),
        step(s, e).1 == Action::Finish(Outcome::StatementFailed),
        s.phase is CleaningUp || s.phase == Phase::Executing,
    ensures
        s.phase == Phase::Executing ==> s.files == 0,
        s.phase matches Phase::CleaningUp(i) ==> i == s.files - 1 && e == Event::Deleted,
{
}

/// A successful statement deletes none of the files it stored: from the statement on,
/// no step asks for a file deletion unless the statement failed or, for an insert,
/// returned no row.
pub proof fn lemma_success_keeps_files(s: FileSession, e: Event)
    requires
        valid(s),
        s.phase == Phase::Executing,
        step(s, e).1 is DeleteFile,
    ensures
        e == Event::Executed(ExecResult::Failed) || (e == Event::Executed(ExecResult::NoRow) && s.kind
            == StatementKind::Insert),
{
}

/// After an update or delete that touched a row, the orphaned files are swept before
/// the operation reports success.
pub proof fn lemma_row_change_sweeps(s: FileSession)
    requires
        valid(s),
        s.phase == Phase::Executing,
        s.kind != StatementKind::Insert,
    ensures
        step(s, Event::Executed(ExecResult::Row)).1 == Action::SweepPending,
        step(step(s, Event::Executed(ExecResult::Row)).0, Event::Swept).1 == Action::Finish(
            Outcome::Success,
        ),
{
}

} // verus!
