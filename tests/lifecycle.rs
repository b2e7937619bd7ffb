use trailbase_records::lifecycle::{Action, Event, ExecResult, FileSession, Outcome, StatementKind};

#[test]
fn insert_writes_files_before_the_statement() {
    let mut s = FileSession::new(StatementKind::Insert, 2);
    assert_eq!(s.next(Event::Start), Action::WriteFile(0));
    assert_eq!(s.next(Event::Written(true)), Action::WriteFile(1));
    assert_eq!(s.next(Event::Written(true)), Action::Execute);
    assert_eq!(s.next(Event::Executed(ExecResult::Row)), Action::Finish(Outcome::Success));
    assert_eq!(s.next(Event::Deleted), Action::Finish(Outcome::Success));
}

#[test]
fn failed_insert_deletes_its_files() {
    let mut s = FileSession::new(StatementKind::Insert, 2);
    assert_eq!(s.next(Event::Start), Action::WriteFile(0));
    assert_eq!(s.next(Event::Written(true)), Action::WriteFile(1));
    assert_eq!(s.next(Event::Written(true)), Action::Execute);
    assert_eq!(s.next(Event::Executed(ExecResult::Failed)), Action::DeleteFile(0));
    assert_eq!(s.next(Event::Deleted), Action::DeleteFile(1));
    assert_eq!(s.next(Event::Deleted), Action::Finish(Outcome::StatementFailed));
}

#[test]
fn storage_failure_skips_the_statement() {
    let mut s = FileSession::new(StatementKind::Update, 1);
    assert_eq!(s.next(Event::Start), Action::WriteFile(0));
    assert_eq!(s.next(Event::Written(false)), Action::Finish(Outcome::StorageFailed));
}

#[test]
fn update_and_delete_sweep_orphaned_files() {
    let mut s = FileSession::new(StatementKind::Update, 0);
    assert_eq!(s.next(Event::Start), Action::Execute);
    assert_eq!(s.next(Event::Swept), Action::Execute);
    assert_eq!(s.next(Event::Executed(ExecResult::Row)), Action::SweepPending);
    assert_eq!(s.next(Event::Swept), Action::Finish(Outcome::Success));

    let mut d = FileSession::new(StatementKind::Delete, 0);
    assert_eq!(d.next(Event::Start), Action::Execute);
    assert_eq!(d.next(Event::Executed(ExecResult::NoRow)), Action::Finish(Outcome::NotFound));
}
