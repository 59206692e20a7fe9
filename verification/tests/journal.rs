use tfs::clock::Timestamp;
use tfs::facts::{EntryKind, FsFacts, FsQuery, Outcome, Stat, WalkEntry};
use tfs::fault::Fault;
use tfs::fsops::{cp, delete, mkdir, mv, quarantine_path, same_filesystem, trash, FsAction};
use tfs::job::{plan_revert, Job, JobStep, Reply, Work};
use tfs::journal::{
    commit_marker, is_committed, journal_lines, pending_inverses, JournalEntry, JournalStatus,
    UndoMetadata,
};
use tfs::model::{CollisionPolicy, Operation, TransactionMode};
use tfs::path::FsPath;
use tfs::reporter::Reporter;
use tfs::events::Event;
use tfs::transaction::{TransactionManager, TxStep};
use tfs::validate::NormalizedOp;

const T0: Timestamp = Timestamp { secs: 10, nanos: 5 };

const T1: Timestamp = Timestamp { secs: 11, nanos: 0 };

fn p(text: &str) -> FsPath {
    FsPath::parse(text)
}

fn entry(id: u128, status: JournalStatus, undo: Option<UndoMetadata>) -> JournalEntry {
    JournalEntry {
        id,
        ts: T0,
        op: "move".to_string(),
        src: Some(p("/r/src")),
        dst: Some(p("/r/dst")),
        collision: None,
        status,
        undo,
    }
}

fn moved() -> Option<UndoMetadata> {
    Some(UndoMetadata::Move { original_src: p("/r/src") })
}

fn on(kind: EntryKind, device: u64) -> Stat {
    Stat { kind, symlink: false, device: Some(device) }
}

fn missing() -> Stat {
    Stat { kind: EntryKind::Missing, symlink: false, device: None }
}

#[test]
fn journal_lines_pass_over_blank_lines_and_keep_the_rest() {
    let content = b"{\"a\":1}\n\n   \t\r\n{\"b\":2}\nnot json\n".to_vec();
    let lines = journal_lines(&content);
    assert_eq!(
        lines,
        vec![b"{\"a\":1}".to_vec(), b"{\"b\":2}".to_vec(), b"not json".to_vec()]
    );
    assert_eq!(journal_lines(&b"".to_vec()), Vec::<Vec<u8>>::new());
    assert_eq!(journal_lines(&b"\n\n".to_vec()), Vec::<Vec<u8>>::new());
    assert_eq!(journal_lines(&b"last line without feed".to_vec()), vec![b"last line without feed".to_vec()]);
    assert_eq!(journal_lines(&b" x \r\n".to_vec()), vec![b" x \r".to_vec()]);
}

#[test]
fn pending_inverses_are_the_applied_records_not_yet_undone_last_first() {
    let entries = vec![
        entry(1, JournalStatus::Start, None),
        entry(1, JournalStatus::Applied, moved()),
        entry(2, JournalStatus::Start, None),
        entry(2, JournalStatus::Fail, None),
        entry(3, JournalStatus::Start, None),
        entry(3, JournalStatus::Applied, moved()),
        entry(4, JournalStatus::Start, None),
        entry(4, JournalStatus::Applied, moved()),
        entry(4, JournalStatus::Undone, None),
        entry(5, JournalStatus::Applied, None),
    ];
    assert_eq!(pending_inverses(&entries), vec![5, 1]);
    assert_eq!(pending_inverses(&vec![]), Vec::<usize>::new());
    assert!(!is_committed(&entries));
    let mut with_marker = entries.clone();
    with_marker.push(commit_marker(77, T1));
    assert!(is_committed(&with_marker));
    assert_eq!(pending_inverses(&with_marker), vec![5, 1]);
    let marker = commit_marker(77, T1);
    assert_eq!(marker.id, 77);
    assert_eq!(marker.ts, T1);
    assert_eq!(marker.op, "txn_committed");
    assert_eq!(marker.status, JournalStatus::Applied);
}

#[test]
fn undone_and_unreverted_records_keep_the_entry_and_drop_the_inverse() {
    let e = entry(1, JournalStatus::Applied, moved());
    let u = e.undone(T1);
    assert_eq!(u.id, 1);
    assert_eq!(u.ts, T1);
    assert_eq!(u.status, JournalStatus::Undone);
    assert_eq!(u.undo, None);
    assert_eq!(u.src, e.src);
    assert_eq!(u.dst, e.dst);
    assert_eq!(u.op, e.op);
    let f = e.unreverted(T1);
    assert_eq!(f.status, JournalStatus::Fail);
    assert_eq!(f.undo, None);
    assert_eq!(e.duplicate(), e);
}

#[test]
fn mkdir_creates_what_is_missing_and_fails_on_what_is_no_directory() {
    let mut facts = FsFacts::new();
    assert_eq!(mkdir(&p("/r/d"), false, &facts), Outcome::Ask(FsQuery::Stat(p("/r/d"))));
    facts.record_stat(p("/r/d"), missing());
    assert_eq!(mkdir(&p("/r/d"), false, &facts), Outcome::Ask(FsQuery::Stat(p("/r"))));
    assert_eq!(
        mkdir(&p("/r/d"), true, &facts),
        Outcome::Done(vec![FsAction::CreateDirAll(p("/r/d"))])
    );
    facts.record_stat(p("/r"), on(EntryKind::Dir, 1));
    assert_eq!(
        mkdir(&p("/r/d"), false, &facts),
        Outcome::Done(vec![FsAction::CreateDir(p("/r/d"))])
    );
    // Without `parents` the directory that is to hold it has to exist.
    facts.record_stat(p("/r"), missing());
    assert_eq!(mkdir(&p("/r/d"), false, &facts), Outcome::Fail(Fault::DestinationParentMissing));
    facts.record_stat(p("/r"), on(EntryKind::File, 1));
    assert_eq!(mkdir(&p("/r/d"), false, &facts), Outcome::Fail(Fault::DestinationParentMissing));
    // What exists and is no directory is in the way; a directory is not.
    facts.record_stat(p("/r/d"), on(EntryKind::File, 1));
    assert_eq!(mkdir(&p("/r/d"), true, &facts), Outcome::Fail(Fault::NotADirectory));
    assert_eq!(mkdir(&p("/r/d"), false, &facts), Outcome::Fail(Fault::NotADirectory));
    facts.record_stat(p("/r/d"), Stat { kind: EntryKind::Missing, symlink: true, device: None });
    assert_eq!(mkdir(&p("/r/d"), true, &facts), Outcome::Fail(Fault::NotADirectory));
    facts.record_stat(p("/r/d"), on(EntryKind::Dir, 1));
    assert_eq!(mkdir(&p("/r/d"), false, &facts), Outcome::Done(vec![]));
    assert_eq!(mkdir(&p("/r/d"), true, &facts), Outcome::Done(vec![]));
}

#[test]
fn mv_renames_on_one_volume_and_copies_across_volumes() {
    let mut facts = FsFacts::new();
    assert_eq!(mv(&p("/r/a"), &p("/r/d/b"), false, &facts), Outcome::Ask(FsQuery::Stat(p("/r/a"))));
    facts.record_stat(p("/r/a"), on(EntryKind::File, 1));
    assert_eq!(mv(&p("/r/a"), &p("/r/d/b"), false, &facts), Outcome::Ask(FsQuery::Stat(p("/r/d"))));
    facts.record_stat(p("/r/d"), on(EntryKind::Dir, 1));
    assert_eq!(same_filesystem(&p("/r/a"), &p("/r/d/b"), &facts), Outcome::Done(true));
    assert_eq!(mv(&p("/r/a"), &p("/r/d/b"), false, &facts), Outcome::Ask(FsQuery::Stat(p("/r/d/b"))));
    facts.record_stat(p("/r/d/b"), missing());
    assert_eq!(
        mv(&p("/r/a"), &p("/r/d/b"), false, &facts),
        Outcome::Done(vec![FsAction::Rename { from: p("/r/a"), to: p("/r/d/b") }])
    );
    // On request, or across volumes: copy, then remove.
    let copied = vec![
        FsAction::CopyFile { from: p("/r/a"), to: p("/r/d/b") },
        FsAction::RemoveFile(p("/r/a")),
    ];
    assert_eq!(mv(&p("/r/a"), &p("/r/d/b"), true, &facts), Outcome::Done(copied.clone()));
    facts.record_stat(p("/r/d"), on(EntryKind::Dir, 2));
    assert_eq!(same_filesystem(&p("/r/a"), &p("/r/d/b"), &facts), Outcome::Done(false));
    assert_eq!(mv(&p("/r/a"), &p("/r/d/b"), false, &facts), Outcome::Done(copied));
    // Never onto something that exists.
    facts.record_stat(p("/r/d/b"), on(EntryKind::File, 2));
    assert_eq!(mv(&p("/r/a"), &p("/r/d/b"), false, &facts), Outcome::Fail(Fault::DestinationExists));
    facts.record_stat(p("/r/d/b"), Stat { kind: EntryKind::Missing, symlink: true, device: None });
    assert_eq!(mv(&p("/r/a"), &p("/r/d/b"), false, &facts), Outcome::Fail(Fault::DestinationExists));
    // Nor without a source or a directory to move into.
    facts.record_stat(p("/r/d"), missing());
    assert_eq!(
        mv(&p("/r/a"), &p("/r/d/b"), false, &facts),
        Outcome::Fail(Fault::DestinationParentMissing)
    );
    facts.record_stat(p("/r/a"), missing());
    assert_eq!(mv(&p("/r/a"), &p("/r/d/b"), false, &facts), Outcome::Fail(Fault::SourceMissing));
}

#[test]
fn cp_copies_a_file_or_recreates_a_tree() {
    let mut facts = FsFacts::new();
    facts.record_stat(p("/r/f"), on(EntryKind::File, 1));
    assert_eq!(
        cp(&p("/r/f"), &p("/r/g"), false, &facts),
        Outcome::Done(vec![FsAction::CopyFile { from: p("/r/f"), to: p("/r/g") }])
    );
    facts.record_stat(p("/r/t"), on(EntryKind::Dir, 1));
    assert_eq!(cp(&p("/r/t"), &p("/r/u"), false, &facts), Outcome::Fail(Fault::DirectoryNotRecursive));
    assert_eq!(cp(&p("/r/t"), &p("/r/u"), true, &facts), Outcome::Ask(FsQuery::Stat(p("/r/u"))));
    facts.record_stat(p("/r/u"), missing());
    assert_eq!(cp(&p("/r/t"), &p("/r/u"), true, &facts), Outcome::Ask(FsQuery::Walk(p("/r/t"))));
    facts.record_walk(
        p("/r/t"),
        Some(vec![
            WalkEntry { path: p("/r/t"), is_dir: true },
            WalkEntry { path: p("/r/t/a"), is_dir: false },
            WalkEntry { path: p("/r/t/s"), is_dir: true },
            WalkEntry { path: p("/r/t/s/b"), is_dir: false },
        ]),
    );
    assert_eq!(
        cp(&p("/r/t"), &p("/r/u"), true, &facts),
        Outcome::Done(vec![
            FsAction::CreateDirAll(p("/r/u")),
            FsAction::CreateDirAll(p("/r/u")),
            FsAction::CopyFile { from: p("/r/t/a"), to: p("/r/u/a") },
            FsAction::CreateDirAll(p("/r/u/s")),
            FsAction::CopyFile { from: p("/r/t/s/b"), to: p("/r/u/s/b") },
        ])
    );
    facts.record_walk(p("/r/t"), Some(vec![WalkEntry { path: p("/elsewhere"), is_dir: false }]));
    assert_eq!(cp(&p("/r/t"), &p("/r/u"), true, &facts), Outcome::Fail(Fault::EntryOutsideTree));
    facts.record_walk(p("/r/t"), None);
    assert_eq!(cp(&p("/r/t"), &p("/r/u"), true, &facts), Outcome::Fail(Fault::WalkFailed));
    facts.record_stat(p("/r/o"), on(EntryKind::Other, 1));
    assert_eq!(cp(&p("/r/o"), &p("/r/u"), true, &facts), Outcome::Fail(Fault::UnsupportedFileType));
    facts.record_stat(p("/r/n"), missing());
    assert_eq!(cp(&p("/r/n"), &p("/r/u"), true, &facts), Outcome::Fail(Fault::SourceMissing));
}

#[test]
fn trash_moves_to_the_name_with_the_reserved_extension() {
    assert_eq!(quarantine_path(&p("/r/garbage.txt")), p("/r/garbage.trash"));
    assert_eq!(quarantine_path(&p("/r/noext")), p("/r/noext.trash"));
    assert_eq!(quarantine_path(&p("/r/a.tar.gz")), p("/r/a.tar.trash"));
    assert_eq!(quarantine_path(&p("/r/.hidden")), p("/r/.hidden.trash"));
    let mut facts = FsFacts::new();
    facts.record_stat(p("/r/garbage.txt"), on(EntryKind::File, 1));
    facts.record_stat(p("/r"), on(EntryKind::Dir, 1));
    facts.record_stat(p("/r/garbage.trash"), missing());
    assert_eq!(
        trash(&p("/r/garbage.txt"), &facts),
        Outcome::Done(vec![FsAction::Rename { from: p("/r/garbage.txt"), to: p("/r/garbage.trash") }])
    );
    facts.record_stat(p("/r/d"), on(EntryKind::Dir, 1));
    assert_eq!(delete(&p("/r/d"), &facts), Outcome::Done(vec![FsAction::RemoveDirAll(p("/r/d"))]));
    assert_eq!(
        delete(&p("/r/garbage.txt"), &facts),
        Outcome::Done(vec![FsAction::RemoveFile(p("/r/garbage.txt"))])
    );
    assert_eq!(delete(&p("/r/garbage.trash"), &facts), Outcome::Done(vec![]));
}

#[test]
fn inverse_of_a_move_with_backup_has_two_steps() {
    let e = JournalEntry {
        undo: Some(UndoMetadata::MoveWithOverwrite {
            original_src: p("/r/a"),
            backup_path: p("/r/b.backup"),
        }),
        dst: Some(p("/r/b")),
        ..entry(1, JournalStatus::Applied, None)
    };
    let mut facts = FsFacts::new();
    facts.record_stat(p("/r/b"), on(EntryKind::File, 1));
    facts.record_stat(p("/r"), on(EntryKind::Dir, 1));
    facts.record_stat(p("/r/a"), missing());
    assert_eq!(
        plan_revert(&e, 0, &facts),
        Outcome::Done(vec![FsAction::Rename { from: p("/r/b"), to: p("/r/a") }])
    );
    let mut facts = FsFacts::new();
    facts.record_stat(p("/r/b.backup"), on(EntryKind::File, 1));
    facts.record_stat(p("/r"), on(EntryKind::Dir, 1));
    facts.record_stat(p("/r/b"), missing());
    assert_eq!(
        plan_revert(&e, 1, &facts),
        Outcome::Done(vec![FsAction::Rename { from: p("/r/b.backup"), to: p("/r/b") }])
    );
    assert_eq!(plan_revert(&e, 2, &facts), Outcome::Done(vec![]));
    let lost = JournalEntry { dst: None, ..e.clone() };
    assert_eq!(plan_revert(&lost, 0, &facts), Outcome::Fail(Fault::MissingDestination));
    let made = entry(2, JournalStatus::Applied, Some(UndoMetadata::Mkdir { created_dir: p("/r/d") }));
    assert_eq!(plan_revert(&made, 0, &FsFacts::new()), Outcome::Done(vec![FsAction::RemoveDir(p("/r/d"))]));
}

fn op_mkdir(id: u128) -> NormalizedOp {
    NormalizedOp {
        id,
        op: Operation::Mkdir { dst: p("d"), parents: false },
        resolved_src: None,
        resolved_dst: Some(p("/r/d")),
        parents: vec![],
    }
}

#[test]
fn manager_takes_an_operation_through_its_protocol() {
    let mut tm = TransactionManager::new(TransactionMode::All, CollisionPolicy::Fail, false);
    assert_eq!(tm.mode(), TransactionMode::All);
    assert_eq!(tm.applied_count(), 0);
    let step = tm.execute_at(op_mkdir(1), T0);
    let start = match step {
        TxStep::Append(e) => e,
        other => panic!("{:?}", other),
    };
    assert_eq!(start.id, 1);
    assert_eq!(start.ts, T0);
    assert_eq!(start.op, "mkdir");
    assert_eq!(start.status, JournalStatus::Start);
    assert_eq!(start.dst, Some(p("/r/d")));
    assert_eq!(start.src, None);
    assert_eq!(start.undo, None);

    // Out of turn.
    assert_eq!(tm.execute_at(op_mkdir(2), T0), TxStep::Failed(Fault::Protocol, String::new()));
    assert_eq!(tm.rollback_at(T0), TxStep::Failed(Fault::Protocol, String::new()));

    assert_eq!(tm.resume_at(Reply::Performed(0), T0), TxStep::Query(FsQuery::Stat(p("/r/d"))));
    // An answer to another kind of query is no answer.
    assert_eq!(
        tm.resume_at(Reply::Canonical(None), T1),
        TxStep::Append(JournalEntry { status: JournalStatus::Fail, ts: T1, ..start.clone() })
    );
    assert_eq!(tm.resume_at(Reply::Performed(0), T1), TxStep::Failed(Fault::Protocol, String::new()));

    // Again, and through.
    let _ = tm.execute_at(op_mkdir(3), T0);
    assert_eq!(tm.resume_at(Reply::Performed(0), T0), TxStep::Query(FsQuery::Stat(p("/r/d"))));
    assert_eq!(tm.resume_at(Reply::Stat(missing()), T0), TxStep::Query(FsQuery::Stat(p("/r"))));
    assert_eq!(
        tm.resume_at(Reply::Stat(on(EntryKind::Dir, 1)), T0),
        TxStep::Act(FsAction::CreateDir(p("/r/d")))
    );
    let applied = match tm.resume_at(Reply::Performed(0), T1) {
        TxStep::Append(e) => e,
        other => panic!("{:?}", other),
    };
    assert_eq!(applied.id, 3);
    assert_eq!(applied.ts, T1);
    assert_eq!(applied.status, JournalStatus::Applied);
    assert_eq!(applied.undo, Some(UndoMetadata::Mkdir { created_dir: p("/r/d") }));
    assert_eq!(applied.collision, None);
    match tm.resume_at(Reply::Performed(0), T1) {
        TxStep::Applied(result) => {
            assert_eq!(result.final_dst, p("/r/d"));
            assert_eq!(result.bytes_copied, 0);
            assert!(!result.overwritten);
            assert_eq!(result.backup_path, None);
        },
        other => panic!("{:?}", other),
    }
    assert_eq!(tm.applied_count(), 1);

    // Rollback: one action, one record.
    assert_eq!(tm.rollback_at(T1), TxStep::Act(FsAction::RemoveDir(p("/r/d"))));
    assert_eq!(tm.applied_count(), 0);
    assert_eq!(
        tm.resume_at(Reply::Refused("busy".to_string()), T1),
        TxStep::Append(applied.unreverted(T1))
    );
    assert_eq!(tm.resume_at(Reply::Performed(0), T1), TxStep::RolledBack { reverted: 0, failed: 1 });
    assert_eq!(tm.rollback_at(T1), TxStep::RolledBack { reverted: 0, failed: 0 });
    let marker = tm.commit_at(9, T1).unwrap();
    assert_eq!(marker, commit_marker(9, T1));
}

#[test]
fn manager_does_not_keep_a_record_that_was_not_written() {
    let mut tm = TransactionManager::new(TransactionMode::Op, CollisionPolicy::Fail, false);
    let _ = tm.execute_at(op_mkdir(1), T0);
    let _ = tm.resume_at(Reply::Performed(0), T0);
    let _ = tm.resume_at(Reply::Stat(missing()), T0);
    let _ = tm.resume_at(Reply::Stat(on(EntryKind::Dir, 1)), T0);
    let _ = tm.resume_at(Reply::Performed(0), T0);
    // The `Applied` record cannot be written: the operation counts as failed.
    match tm.resume_at(Reply::Refused("disk full".to_string()), T1) {
        TxStep::Append(e) => assert_eq!(e.status, JournalStatus::Fail),
        other => panic!("{:?}", other),
    }
    assert_eq!(
        tm.resume_at(Reply::Refused("disk full".to_string()), T1),
        TxStep::Failed(Fault::JournalWrite, "disk full".to_string())
    );
    assert_eq!(tm.applied_count(), 0);
    let busy = {
        let mut tm = TransactionManager::new(TransactionMode::Op, CollisionPolicy::Fail, false);
        let _ = tm.execute_at(op_mkdir(1), T0);
        tm.commit_at(1, T0)
    };
    assert_eq!(busy, Err(Fault::Protocol));
    let done = TransactionManager::new(TransactionMode::Op, CollisionPolicy::Fail, false).commit();
    assert_eq!(done.unwrap().op, "txn_committed");
}

#[test]
fn job_for_an_operation_without_paths_fails_as_unresolved() {
    let op = NormalizedOp {
        id: 1,
        op: Operation::Move { src: p("a"), dst: p("b"), cross_device: false },
        resolved_src: None,
        resolved_dst: None,
        parents: vec![],
    };
    let (mut job, step) = Job::start(Work::Apply { op, policy: CollisionPolicy::Fail, allow_overwrite: false });
    assert_eq!(step, JobStep::Failed(Fault::Unresolved, String::new()));
    assert_eq!(job.resume(Reply::Performed(0)), JobStep::Failed(Fault::Protocol, String::new()));
    assert_eq!(job.bytes_copied(), 0);
}

#[test]
fn reporter_keeps_every_event_and_queues_them_in_json_mode() {
    let mut quiet = Reporter::new(false);
    quiet.record(Event::OpStarted { op_id: 1 });
    quiet.record(Event::TxnCommitted { plan_id: 2 });
    assert_eq!(quiet.count(), 2);
    assert_eq!(quiet.summary(), "2 events recorded");
    assert!(quiet.take_output().is_empty());

    let mut json = Reporter::new(true);
    assert_eq!(json.summary(), "0 events recorded");
    json.record(Event::OpStarted { op_id: 1 });
    json.record(Event::OpFailed { op_id: 1, error: "e".to_string() });
    assert_eq!(
        json.take_output(),
        vec![Event::OpStarted { op_id: 1 }, Event::OpFailed { op_id: 1, error: "e".to_string() }]
    );
    assert!(json.take_output().is_empty());
    assert_eq!(json.count(), 2);
    assert_eq!(Event::OpStarted { op_id: 1 }.kind_name(), "op_started");
    assert_eq!(Event::UndoCompleted { journal_id: 1 }.kind_name(), "undo_completed");
    assert_eq!(Event::PlanValidated { plan_id: 1 }.kind_name(), "plan_validated");
}
