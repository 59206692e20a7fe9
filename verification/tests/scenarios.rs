use std::collections::BTreeMap;

use tfs::cli::{ApplyArgs, UndoArgs};
use tfs::clock::Timestamp;
use tfs::engine::{apply, apply_at, undo_at, ApplyRun, EngineStep, UndoRun};
use tfs::events::Event;
use tfs::facts::{EntryKind, FsQuery, Stat, WalkEntry};
use tfs::fault::Fault;
use tfs::fsops::FsAction;
use tfs::job::Reply;
use tfs::journal::{JournalEntry, JournalStatus, UndoMetadata};
use tfs::model::{CollisionPolicy, Operation, Plan, SymlinkPolicy, TransactionMode};
use tfs::path::FsPath;

const ROOT: &str = "/work";

const T0: Timestamp = Timestamp { secs: 1_700_000_000, nanos: 0 };

#[derive(Clone, Debug, PartialEq, Eq)]
enum Node {
    File(Vec<u8>),
    Dir,
    Link(String),
}

/// A file system in memory, to answer the library's queries and to perform
/// its actions.
#[derive(Clone, Debug, PartialEq, Eq)]
struct MemFs {
    nodes: BTreeMap<String, Node>,
    journal: Vec<JournalEntry>,
    actions: Vec<FsAction>,
    refuse_journal: bool,
}

fn join(dir: &str, name: &str) -> String {
    if dir == "/" {
        format!("/{}", name)
    } else {
        format!("{}/{}", dir, name)
    }
}

fn parent_of(path: &str) -> String {
    match path.rfind('/') {
        Some(0) | None => "/".to_string(),
        Some(i) => path[..i].to_string(),
    }
}

impl MemFs {
    fn new() -> MemFs {
        let mut nodes = BTreeMap::new();
        nodes.insert("/".to_string(), Node::Dir);
        nodes.insert(ROOT.to_string(), Node::Dir);
        MemFs { nodes, journal: Vec::new(), actions: Vec::new(), refuse_journal: false }
    }

    fn write(&mut self, path: &str, content: &str) {
        self.nodes.insert(path.to_string(), Node::File(content.as_bytes().to_vec()));
    }

    fn mkdir(&mut self, path: &str) {
        self.nodes.insert(path.to_string(), Node::Dir);
    }

    fn symlink(&mut self, path: &str, target: &str) {
        self.nodes.insert(path.to_string(), Node::Link(target.to_string()));
    }

    /// The canonical form of a path: symlinks followed, `.` and `..` gone.
    fn canonical(&self, path: &str, depth: usize) -> Option<String> {
        if depth > 16 {
            return None;
        }
        let mut cur = "/".to_string();
        for part in path.split('/').filter(|p| !p.is_empty()) {
            if part == "." {
                continue;
            }
            if part == ".." {
                cur = parent_of(&cur);
                continue;
            }
            if self.nodes.get(&cur) != Some(&Node::Dir) {
                return None;
            }
            let next = join(&cur, part);
            match self.nodes.get(&next)? {
                Node::Link(target) => {
                    cur = self.canonical(target, depth + 1)?;
                },
                _ => {
                    cur = next;
                },
            }
        }
        if self.nodes.contains_key(&cur) {
            Some(cur)
        } else {
            None
        }
    }

    /// The place of the entry itself, its last component not followed.
    fn place(&self, path: &str) -> Option<String> {
        let text = FsPath::parse(path).normalize().to_text();
        if text == "/" {
            return Some(text);
        }
        let dir = self.canonical(&parent_of(&text), 0)?;
        let name = text.rsplit('/').next().unwrap().to_string();
        Some(join(&dir, &name))
    }

    fn holds(&self, path: &str) -> bool {
        self.canonical(path, 0).is_some()
    }

    fn is_dir(&self, path: &str) -> bool {
        match self.canonical(path, 0) {
            Some(p) => self.nodes.get(&p) == Some(&Node::Dir),
            None => false,
        }
    }

    fn text_of(&self, path: &str) -> Option<String> {
        match self.nodes.get(&self.canonical(path, 0)?)? {
            Node::File(bytes) => Some(String::from_utf8(bytes.clone()).unwrap()),
            _ => None,
        }
    }

    fn is_link(&self, path: &str) -> bool {
        match self.place(path) {
            Some(p) => matches!(self.nodes.get(&p), Some(Node::Link(_))),
            None => false,
        }
    }

    fn stat(&self, path: &str) -> Stat {
        let kind = match self.canonical(path, 0).and_then(|p| self.nodes.get(&p).cloned()) {
            Some(Node::File(_)) => EntryKind::File,
            Some(Node::Dir) => EntryKind::Dir,
            Some(Node::Link(_)) => EntryKind::Other,
            None => EntryKind::Missing,
        };
        Stat { kind, symlink: self.is_link(path), device: Some(1) }
    }

    fn answer(&self, q: &FsQuery) -> Reply {
        match q {
            FsQuery::Canonical(p) => {
                Reply::Canonical(self.canonical(&p.to_text(), 0).map(|s| FsPath::parse(&s)))
            },
            FsQuery::Stat(p) => Reply::Stat(self.stat(&p.to_text())),
            FsQuery::Walk(p) => {
                let top = p.to_text();
                let below = format!("{}/", top);
                let mut entries = Vec::new();
                for (key, node) in self.nodes.iter() {
                    if *key == top || key.starts_with(&below) {
                        entries.push(
                            WalkEntry { path: FsPath::parse(key), is_dir: *node == Node::Dir },
                        );
                    }
                }
                Reply::Walk(Some(entries))
            },
            FsQuery::Content(p) => {
                let bytes = match self.canonical(&p.to_text(), 0).and_then(|c| self.nodes.get(&c))
                {
                    Some(Node::File(bytes)) => Some(bytes.clone()),
                    _ => None,
                };
                Reply::Content(bytes)
            },
        }
    }

    fn refused(words: &str) -> Reply {
        Reply::Refused(words.to_string())
    }

    fn perform(&mut self, action: &FsAction) -> Reply {
        self.actions.push(action.clone());
        match action {
            FsAction::CreateDir(p) => {
                let Some(at) = self.place(&p.to_text()) else {
                    return Self::refused("no such directory");
                };
                if self.nodes.contains_key(&at) {
                    return Self::refused("exists");
                }
                self.nodes.insert(at, Node::Dir);
                Reply::Performed(0)
            },
            FsAction::CreateDirAll(p) => {
                let mut cur = "/".to_string();
                for part in p.components() {
                    cur = join(&cur, part);
                    match self.nodes.get(&cur) {
                        None => {
                            self.nodes.insert(cur.clone(), Node::Dir);
                        },
                        Some(Node::Dir) => {},
                        Some(_) => return Self::refused("not a directory"),
                    }
                }
                Reply::Performed(0)
            },
            FsAction::Rename { from, to } => {
                let (Some(src), Some(dst)) = (self.place(&from.to_text()), self.place(&to.to_text()))
                else {
                    return Self::refused("no such file or directory");
                };
                if !self.nodes.contains_key(&src) {
                    return Self::refused("no such file or directory");
                }
                let below = format!("{}/", src);
                let moved: Vec<(String, Node)> = self.nodes.iter().filter(
                    |(k, _)| **k == src || k.starts_with(&below),
                ).map(|(k, v)| (k.clone(), v.clone())).collect();
                for (k, v) in moved {
                    self.nodes.remove(&k);
                    self.nodes.insert(format!("{}{}", dst, &k[src.len()..]), v);
                }
                Reply::Performed(0)
            },
            FsAction::CopyFile { from, to } => {
                let bytes = match self.canonical(&from.to_text(), 0).and_then(
                    |c| self.nodes.get(&c),
                ) {
                    Some(Node::File(bytes)) => bytes.clone(),
                    _ => return Self::refused("not a file"),
                };
                let Some(dst) = self.place(&to.to_text()) else {
                    return Self::refused("no such directory");
                };
                let n = bytes.len() as u64;
                self.nodes.insert(dst, Node::File(bytes));
                Reply::Performed(n)
            },
            FsAction::RemoveFile(p) => {
                let Some(at) = self.place(&p.to_text()) else {
                    return Self::refused("no such file");
                };
                match self.nodes.get(&at) {
                    Some(Node::File(_)) | Some(Node::Link(_)) => {
                        self.nodes.remove(&at);
                        Reply::Performed(0)
                    },
                    _ => Self::refused("not a file"),
                }
            },
            FsAction::RemoveDir(p) => {
                let Some(at) = self.place(&p.to_text()) else {
                    return Self::refused("no such directory");
                };
                let below = format!("{}/", at);
                if self.nodes.get(&at) != Some(&Node::Dir) {
                    return Self::refused("not a directory");
                }
                if self.nodes.keys().any(|k| k.starts_with(&below)) {
                    return Self::refused("directory not empty");
                }
                self.nodes.remove(&at);
                Reply::Performed(0)
            },
            FsAction::RemoveDirAll(p) => {
                let Some(at) = self.place(&p.to_text()) else {
                    return Self::refused("no such directory");
                };
                let below = format!("{}/", at);
                let gone: Vec<String> = self.nodes.keys().filter(
                    |k| **k == at || k.starts_with(&below),
                ).cloned().collect();
                if gone.is_empty() {
                    return Self::refused("no such directory");
                }
                for k in gone {
                    self.nodes.remove(&k);
                }
                Reply::Performed(0)
            },
        }
    }

    fn serve(&mut self, step: EngineStep) -> Result<Reply, i32> {
        match step {
            EngineStep::Exit(code) => Err(code),
            EngineStep::Query(q) => Ok(self.answer(&q)),
            EngineStep::Act(a) => Ok(self.perform(&a)),
            EngineStep::Append(e) => {
                if self.refuse_journal {
                    Ok(Self::refused("disk full"))
                } else {
                    self.journal.push(e);
                    Ok(Reply::Performed(0))
                }
            },
        }
    }
}

fn args() -> ApplyArgs {
    ApplyArgs {
        manifest: "plan.json".to_string(),
        validate_only: false,
        dry_run: false,
        json: false,
        journal: None,
        collision_policy: None,
        root: Some(ROOT.to_string()),
        allow_overwrite: false,
    }
}

fn plan(operations: Vec<Operation>) -> Plan {
    Plan {
        root: FsPath::parse(ROOT),
        transaction: TransactionMode::All,
        collision_policy: CollisionPolicy::Fail,
        symlink_policy: SymlinkPolicy::Error,
        allow_overwrite: false,
        operations,
    }
}

fn mkdir(dst: &str) -> Operation {
    Operation::Mkdir { dst: FsPath::parse(dst), parents: false }
}

fn mv(src: &str, dst: &str) -> Operation {
    Operation::Move { src: FsPath::parse(src), dst: FsPath::parse(dst), cross_device: false }
}

fn cp(src: &str, dst: &str, recursive: bool) -> Operation {
    Operation::Copy { src: FsPath::parse(src), dst: FsPath::parse(dst), recursive }
}

fn run_apply(fs: &mut MemFs, args: &ApplyArgs, plan: Plan) -> (i32, ApplyRun) {
    let ids: Vec<u128> = (0..plan.operations.len()).map(|i| 100 + i as u128).collect();
    let (mut run, mut step) = apply_at(args, plan, 7, ids, T0);
    loop {
        match fs.serve(step) {
            Err(code) => return (code, run),
            Ok(reply) => {
                step = run.resume_at(reply, T0);
            },
        }
    }
}

fn run_undo(fs: &mut MemFs, dry_run: bool) -> (i32, UndoRun) {
    let args = UndoArgs { journal: "journal.jsonl".to_string(), json: false, dry_run };
    let entries = fs.journal.clone();
    let (mut run, mut step) = undo_at(&args, &entries, 9, T0);
    loop {
        match fs.serve(step) {
            Err(code) => return (code, run),
            Ok(reply) => {
                step = run.resume_at(reply, T0);
            },
        }
    }
}

#[test]
fn test_apply_mkdir_move() {
    let mut fs = MemFs::new();
    fs.write("/work/a.txt", "content");
    let (code, _) = run_apply(&mut fs, &args(), plan(vec![mkdir("subdir"), mv("a.txt", "subdir/a.txt")]));
    assert_eq!(code, 0);
    assert!(fs.is_dir("/work/subdir"));
    assert!(fs.holds("/work/subdir/a.txt"));
    assert_eq!(fs.text_of("/work/subdir/a.txt"), Some("content".to_string()));
    assert!(!fs.holds("/work/a.txt"));
}

#[test]
fn test_overwrite_with_backup() {
    let mut fs = MemFs::new();
    fs.write("/work/a.txt", "new content");
    fs.write("/work/b.txt", "original content");
    let mut a = args();
    a.journal = Some("journal.jsonl".to_string());
    a.collision_policy = Some(CollisionPolicy::OverwriteWithBackup);
    a.allow_overwrite = true;
    let (code, _) = run_apply(&mut fs, &a, plan(vec![mv("a.txt", "b.txt")]));
    assert_eq!(code, 0);
    assert_eq!(fs.text_of("/work/b.txt"), Some("new content".to_string()));
    assert!(!fs.holds("/work/a.txt"));
    assert!(fs.holds("/work/b.txt.backup"));
    assert_eq!(fs.text_of("/work/b.txt.backup"), Some("original content".to_string()));

    let (code, _) = run_undo(&mut fs, false);
    assert_eq!(code, 0);
    assert_eq!(fs.text_of("/work/b.txt"), Some("original content".to_string()));
    assert_eq!(fs.text_of("/work/a.txt"), Some("new content".to_string()));
    assert!(!fs.holds("/work/b.txt.backup"));
}

#[test]
fn test_symlink_policies_follow_and_skip() {
    let mut fs = MemFs::new();
    fs.write("/work/target.txt", "content");
    fs.symlink("/work/link.txt", "/work/target.txt");

    let mut follow = plan(vec![mv("link.txt", "moved_target.txt")]);
    follow.symlink_policy = SymlinkPolicy::Follow;
    let (code, _) = run_apply(&mut fs, &args(), follow);
    assert_eq!(code, 0);
    assert!(fs.holds("/work/moved_target.txt"));
    assert!(!fs.holds("/work/target.txt"));
    assert!(fs.is_link("/work/link.txt"));

    fs.nodes.remove("/work/moved_target.txt");
    fs.write("/work/target.txt", "content");

    let mut skip = plan(vec![mv("link.txt", "should_not_happen.txt")]);
    skip.symlink_policy = SymlinkPolicy::Skip;
    let (code, run) = run_apply(&mut fs, &args(), skip);
    assert_eq!(code, 2);
    assert_eq!(run.fault(), Some(Fault::SymlinkSkipped));
    assert!(run.fault().unwrap().describe().contains("skipped"));
    assert!(fs.holds("/work/target.txt"));
    assert!(!fs.holds("/work/should_not_happen.txt"));
}

#[test]
fn test_validate_only_mode() {
    let mut fs = MemFs::new();
    fs.write("/work/file.txt", "data");
    let mut a = args();
    a.validate_only = true;
    a.json = true;
    let (code, mut run) = run_apply(&mut fs, &a, plan(vec![mv("file.txt", "moved.txt")]));
    assert_eq!(code, 0);
    assert!(fs.holds("/work/file.txt"));
    assert!(!fs.holds("/work/moved.txt"));
    assert_eq!(run.take_events(), vec![Event::PlanValidated { plan_id: 7 }]);
    assert!(run.take_events().is_empty());
}

#[test]
fn test_transaction_mode_op() {
    let mut fs = MemFs::new();
    fs.write("/work/a.txt", "A");
    fs.write("/work/b.txt", "B");
    fs.write("/work/c.txt", "C");
    let mut p = plan(vec![mv("a.txt", "a_moved.txt"), mv("b.txt", "c.txt")]);
    p.transaction = TransactionMode::Op;
    let mut a = args();
    a.collision_policy = Some(CollisionPolicy::Fail);
    let (code, _) = run_apply(&mut fs, &a, p);
    assert_eq!(code, 0);
    assert!(!fs.holds("/work/a.txt"));
    assert!(fs.holds("/work/a_moved.txt"));
    assert!(fs.holds("/work/b.txt"));
    assert!(fs.holds("/work/c.txt"));
    assert_eq!(fs.text_of("/work/c.txt"), Some("C".to_string()));
}

#[test]
fn test_dry_run_produces_no_fs_or_journal_writes() {
    let mut fs = MemFs::new();
    fs.write("/work/file.txt", "data");
    let before = fs.clone();
    let mut a = args();
    a.dry_run = true;
    a.journal = Some("journal.jsonl".to_string());
    let (code, _) = run_apply(&mut fs, &a, plan(vec![mv("file.txt", "moved.txt")]));
    assert_eq!(code, 0);
    assert!(fs.holds("/work/file.txt"));
    assert!(!fs.holds("/work/moved.txt"));
    assert!(fs.journal.is_empty(), "Journal should be empty on dry-run");
    assert_eq!(fs, before);
}

#[test]
fn test_rollback_on_failure() {
    let mut fs = MemFs::new();
    fs.mkdir("/work/conflict");
    fs.write("/work/src.txt", "content");
    let (code, _) = run_apply(&mut fs, &args(), plan(vec![mkdir("subdir"), mv("src.txt", "conflict")]));
    assert_ne!(code, 0, "Transaction should fail");
    assert_eq!(code, 3);
    assert!(!fs.holds("/work/subdir"), "subdir should have been removed by rollback");
    assert_eq!(fs.text_of("/work/src.txt"), Some("content".to_string()));
}

#[test]
fn test_undo_command() {
    let mut fs = MemFs::new();
    fs.write("/work/source.txt", "data");
    let mut a = args();
    a.journal = Some("journal.jsonl".to_string());
    let (code, _) = run_apply(&mut fs, &a, plan(vec![mkdir("out"), cp("source.txt", "out/copy.txt", false)]));
    assert_eq!(code, 0);
    assert!(fs.holds("/work/out/copy.txt"));

    let (code, _) = run_undo(&mut fs, false);
    assert_eq!(code, 0);
    assert!(!fs.holds("/work/out/copy.txt"));
    assert!(!fs.holds("/work/out"));
    assert!(fs.holds("/work/source.txt"));
}

#[test]
fn test_dry_run() {
    let mut fs = MemFs::new();
    fs.write("/work/file.txt", "data");
    let mut a = args();
    a.dry_run = true;
    let (code, _) = run_apply(&mut fs, &a, plan(vec![mv("file.txt", "moved.txt")]));
    assert_eq!(code, 0);
    assert!(fs.holds("/work/file.txt"));
    assert!(!fs.holds("/work/moved.txt"));
}

#[test]
fn test_collision_overwrite_behavior() {
    let mut fs = MemFs::new();
    fs.write("/work/a.txt", "A");
    fs.write("/work/b.txt", "B");
    let mut a = args();
    a.collision_policy = Some(CollisionPolicy::Fail);
    let (code, run) = run_apply(&mut fs, &a, plan(vec![mv("a.txt", "b.txt")]));
    assert_ne!(code, 0, "Should fail on collision with policy=Fail");
    assert_eq!(code, 3);
    assert_eq!(run.fault(), Some(Fault::DestinationExists));
    assert_eq!(fs.text_of("/work/b.txt"), Some("B".to_string()), "Destination should preserve original content");
    assert_eq!(fs.text_of("/work/a.txt"), Some("A".to_string()));
}

#[test]
fn test_symlink_policy_error() {
    let mut fs = MemFs::new();
    fs.write("/work/target.txt", "content");
    fs.symlink("/work/link.txt", "/work/target.txt");
    let (code, run) = run_apply(&mut fs, &args(), plan(vec![mv("link.txt", "moved_link.txt")]));
    assert_eq!(code, 2);
    assert!(run.fault().unwrap().describe().contains("symlink not allowed"));
    assert!(fs.actions.is_empty());
}

#[test]
fn test_recursive_copy() {
    let mut fs = MemFs::new();
    fs.mkdir("/work/src");
    fs.write("/work/src/file.txt", "data");
    let (code, _) = run_apply(&mut fs, &args(), plan(vec![cp("src", "dst", true)]));
    assert_eq!(code, 0);
    assert!(fs.is_dir("/work/dst"));
    assert!(fs.holds("/work/dst/file.txt"));
    assert_eq!(fs.text_of("/work/dst/file.txt"), Some("data".to_string()));
}

#[test]
fn test_trash_op() {
    let mut fs = MemFs::new();
    fs.write("/work/garbage.txt", "waste");
    let (code, _) = run_apply(&mut fs, &args(), plan(vec![Operation::Trash { src: FsPath::parse("garbage.txt") }]));
    assert_eq!(code, 0);
    assert!(!fs.holds("/work/garbage.txt"));
    assert!(fs.holds("/work/garbage.trash"));
}

#[test]
fn root_escape_is_refused_with_policy_failure() {
    let mut fs = MemFs::new();
    fs.write("/evil", "x");
    let before = fs.clone();
    let (code, run) = run_apply(&mut fs, &args(), plan(vec![mv("../evil", "inside")]));
    assert_eq!(code, 2);
    assert_eq!(run.fault(), Some(Fault::EscapesRoot));
    assert_eq!(fs, before);
}

#[test]
fn symlink_that_leads_outside_is_refused() {
    let mut fs = MemFs::new();
    fs.mkdir("/outside");
    fs.mkdir("/outside/dir");
    fs.symlink("/work/link", "/outside/dir");
    let before = fs.clone();
    let (code, run) = run_apply(&mut fs, &args(), plan(vec![mkdir("link/file")]));
    assert_eq!(code, 2);
    assert_eq!(run.fault(), Some(Fault::EscapesRoot));
    assert_eq!(fs, before);

    fs.write("/outside/dir/file", "secret");
    let (code, run) = run_apply(&mut fs, &args(), plan(vec![Operation::Trash { src: FsPath::parse("link/file") }]));
    assert_eq!(code, 2);
    assert_eq!(run.fault(), Some(Fault::EscapesRoot));
    assert_eq!(fs.text_of("/outside/dir/file"), Some("secret".to_string()));
}

#[test]
fn relative_root_is_refused_before_anything_is_asked() {
    let mut fs = MemFs::new();
    let mut a = args();
    a.root = Some("relative/root".to_string());
    let (code, run) = run_apply(&mut fs, &a, plan(vec![mkdir("x")]));
    assert_eq!(code, 2);
    assert_eq!(run.fault(), Some(Fault::RelativeRoot));
    assert!(fs.actions.is_empty());
}

#[test]
fn missing_source_fails_preflight() {
    let mut fs = MemFs::new();
    let (code, run) = run_apply(&mut fs, &args(), plan(vec![mkdir("made"), mv("nothing.txt", "made/x")]));
    assert_eq!(code, 2);
    assert_eq!(run.fault(), Some(Fault::SourceMissing));
    assert!(!fs.holds("/work/made"));
}

#[test]
fn journal_holds_start_then_terminal_record_for_each_operation() {
    let mut fs = MemFs::new();
    fs.write("/work/a.txt", "A");
    let (code, _) = run_apply(&mut fs, &args(), plan(vec![mkdir("d"), mv("a.txt", "d/a.txt")]));
    assert_eq!(code, 0);
    let shape: Vec<(u128, JournalStatus)> = fs.journal.iter().map(|e| (e.id, e.status)).collect();
    assert_eq!(
        shape,
        vec![
            (100, JournalStatus::Start),
            (100, JournalStatus::Applied),
            (101, JournalStatus::Start),
            (101, JournalStatus::Applied),
            (7, JournalStatus::Applied),
        ]
    );
    assert_eq!(fs.journal[0].op, "mkdir");
    assert_eq!(fs.journal[1].undo, Some(UndoMetadata::Mkdir { created_dir: FsPath::parse("/work/d") }));
    assert_eq!(fs.journal[3].op, "move");
    assert_eq!(fs.journal[3].src, Some(FsPath::parse("/work/a.txt")));
    assert_eq!(fs.journal[3].dst, Some(FsPath::parse("/work/d/a.txt")));
    assert_eq!(fs.journal[3].undo, Some(UndoMetadata::Move { original_src: FsPath::parse("/work/a.txt") }));
    assert_eq!(fs.journal[3].collision, None);
    assert_eq!(fs.journal[4].op, "txn_committed");
    assert_eq!(fs.journal[4].undo, None);
    assert!(tfs::journal::is_committed(&fs.journal));
}

#[test]
fn rollback_records_every_reversal_last_applied_first() {
    let mut fs = MemFs::new();
    fs.write("/work/a.txt", "A");
    fs.write("/work/taken", "T");
    let (code, mut run) = run_apply(
        &mut fs,
        &ApplyArgs { json: true, ..args() },
        plan(vec![mkdir("one"), mv("a.txt", "one/a.txt"), mkdir("taken")]),
    );
    assert_eq!(code, 3);
    let shape: Vec<(u128, JournalStatus)> = fs.journal.iter().map(|e| (e.id, e.status)).collect();
    assert_eq!(
        shape,
        vec![
            (100, JournalStatus::Start),
            (100, JournalStatus::Applied),
            (101, JournalStatus::Start),
            (101, JournalStatus::Applied),
            (102, JournalStatus::Start),
            (102, JournalStatus::Fail),
            (101, JournalStatus::Undone),
            (100, JournalStatus::Undone),
        ]
    );
    assert!(fs.journal[6].undo.is_none());
    assert_eq!(fs.text_of("/work/a.txt"), Some("A".to_string()));
    assert!(!fs.holds("/work/one"));
    assert!(!tfs::journal::is_committed(&fs.journal));
    let events = run.take_events();
    assert_eq!(events.len(), 7);
    assert_eq!(events[0], Event::OpStarted { op_id: 100 });
    assert_eq!(
        events[1],
        Event::OpCompleted { op_id: 100, bytes_copied: 0, final_dst: FsPath::parse("/work/one") }
    );
    assert_eq!(
        events[5],
        Event::OpFailed {
            op_id: 102,
            error: "destination already exists and policy is 'fail'".to_string(),
        }
    );
    assert_eq!(events[6], Event::TxnAborted { plan_id: 7 });
}

#[test]
fn rollback_goes_on_after_an_inverse_that_fails() {
    let mut fs = MemFs::new();
    fs.write("/work/taken", "T");
    let ids = vec![100u128, 101, 102];
    let (mut run, mut step) = apply_at(&args(), plan(vec![mkdir("one"), mkdir("two"), mkdir("taken")]), 7, ids, T0);
    let mut spoiled = false;
    let code = loop {
        // Once the third operation has failed, fill the second directory,
        // so that removing it fails.
        if !spoiled && fs.journal.iter().any(|e| e.id == 102 && e.status == JournalStatus::Fail) {
            fs.write("/work/two/stray", "s");
            spoiled = true;
        }
        match fs.serve(step) {
            Err(code) => break code,
            Ok(reply) => {
                step = run.resume_at(reply, T0);
            },
        }
    };
    assert_eq!(code, 3);
    let tail: Vec<(u128, JournalStatus)> = fs.journal.iter().skip(6).map(|e| (e.id, e.status)).collect();
    assert_eq!(tail, vec![(101, JournalStatus::Fail), (100, JournalStatus::Undone)]);
    assert!(fs.holds("/work/two/stray"));
    assert!(!fs.holds("/work/one"));
}

#[test]
fn undo_skips_what_was_undone_and_what_failed() {
    let mut fs = MemFs::new();
    fs.write("/work/a.txt", "A");
    let (code, _) = run_apply(&mut fs, &args(), plan(vec![mv("a.txt", "b.txt")]));
    assert_eq!(code, 0);
    let (code, _) = run_undo(&mut fs, false);
    assert_eq!(code, 0);
    assert_eq!(fs.text_of("/work/a.txt"), Some("A".to_string()));
    let undone = fs.journal.iter().filter(|e| e.status == JournalStatus::Undone).count();
    assert_eq!(undone, 1);

    // A second undo finds nothing left to do.
    let before = fs.clone();
    let (code, _) = run_undo(&mut fs, false);
    assert_eq!(code, 0);
    assert_eq!(fs, before);
}

#[test]
fn undo_dry_run_changes_nothing() {
    let mut fs = MemFs::new();
    fs.write("/work/a.txt", "A");
    let (code, _) = run_apply(&mut fs, &args(), plan(vec![mv("a.txt", "b.txt")]));
    assert_eq!(code, 0);
    let before = fs.clone();
    let (code, run) = run_undo(&mut fs, true);
    assert_eq!(code, 0);
    assert_eq!(fs, before);
    assert!(run.committed());
}

#[test]
fn undo_halts_at_the_first_inverse_that_fails() {
    let mut fs = MemFs::new();
    let (code, _) = run_apply(&mut fs, &args(), plan(vec![mkdir("one"), mkdir("two")]));
    assert_eq!(code, 0);
    fs.write("/work/two/stray", "s");
    let records = fs.journal.len();
    let (code, run) = run_undo(&mut fs, false);
    assert_eq!(code, 1);
    assert_eq!(run.fault(), Some(Fault::Io));
    assert_eq!(fs.journal.len(), records);
    assert!(fs.holds("/work/one"));
}

#[test]
fn suffix_policy_takes_the_first_free_number() {
    let mut fs = MemFs::new();
    fs.write("/work/a.txt", "A");
    fs.write("/work/file.txt", "1");
    fs.write("/work/file.txt.2", "2");
    let mut a = args();
    a.collision_policy = Some(CollisionPolicy::Suffix);
    let (code, _) = run_apply(&mut fs, &a, plan(vec![mv("a.txt", "file.txt")]));
    assert_eq!(code, 0);
    assert_eq!(fs.text_of("/work/file.txt.3"), Some("A".to_string()));
    assert_eq!(fs.text_of("/work/file.txt"), Some("1".to_string()));
    assert_eq!(fs.text_of("/work/file.txt.2"), Some("2".to_string()));
    let applied = fs.journal.iter().find(|e| e.status == JournalStatus::Applied).unwrap();
    let details = applied.collision.clone().unwrap();
    assert_eq!(details.policy, CollisionPolicy::Suffix);
    assert_eq!(details.final_dst, FsPath::parse("/work/file.txt.3"));
    assert_eq!(details.backup_path, None);
}

#[test]
fn hash8_policy_names_the_destination_after_the_source_bytes() {
    let mut fs = MemFs::new();
    fs.write("/work/a.txt", "a");
    fs.write("/work/b.txt", "B");
    let mut a = args();
    a.collision_policy = Some(CollisionPolicy::Hash8);
    let (code, _) = run_apply(&mut fs, &a, plan(vec![cp("a.txt", "b.txt", false)]));
    assert_eq!(code, 0);
    // FNV-1a (32 bit) of the one byte "a" is e40c292c.
    assert_eq!(fs.text_of("/work/b.txt.e40c292c"), Some("a".to_string()));
    assert_eq!(fs.text_of("/work/b.txt"), Some("B".to_string()));
}

#[test]
fn overwrite_without_permission_is_a_failure() {
    let mut fs = MemFs::new();
    fs.write("/work/a.txt", "A");
    fs.write("/work/b.txt", "B");
    let mut a = args();
    a.collision_policy = Some(CollisionPolicy::OverwriteWithBackup);
    let (code, _) = run_apply(&mut fs, &a, plan(vec![mv("a.txt", "b.txt")]));
    assert_eq!(code, 3);
    assert_eq!(fs.text_of("/work/b.txt"), Some("B".to_string()));
    assert!(!fs.holds("/work/b.txt.backup"));
    let failed = fs.journal.iter().find(|e| e.status == JournalStatus::Fail).unwrap();
    assert_eq!(failed.id, 100);
}

#[test]
fn operation_whose_start_record_cannot_be_written_is_not_begun() {
    let mut fs = MemFs::new();
    fs.write("/work/a.txt", "A");
    fs.refuse_journal = true;
    let (code, _) = run_apply(&mut fs, &args(), plan(vec![mv("a.txt", "b.txt")]));
    assert_eq!(code, 3);
    assert!(fs.actions.is_empty());
    assert!(fs.journal.is_empty());
    assert_eq!(fs.text_of("/work/a.txt"), Some("A".to_string()));
}

#[test]
fn dry_run_shows_each_operation_as_planned() {
    let mut fs = MemFs::new();
    fs.write("/work/a.txt", "A");
    let a = ApplyArgs { dry_run: true, json: true, ..args() };
    let (code, mut run) = run_apply(&mut fs, &a, plan(vec![mkdir("d"), mv("a.txt", "d/a.txt")]));
    assert_eq!(code, 0);
    assert_eq!(
        run.take_events(),
        vec![
            Event::OpPlanned {
                op_id: 100,
                op_type: "mkdir".to_string(),
                src: None,
                dst: Some(FsPath::parse("/work/d")),
            },
            Event::OpPlanned {
                op_id: 101,
                op_type: "move".to_string(),
                src: Some(FsPath::parse("/work/a.txt")),
                dst: Some(FsPath::parse("/work/d/a.txt")),
            },
            Event::TxnCommitted { plan_id: 7 },
        ]
    );
    assert_eq!(run.summary(), "3 events recorded");
    assert!(fs.actions.is_empty());
}

#[test]
fn move_across_volumes_copies_and_removes() {
    let mut fs = MemFs::new();
    fs.mkdir("/work/tree");
    fs.write("/work/tree/f", "12345");
    let p = plan(vec![Operation::Move {
        src: FsPath::parse("tree"),
        dst: FsPath::parse("moved"),
        cross_device: true,
    }]);
    let (code, mut run) = run_apply(&mut fs, &ApplyArgs { json: true, ..args() }, p);
    assert_eq!(code, 0);
    assert_eq!(fs.text_of("/work/moved/f"), Some("12345".to_string()));
    assert!(!fs.holds("/work/tree"));
    assert_eq!(
        fs.actions,
        vec![
            FsAction::CreateDirAll(FsPath::parse("/work/moved")),
            FsAction::CreateDirAll(FsPath::parse("/work/moved")),
            FsAction::CopyFile {
                from: FsPath::parse("/work/tree/f"),
                to: FsPath::parse("/work/moved/f"),
            },
            FsAction::RemoveDirAll(FsPath::parse("/work/tree")),
        ]
    );
    let events = run.take_events();
    assert_eq!(
        events[1],
        Event::OpCompleted { op_id: 100, bytes_copied: 5, final_dst: FsPath::parse("/work/moved") }
    );
}

#[test]
fn apply_with_fresh_identifiers_gives_each_operation_its_own() {
    let mut fs = MemFs::new();
    let (mut run, mut step) = apply(&args(), plan(vec![mkdir("one"), mkdir("two")]));
    let code = loop {
        match fs.serve(step) {
            Err(code) => break code,
            Ok(reply) => {
                step = run.resume(reply);
            },
        }
    };
    assert_eq!(code, 0);
    let ops = run.normalized();
    assert_eq!(ops.len(), 2);
    assert_ne!(ops[0].id, ops[1].id);
    assert_eq!(fs.journal.len(), 5);
    assert_eq!(fs.journal[0].id, ops[0].id);
    assert_eq!(fs.journal[2].id, ops[1].id);
    assert!(fs.journal[0].ts.secs > 1_600_000_000);
}

#[test]
fn undo_gives_back_the_tree_that_was() {
    let mut fs = MemFs::new();
    fs.write("/work/a.txt", "A");
    fs.write("/work/b.txt", "B");
    fs.write("/work/c.txt", "C");
    fs.mkdir("/work/dir");
    fs.write("/work/dir/inner", "I");
    let before = fs.nodes.clone();
    let mut a = args();
    a.collision_policy = Some(CollisionPolicy::OverwriteWithBackup);
    a.allow_overwrite = true;
    let ops = vec![
        mkdir("made"),
        mv("a.txt", "made/a.txt"),
        cp("b.txt", "c.txt", false),
        Operation::Rename { src: FsPath::parse("dir"), dst: FsPath::parse("made/dir") },
        Operation::Trash { src: FsPath::parse("b.txt") },
        mv("c.txt", "made/a.txt"),
    ];
    let (code, _) = run_apply(&mut fs, &a, plan(ops));
    assert_eq!(code, 0);
    assert_ne!(fs.nodes, before);
    assert_eq!(fs.text_of("/work/made/a.txt"), Some("B".to_string()));
    assert_eq!(fs.text_of("/work/made/a.txt.backup"), Some("A".to_string()));
    assert_eq!(fs.text_of("/work/c.txt.backup"), Some("C".to_string()));
    assert_eq!(fs.text_of("/work/b.trash"), Some("B".to_string()));
    assert_eq!(fs.text_of("/work/made/dir/inner"), Some("I".to_string()));

    let (code, _) = run_undo(&mut fs, false);
    assert_eq!(code, 0);
    assert_eq!(fs.nodes, before);
}

#[test]
fn rollback_gives_back_the_tree_that_was() {
    let mut fs = MemFs::new();
    fs.write("/work/a.txt", "A");
    fs.write("/work/b.txt", "B");
    fs.mkdir("/work/dir");
    let before = fs.nodes.clone();
    let mut a = args();
    a.collision_policy = Some(CollisionPolicy::OverwriteWithBackup);
    a.allow_overwrite = true;
    let ops = vec![
        mkdir("made"),
        mv("a.txt", "b.txt"),
        cp("b.txt", "made/copy", false),
        Operation::Trash { src: FsPath::parse("dir") },
        cp("dir", "nowhere", false),
    ];
    // The last operation passes preflight, since its source exists then,
    // and fails when its turn comes, since the source is in quarantine.
    let (code, run) = run_apply(&mut fs, &a, plan(ops));
    assert_eq!(code, 3);
    assert_eq!(run.fault(), Some(Fault::SourceMissing));
    assert!(!fs.actions.is_empty());
    assert_eq!(fs.nodes, before);

    let ops = vec![
        mkdir("made"),
        mv("a.txt", "b.txt"),
        cp("b.txt", "made/copy", false),
        cp("dir", "nowhere", false),
    ];
    let (code, run) = run_apply(&mut fs, &a, plan(ops));
    assert_eq!(code, 3);
    assert_eq!(run.fault(), Some(Fault::DirectoryNotRecursive));
    assert!(!fs.actions.is_empty());
    assert_eq!(fs.nodes, before);
}

#[test]
fn failure_after_the_backup_puts_the_backup_back() {
    let mut fs = MemFs::new();
    fs.mkdir("/work/dir");
    fs.write("/work/dir/inner", "I");
    fs.write("/work/x.txt", "X");
    let before = fs.nodes.clone();
    let mut a = args();
    a.collision_policy = Some(CollisionPolicy::OverwriteWithBackup);
    a.allow_overwrite = true;
    // The copy moves the existing destination aside and then fails, since
    // its source is a directory.
    let (code, run) = run_apply(&mut fs, &a, plan(vec![mkdir("made"), cp("dir", "x.txt", false)]));
    assert_eq!(code, 3);
    assert_eq!(run.fault(), Some(Fault::DirectoryNotRecursive));
    let shape: Vec<(u128, JournalStatus)> = fs.journal.iter().map(|e| (e.id, e.status)).collect();
    assert_eq!(
        shape,
        vec![
            (100, JournalStatus::Start),
            (100, JournalStatus::Applied),
            (101, JournalStatus::Start),
            (101, JournalStatus::Fail),
            (101, JournalStatus::Undone),
            (100, JournalStatus::Undone),
        ]
    );
    assert_eq!(
        fs.journal[3].undo,
        Some(UndoMetadata::Overwrite { backup_path: FsPath::parse("/work/x.txt.backup") })
    );
    assert!(fs.actions.contains(&FsAction::Rename {
        from: FsPath::parse("/work/x.txt"),
        to: FsPath::parse("/work/x.txt.backup"),
    }));
    assert!(fs.actions.contains(&FsAction::Rename {
        from: FsPath::parse("/work/x.txt.backup"),
        to: FsPath::parse("/work/x.txt"),
    }));
    assert_eq!(fs.nodes, before);
}

#[test]
fn failure_before_the_backup_keeps_no_inverse() {
    let mut fs = MemFs::new();
    fs.write("/work/taken", "T");
    let (code, _) = run_apply(&mut fs, &args(), plan(vec![mkdir("taken")]));
    assert_eq!(code, 3);
    let shape: Vec<(u128, JournalStatus)> = fs.journal.iter().map(|e| (e.id, e.status)).collect();
    assert_eq!(shape, vec![(100, JournalStatus::Start), (100, JournalStatus::Fail)]);
    assert!(fs.journal[1].undo.is_none());
}

#[test]
fn failure_after_the_backup_leaves_it_aside_in_op_mode() {
    let mut fs = MemFs::new();
    fs.mkdir("/work/dir");
    fs.write("/work/x.txt", "X");
    let mut a = args();
    a.collision_policy = Some(CollisionPolicy::OverwriteWithBackup);
    a.allow_overwrite = true;
    let mut p = plan(vec![cp("dir", "x.txt", false)]);
    p.transaction = TransactionMode::Op;
    let (code, _) = run_apply(&mut fs, &a, p);
    assert_eq!(code, 0);
    let shape: Vec<(u128, JournalStatus)> = fs.journal.iter().take(2).map(
        |e| (e.id, e.status),
    ).collect();
    assert_eq!(shape, vec![(100, JournalStatus::Start), (100, JournalStatus::Fail)]);
    assert!(fs.journal.iter().all(|e| e.status != JournalStatus::Undone));
    assert_eq!(
        fs.journal[1].undo,
        Some(UndoMetadata::Overwrite { backup_path: FsPath::parse("/work/x.txt.backup") })
    );
    assert!(!fs.holds("/work/x.txt"));
    assert_eq!(fs.text_of("/work/x.txt.backup"), Some("X".to_string()));
}

#[test]
fn undo_of_a_tree_copy_removes_the_copy() {
    let mut fs = MemFs::new();
    fs.mkdir("/work/tree");
    fs.write("/work/tree/f", "F");
    fs.mkdir("/work/tree/sub");
    fs.write("/work/tree/sub/g", "G");
    let before = fs.nodes.clone();
    let (code, _) = run_apply(&mut fs, &args(), plan(vec![cp("tree", "copy", true)]));
    assert_eq!(code, 0);
    assert_eq!(fs.text_of("/work/copy/f"), Some("F".to_string()));
    assert_eq!(fs.text_of("/work/copy/sub/g"), Some("G".to_string()));
    assert_eq!(fs.text_of("/work/tree/sub/g"), Some("G".to_string()));

    let (code, _) = run_undo(&mut fs, false);
    assert_eq!(code, 0);
    assert_eq!(fs.nodes, before);
}

#[test]
fn undo_of_a_tree_copy_over_a_backup_gives_back_the_tree() {
    let mut fs = MemFs::new();
    fs.mkdir("/work/tree");
    fs.write("/work/tree/f", "F");
    fs.mkdir("/work/old");
    fs.write("/work/old/kept", "K");
    let before = fs.nodes.clone();
    let mut a = args();
    a.collision_policy = Some(CollisionPolicy::OverwriteWithBackup);
    a.allow_overwrite = true;
    let (code, _) = run_apply(&mut fs, &a, plan(vec![cp("tree", "old", true)]));
    assert_eq!(code, 0);
    assert_eq!(fs.text_of("/work/old/f"), Some("F".to_string()));
    assert_eq!(fs.text_of("/work/old.backup/kept"), Some("K".to_string()));

    let (code, _) = run_undo(&mut fs, false);
    assert_eq!(code, 0);
    assert_eq!(fs.nodes, before);
}

#[test]
fn undo_of_a_move_by_copy_gives_back_the_tree() {
    let mut fs = MemFs::new();
    fs.mkdir("/work/tree");
    fs.write("/work/tree/f", "12345");
    fs.mkdir("/work/tree/sub");
    fs.write("/work/tree/sub/g", "G");
    fs.write("/work/single", "S");
    let before = fs.nodes.clone();
    let ops = vec![
        Operation::Move {
            src: FsPath::parse("tree"),
            dst: FsPath::parse("moved"),
            cross_device: true,
        },
        Operation::Move {
            src: FsPath::parse("single"),
            dst: FsPath::parse("moved/single"),
            cross_device: true,
        },
    ];
    let (code, _) = run_apply(&mut fs, &args(), plan(ops));
    assert_eq!(code, 0);
    assert!(!fs.holds("/work/tree"));
    assert!(!fs.holds("/work/single"));
    assert_eq!(fs.text_of("/work/moved/sub/g"), Some("G".to_string()));
    assert_eq!(fs.text_of("/work/moved/single"), Some("S".to_string()));
    assert!(fs.actions.contains(&FsAction::RemoveDirAll(FsPath::parse("/work/tree"))));
    assert!(fs.actions.contains(&FsAction::RemoveFile(FsPath::parse("/work/single"))));

    let (code, _) = run_undo(&mut fs, false);
    assert_eq!(code, 0);
    assert_eq!(fs.nodes, before);
}

#[test]
fn rollback_of_a_move_by_copy_gives_back_the_tree() {
    let mut fs = MemFs::new();
    fs.mkdir("/work/tree");
    fs.write("/work/tree/f", "12345");
    fs.write("/work/taken", "T");
    let before = fs.nodes.clone();
    let ops = vec![
        Operation::Move {
            src: FsPath::parse("tree"),
            dst: FsPath::parse("moved"),
            cross_device: true,
        },
        cp("tree", "again", true),
        mkdir("taken"),
    ];
    // The copy passes preflight, since its source exists then, and fails
    // when its turn comes, since the source has been moved.
    let (code, _) = run_apply(&mut fs, &args(), plan(ops));
    assert_eq!(code, 3);
    assert!(fs.actions.contains(&FsAction::RemoveDirAll(FsPath::parse("/work/tree"))));
    assert_eq!(fs.nodes, before);

    let ops = vec![
        cp("tree", "again", true),
        Operation::Move {
            src: FsPath::parse("tree"),
            dst: FsPath::parse("moved"),
            cross_device: true,
        },
        mkdir("taken"),
    ];
    let (code, _) = run_apply(&mut fs, &args(), plan(ops));
    assert_eq!(code, 3);
    assert!(fs.actions.contains(&FsAction::RemoveDirAll(FsPath::parse("/work/again"))));
    assert_eq!(fs.nodes, before);
}

#[test]
fn undo_of_a_copy_under_hash8_removes_the_named_copy() {
    let mut fs = MemFs::new();
    fs.write("/work/a.txt", "a");
    fs.write("/work/b.txt", "B");
    let before = fs.nodes.clone();
    let mut a = args();
    a.collision_policy = Some(CollisionPolicy::Hash8);
    let (code, _) = run_apply(&mut fs, &a, plan(vec![cp("a.txt", "b.txt", false)]));
    assert_eq!(code, 0);
    assert!(fs.holds("/work/b.txt.e40c292c"));

    let (code, _) = run_undo(&mut fs, false);
    assert_eq!(code, 0);
    assert_eq!(fs.nodes, before);
}
