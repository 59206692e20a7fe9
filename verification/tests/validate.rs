use tfs::facts::{EntryKind, FsFacts, FsQuery, Outcome, Stat};
use tfs::fault::Fault;
use tfs::model::{CollisionPolicy, Operation, Plan, SymlinkPolicy, TransactionMode};
use tfs::path::FsPath;
use tfs::resolve::{resolve_path, validate_root_confinement};
use tfs::validate::{
    compute_parent_dirs, normalize_op, normalize_plan, preflight_check, resolve_operation_paths,
};

fn p(text: &str) -> FsPath {
    FsPath::parse(text)
}

fn dir() -> Stat {
    Stat { kind: EntryKind::Dir, symlink: false, device: Some(1) }
}

fn file() -> Stat {
    Stat { kind: EntryKind::File, symlink: false, device: Some(1) }
}

fn missing() -> Stat {
    Stat { kind: EntryKind::Missing, symlink: false, device: None }
}

fn plan(operations: Vec<Operation>) -> Plan {
    Plan {
        root: p("/root"),
        transaction: TransactionMode::All,
        collision_policy: CollisionPolicy::Fail,
        symlink_policy: SymlinkPolicy::Error,
        allow_overwrite: false,
        operations,
    }
}

/// Facts of a file system in which `/root` exists and is its own canonical
/// form, and nothing lies below it.
fn bare_root() -> FsFacts {
    let mut facts = FsFacts::new();
    facts.record_canonical(p("/root"), Some(p("/root")));
    facts.record_stat(p("/root"), dir());
    facts
}

#[test]
fn normalize_is_deterministic_across_runs() {
    let op = Operation::Mkdir { dst: p("a/b"), parents: true };
    let mut facts = bare_root();
    facts.record_canonical(p("/root/a/b"), None);
    facts.record_canonical(p("/root/a"), None);
    facts.record_stat(p("/root/a"), missing());
    let plan = plan(vec![op.clone()]);

    let a_ops = match normalize_plan(&plan, &facts) {
        Outcome::Done(ops) => ops,
        other => panic!("{:?}", other),
    };
    let b_ops = match normalize_plan(&plan, &facts) {
        Outcome::Done(ops) => ops,
        other => panic!("{:?}", other),
    };

    assert_eq!(a_ops.len(), b_ops.len());
    assert_eq!(a_ops.len(), 1);

    let a = &a_ops[0];
    let b = &b_ops[0];

    assert_eq!(format!("{:?}", a.op), format!("{:?}", b.op));
    assert_eq!(a.resolved_src, b.resolved_src);
    assert_eq!(a.resolved_dst, b.resolved_dst);
    assert_eq!(a.parents, b.parents);
    assert_eq!(a.resolved_dst, Some(p("/root/a/b")));
    assert_eq!(a.parents, vec![p("/root/a")]);
    assert_ne!(a.id, b.id);
}

#[test]
fn test_compute_parent_dirs() {
    let op = Operation::Mkdir { dst: p("a/b/c"), parents: true };
    let target = p("/root/a/b/c");

    let mut facts = bare_root();
    facts.record_stat(p("/root/a/b"), missing());
    facts.record_stat(p("/root/a"), missing());
    let parents = match compute_parent_dirs(&Some(target.clone()), &op, &facts) {
        Outcome::Done(parents) => parents,
        other => panic!("{:?}", other),
    };
    assert_eq!(parents.len(), 2);
    assert_eq!(parents[0], p("/root/a"));
    assert_eq!(parents[1], p("/root/a/b"));

    facts.record_stat(p("/root/a"), dir());
    let parents_2 = match compute_parent_dirs(&Some(target), &op, &facts) {
        Outcome::Done(parents) => parents,
        other => panic!("{:?}", other),
    };
    assert_eq!(parents_2.len(), 1);
    assert_eq!(parents_2[0], p("/root/a/b"));
}

#[test]
fn parent_dirs_are_asked_for_from_the_parent_upwards() {
    let op = Operation::Mkdir { dst: p("a/b"), parents: true };
    let target = Some(p("/root/a/b"));
    let mut facts = FsFacts::new();
    assert_eq!(
        compute_parent_dirs(&target, &op, &facts),
        Outcome::Ask(FsQuery::Stat(p("/root/a")))
    );
    facts.record_stat(p("/root/a"), missing());
    assert_eq!(compute_parent_dirs(&target, &op, &facts), Outcome::Ask(FsQuery::Stat(p("/root"))));

    // Without `parents`, and for every other operation, there are none.
    let plain = Operation::Mkdir { dst: p("a/b"), parents: false };
    assert_eq!(compute_parent_dirs(&target, &plain, &FsFacts::new()), Outcome::Done(vec![]));
    let copy = Operation::Copy { src: p("x"), dst: p("a/b"), recursive: false };
    assert_eq!(compute_parent_dirs(&target, &copy, &FsFacts::new()), Outcome::Done(vec![]));
    assert_eq!(compute_parent_dirs(&None, &op, &FsFacts::new()), Outcome::Done(vec![]));
}

#[test]
fn resolve_takes_the_canonical_form_of_what_exists() {
    let mut facts = FsFacts::new();
    assert_eq!(
        resolve_path(&p("/root"), &p("x"), &facts),
        Outcome::Ask(FsQuery::Canonical(p("/root")))
    );
    facts.record_canonical(p("/root"), Some(p("/real/root")));
    assert_eq!(
        resolve_path(&p("/root"), &p("x"), &facts),
        Outcome::Ask(FsQuery::Canonical(p("/real/root/x")))
    );
    facts.record_canonical(p("/real/root/x"), Some(p("/real/root/y")));
    assert_eq!(resolve_path(&p("/root"), &p("x"), &facts), Outcome::Done(p("/real/root/y")));
}

#[test]
fn resolve_anchors_what_does_not_exist_at_its_longest_existing_ancestor() {
    let mut facts = FsFacts::new();
    facts.record_canonical(p("/root"), Some(p("/root")));
    facts.record_canonical(p("/root/a/b/../c"), None);
    facts.record_canonical(p("/root/a/b/.."), None);
    facts.record_canonical(p("/root/a/b"), None);
    assert_eq!(
        resolve_path(&p("/root"), &p("a/b/../c"), &facts),
        Outcome::Ask(FsQuery::Canonical(p("/root/a")))
    );
    facts.record_canonical(p("/root/a"), Some(p("/root/elsewhere")));
    assert_eq!(
        resolve_path(&p("/root"), &p("a/b/../c"), &facts),
        Outcome::Done(p("/root/elsewhere/c"))
    );
}

#[test]
fn resolve_refuses_what_leaves_the_root() {
    let mut facts = FsFacts::new();
    facts.record_canonical(p("/root"), Some(p("/root")));
    facts.record_canonical(p("/root/../evil"), None);
    facts.record_canonical(p("/root/.."), Some(p("/")));
    assert_eq!(resolve_path(&p("/root"), &p("../evil"), &facts), Outcome::Fail(Fault::EscapesRoot));

    // An absolute path is legal only inside the root.
    facts.record_canonical(p("/etc/passwd"), Some(p("/etc/passwd")));
    assert_eq!(
        resolve_path(&p("/root"), &p("/etc/passwd"), &facts),
        Outcome::Fail(Fault::EscapesRoot)
    );
    facts.record_canonical(p("/root/in"), Some(p("/root/in")));
    assert_eq!(resolve_path(&p("/root"), &p("/root/in"), &facts), Outcome::Done(p("/root/in")));

    // A symlink that leads outside.
    facts.record_canonical(p("/root/link/file"), None);
    facts.record_canonical(p("/root/link"), Some(p("/outside/dir")));
    assert_eq!(
        resolve_path(&p("/root"), &p("link/file"), &facts),
        Outcome::Fail(Fault::EscapesRoot)
    );
}

#[test]
fn resolve_fails_without_a_root_or_an_ancestor() {
    let mut facts = FsFacts::new();
    assert_eq!(resolve_path(&p("root"), &p("x"), &facts), Outcome::Fail(Fault::RelativeRoot));
    facts.record_canonical(p("/root"), None);
    assert_eq!(resolve_path(&p("/root"), &p("x"), &facts), Outcome::Fail(Fault::RootMissing));

    let mut facts = FsFacts::new();
    facts.record_canonical(p("/root"), Some(p("/root")));
    facts.record_canonical(p("/root/x"), None);
    facts.record_canonical(p("/root"), None);
    facts.record_canonical(p("/"), None);
    // The later answer for the root replaces the earlier one.
    assert_eq!(resolve_path(&p("/root"), &p("x"), &facts), Outcome::Fail(Fault::RootMissing));

    let mut facts = FsFacts::new();
    facts.record_canonical(p("/r"), Some(p("/gone")));
    facts.record_canonical(p("/gone/x"), None);
    facts.record_canonical(p("/gone"), None);
    facts.record_canonical(p("/"), None);
    assert_eq!(resolve_path(&p("/r"), &p("x"), &facts), Outcome::Fail(Fault::PrefixMissing));
}

#[test]
fn confinement_checks_every_path_in_order() {
    let mut facts = bare_root();
    facts.record_canonical(p("/root/a"), Some(p("/root/a")));
    facts.record_canonical(p("/root/b"), None);
    let ok = plan(vec![Operation::Move { src: p("a"), dst: p("b"), cross_device: false }]);
    assert_eq!(validate_root_confinement(&ok, &facts), Outcome::Done(()));

    facts.record_canonical(p("/root/../x"), None);
    facts.record_canonical(p("/root/.."), Some(p("/")));
    let bad = plan(vec![
        Operation::Mkdir { dst: p("b"), parents: false },
        Operation::Rename { src: p("a"), dst: p("../x") },
    ]);
    assert_eq!(validate_root_confinement(&bad, &facts), Outcome::Fail(Fault::EscapesRoot));
    assert_eq!(validate_root_confinement(&plan(vec![]), &FsFacts::new()), Outcome::Done(()));
}

#[test]
fn operation_paths_resolve_source_then_destination() {
    let mut facts = bare_root();
    let op = Operation::Copy { src: p("a"), dst: p("b"), recursive: false };
    assert_eq!(
        resolve_operation_paths(&p("/root"), &op, &facts),
        Outcome::Ask(FsQuery::Canonical(p("/root/a")))
    );
    facts.record_canonical(p("/root/a"), Some(p("/root/a")));
    facts.record_canonical(p("/root/b"), None);
    assert_eq!(
        resolve_operation_paths(&p("/root"), &op, &facts),
        Outcome::Done((Some(p("/root/a")), Some(p("/root/b"))))
    );
    let trash = Operation::Trash { src: p("a") };
    assert_eq!(
        resolve_operation_paths(&p("/root"), &trash, &facts),
        Outcome::Done((Some(p("/root/a")), None))
    );
    let mkdir = Operation::Mkdir { dst: p("b"), parents: false };
    assert_eq!(
        resolve_operation_paths(&p("/root"), &mkdir, &facts),
        Outcome::Done((None, Some(p("/root/b"))))
    );
    let n = match normalize_op(&p("/root"), &trash, 42, &facts) {
        Outcome::Done(n) => n,
        other => panic!("{:?}", other),
    };
    assert_eq!(n.id, 42);
    assert_eq!(n.op, trash);
    assert_eq!(n.resolved_src, Some(p("/root/a")));
    assert_eq!(n.resolved_dst, None);
    assert!(n.parents.is_empty());
}

#[test]
fn preflight_wants_sources_to_exist_and_applies_the_symlink_policy() {
    let mut facts = bare_root();
    facts.record_canonical(p("/root/a"), Some(p("/root/a")));
    let mv = plan(vec![Operation::Move { src: p("a"), dst: p("b"), cross_device: false }]);
    assert_eq!(preflight_check(&mv, &facts), Outcome::Ask(FsQuery::Stat(p("/root/a"))));
    facts.record_stat(p("/root/a"), file());
    assert_eq!(preflight_check(&mv, &facts), Outcome::Done(()));

    // A source that does not exist.
    let mut facts = bare_root();
    facts.record_canonical(p("/root/a"), None);
    facts.record_stat(p("/root/a"), missing());
    assert_eq!(preflight_check(&mv, &facts), Outcome::Fail(Fault::SourceMissing));

    // A `mkdir` has no source to check.
    let mk = plan(vec![Operation::Mkdir { dst: p("b"), parents: false }]);
    assert_eq!(preflight_check(&mk, &FsFacts::new()), Outcome::Done(()));

    // A source that is a symlink: the reference is looked at, not its target.
    let mut facts = bare_root();
    facts.record_canonical(p("/root/a"), Some(p("/root/target")));
    facts.record_stat(p("/root/target"), file());
    facts.record_stat(p("/root/a"), Stat { kind: EntryKind::File, symlink: true, device: Some(1) });
    assert_eq!(preflight_check(&mv, &facts), Outcome::Fail(Fault::SymlinkNotAllowed));
    let mut skip = mv.clone();
    skip.symlink_policy = SymlinkPolicy::Skip;
    assert_eq!(preflight_check(&skip, &facts), Outcome::Fail(Fault::SymlinkSkipped));
    let mut follow = mv.clone();
    follow.symlink_policy = SymlinkPolicy::Follow;
    assert_eq!(preflight_check(&follow, &facts), Outcome::Done(()));
}

#[test]
fn more_facts_do_not_change_a_settled_normalization() {
    let mut facts = bare_root();
    facts.record_canonical(p("/root/a"), Some(p("/root/a")));
    facts.record_canonical(p("/root/b"), None);
    let pl = plan(vec![Operation::Move { src: p("a"), dst: p("b"), cross_device: false }]);
    let first = match normalize_plan(&pl, &facts) {
        Outcome::Done(ops) => ops,
        other => panic!("{:?}", other),
    };
    facts.record_stat(p("/root/zzz"), file());
    facts.record_canonical(p("/root/other"), Some(p("/elsewhere")));
    let second = match normalize_plan(&pl, &facts) {
        Outcome::Done(ops) => ops,
        other => panic!("{:?}", other),
    };
    assert_eq!(first[0].resolved_src, second[0].resolved_src);
    assert_eq!(first[0].resolved_dst, second[0].resolved_dst);
    assert_eq!(first[0].parents, second[0].parents);
    assert!(first[0].resolved_src.as_ref().unwrap().starts_with(&p("/root")));
    assert!(first[0].resolved_dst.as_ref().unwrap().starts_with(&p("/root")));
}
