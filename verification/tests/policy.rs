use tfs::facts::{EntryKind, FsFacts, FsQuery, Outcome, Stat};
use tfs::fault::Fault;
use tfs::model::{
    default_collision_policy, default_symlink_policy, default_transaction_mode, CollisionPolicy,
    SymlinkPolicy, TransactionMode,
};
use tfs::path::FsPath;
use tfs::policy::{
    backup_path, content_token, first_free_candidate, fnv1a_hash, handle_symlink, hashed,
    resolve_collision,
};

fn file() -> Stat {
    Stat { kind: EntryKind::File, symlink: false, device: Some(1) }
}

fn missing() -> Stat {
    Stat { kind: EntryKind::Missing, symlink: false, device: None }
}

fn p(text: &str) -> FsPath {
    FsPath::parse(text)
}

#[test]
fn test_resolve_collision_fail() {
    let path = p("/tmp/dir/exists.txt");
    let mut facts = FsFacts::new();
    facts.record_stat(path.clone(), file());
    let result = resolve_collision(CollisionPolicy::Fail, &path, false, None, &facts);
    assert_eq!(result, Outcome::Fail(Fault::DestinationExists));
}

#[test]
fn test_resolve_collision_suffix() {
    let path = p("/tmp/dir/file.txt");
    let mut facts = FsFacts::new();
    facts.record_stat(path.clone(), file());

    // The library asks before it decides.
    assert_eq!(
        resolve_collision(CollisionPolicy::Suffix, &path, false, None, &facts),
        Outcome::Ask(FsQuery::Stat(p("/tmp/dir/file.txt.2")))
    );

    // First conflict -> file.txt.2
    facts.record_stat(p("/tmp/dir/file.txt.2"), missing());
    let result = resolve_collision(CollisionPolicy::Suffix, &path, false, None, &facts);
    assert_eq!(result, Outcome::Done((p("/tmp/dir/file.txt.2"), None)));

    // Create the .2 file and try again -> file.txt.3
    facts.record_stat(p("/tmp/dir/file.txt.2"), file());
    facts.record_stat(p("/tmp/dir/file.txt.3"), missing());
    let result = resolve_collision(CollisionPolicy::Suffix, &path, false, None, &facts);
    assert_eq!(result, Outcome::Done((p("/tmp/dir/file.txt.3"), None)));
    assert_eq!(first_free_candidate(&path, &facts), Outcome::Done(p("/tmp/dir/file.txt.3")));
}

#[test]
fn test_resolve_collision_overwrite_backup() {
    let path = p("/tmp/dir/file.txt");
    let mut facts = FsFacts::new();
    facts.record_stat(path.clone(), file());

    // Requires allow_overwrite
    let result = resolve_collision(CollisionPolicy::OverwriteWithBackup, &path, false, None, &facts);
    assert_eq!(result, Outcome::Fail(Fault::OverwriteNotAllowed));

    // With allow_overwrite
    let result = resolve_collision(CollisionPolicy::OverwriteWithBackup, &path, true, None, &facts);
    assert_eq!(result, Outcome::Done((path.clone(), Some(p("/tmp/dir/file.txt.backup")))));
    assert_eq!(backup_path(&path), p("/tmp/dir/file.txt.backup"));
}

#[test]
fn test_handle_symlink() {
    let link = p("/tmp/dir/link");
    let mut facts = FsFacts::new();
    assert_eq!(
        handle_symlink(SymlinkPolicy::Error, &link, &facts),
        Outcome::Ask(FsQuery::Stat(link.clone()))
    );
    facts.record_stat(link.clone(), Stat { kind: EntryKind::File, symlink: true, device: Some(1) });

    // Error
    assert_eq!(
        handle_symlink(SymlinkPolicy::Error, &link, &facts),
        Outcome::Fail(Fault::SymlinkNotAllowed)
    );
    // Skip
    match handle_symlink(SymlinkPolicy::Skip, &link, &facts) {
        Outcome::Fail(e) => assert!(e.describe().contains("skipped")),
        _ => panic!("should fail"),
    }
    // Follow
    assert_eq!(handle_symlink(SymlinkPolicy::Follow, &link, &facts), Outcome::Done(()));

    // What is no symlink passes if it exists.
    let plain = p("/tmp/dir/target");
    facts.record_stat(plain.clone(), file());
    assert_eq!(handle_symlink(SymlinkPolicy::Error, &plain, &facts), Outcome::Done(()));
    let gone = p("/tmp/dir/gone");
    facts.record_stat(gone.clone(), missing());
    assert_eq!(
        handle_symlink(SymlinkPolicy::Follow, &gone, &facts),
        Outcome::Fail(Fault::SourceMissing)
    );
}

#[test]
fn destination_that_does_not_exist_is_taken_as_it_is_under_every_policy() {
    let path = p("/tmp/dir/new.txt");
    let mut facts = FsFacts::new();
    assert_eq!(
        resolve_collision(CollisionPolicy::Fail, &path, false, None, &facts),
        Outcome::Ask(FsQuery::Stat(path.clone()))
    );
    facts.record_stat(path.clone(), missing());
    for policy in [
        CollisionPolicy::Fail,
        CollisionPolicy::Suffix,
        CollisionPolicy::Hash8,
        CollisionPolicy::OverwriteWithBackup,
    ] {
        assert_eq!(
            resolve_collision(policy, &path, false, None, &facts),
            Outcome::Done((path.clone(), None))
        );
    }
}

#[test]
fn hash8_token_is_fnv1a_of_the_source_bytes() {
    assert_eq!(fnv1a_hash(&vec![]), 0x811c9dc5);
    assert_eq!(fnv1a_hash(&b"a".to_vec()), 0xe40c292c);
    assert_eq!(fnv1a_hash(&b"foobar".to_vec()), 0xbf9cf968);
    assert_eq!(content_token(&b"foobar".to_vec()), "bf9cf968");
    assert_eq!(content_token(&vec![]), "811c9dc5");
    assert_eq!(hashed(&p("/d/f.txt"), &b"a".to_vec()), p("/d/f.txt.e40c292c"));

    let dst = p("/d/f.txt");
    let src = p("/d/s.txt");
    let mut facts = FsFacts::new();
    facts.record_stat(dst.clone(), file());
    assert_eq!(
        resolve_collision(CollisionPolicy::Hash8, &dst, false, Some(&src), &facts),
        Outcome::Ask(FsQuery::Content(src.clone()))
    );
    facts.record_content(src.clone(), Some(b"foobar".to_vec()));
    assert_eq!(
        resolve_collision(CollisionPolicy::Hash8, &dst, false, Some(&src), &facts),
        Outcome::Done((p("/d/f.txt.bf9cf968"), None))
    );
    facts.record_content(src.clone(), None);
    assert_eq!(
        resolve_collision(CollisionPolicy::Hash8, &dst, false, Some(&src), &facts),
        Outcome::Fail(Fault::SourceUnreadable)
    );
    assert_eq!(
        resolve_collision(CollisionPolicy::Hash8, &dst, false, None, &facts),
        Outcome::Fail(Fault::SourceUnreadable)
    );
}

#[test]
fn defaults_of_a_manifest() {
    assert_eq!(default_transaction_mode(), TransactionMode::All);
    assert_eq!(default_collision_policy(), CollisionPolicy::Fail);
    assert_eq!(default_symlink_policy(), SymlinkPolicy::Error);
}

#[test]
fn faults_map_to_exit_codes_and_words() {
    assert_eq!(Fault::EscapesRoot.exit_code(), 2);
    assert_eq!(Fault::RelativeRoot.exit_code(), 2);
    assert_eq!(Fault::DestinationExists.exit_code(), 2);
    assert_eq!(Fault::OverwriteNotAllowed.exit_code(), 2);
    assert_eq!(Fault::SymlinkNotAllowed.exit_code(), 2);
    assert_eq!(Fault::SourceMissing.exit_code(), 2);
    assert_eq!(Fault::Io.exit_code(), 1);
    assert_eq!(Fault::JournalWrite.exit_code(), 1);
    assert_eq!(Fault::EscapesRoot.describe(), "path escapes root");
    assert_eq!(Fault::RootMissing.describe(), "root does not exist");
    assert_eq!(Fault::PrefixMissing.describe(), "path prefix does not exist");
    assert_eq!(Fault::RelativeRoot.describe(), "root must be an absolute path");
    assert_eq!(tfs::exit_codes::SUCCESS, 0);
    assert_eq!(tfs::exit_codes::OPERATIONAL_FAILURE, 1);
    assert_eq!(tfs::exit_codes::POLICY_FAILURE, 2);
    assert_eq!(tfs::exit_codes::TRANSACTIONAL_FAILURE, 3);
}
