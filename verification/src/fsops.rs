//! The file-system primitives, as plans.
//!
//! A primitive here does not touch the file system: from what is known of
//! it, it works out the unit actions that carry the primitive out, in the
//! order in which they have to be performed. The first action that fails
//! ends the primitive.

use crate::facts::{
    EntryKind, FactsView, FsFacts, FsQuery, Outcome, OutcomeView, QueryView, Stat, WalkEntryView,
};
use crate::fault::Fault;
use crate::path::{FsPath, PathView};
use vstd::prelude::*;
use vstd::string::*;

verus! {

/// What a completed operation did.
#[derive(Debug, Clone, PartialEq, Eq)]
pub struct OpResult {
    /// Bytes written by copying.
    pub bytes_copied: u64,
    /// Where the result of the operation lies.
    pub final_dst: FsPath,
    /// Whether an existing entry was replaced.
    pub overwritten: bool,
    /// Where the replaced entry was moved to.
    pub backup_path: Option<FsPath>,
}

/// The mathematical value of an [`OpResult`].
pub struct OpResultView {
    pub bytes_copied: u64,
    pub final_dst: PathView,
    pub overwritten: bool,
    pub backup_path: Option<PathView>,
}

impl DeepView for OpResult {
    type V = OpResultView;

    open spec fn deep_view(&self) -> OpResultView {
        OpResultView {
            bytes_copied: self.bytes_copied,
            final_dst: self.final_dst@,
            overwritten: self.overwritten,
            backup_path: self.backup_path.deep_view(),
        }
    }
}

/// One unit action on the file system.
#[derive(Debug, Clone, PartialEq, Eq)]
pub enum FsAction {
    /// Create this directory; its parent has to exist.
    CreateDir(FsPath),
    /// Create this directory and every missing ancestor.
    CreateDirAll(FsPath),
    /// Rename within one volume.
    Rename { from: FsPath, to: FsPath },
    /// Copy the bytes of one file.
    CopyFile { from: FsPath, to: FsPath },
    /// Remove one file.
    RemoveFile(FsPath),
    /// Remove one empty directory.
    RemoveDir(FsPath),
    /// Remove a directory with all it holds.
    RemoveDirAll(FsPath),
}

/// The mathematical value of an [`FsAction`].
pub enum ActionView {
    CreateDir(PathView),
    CreateDirAll(PathView),
    Rename { from: PathView, to: PathView },
    CopyFile { from: PathView, to: PathView },
    RemoveFile(PathView),
    RemoveDir(PathView),
    RemoveDirAll(PathView),
}

impl DeepView for FsAction {
    type V = ActionView;

    open spec fn deep_view(&self) -> ActionView {
        match self {
            FsAction::CreateDir(p) => ActionView::CreateDir(p@),
            FsAction::CreateDirAll(p) => ActionView::CreateDirAll(p@),
            FsAction::Rename { from, to } => ActionView::Rename { from: from@, to: to@ },
            FsAction::CopyFile { from, to } => ActionView::CopyFile { from: from@, to: to@ },
            FsAction::RemoveFile(p) => ActionView::RemoveFile(p@),
            FsAction::RemoveDir(p) => ActionView::RemoveDir(p@),
            FsAction::RemoveDirAll(p) => ActionView::RemoveDirAll(p@),
        }
    }
}

impl FsAction {
    /// A copy of the action.
    pub fn duplicate(&self) -> (r: FsAction)
        ensures
            r.deep_view() == self.deep_view(),
    {
        match self {
            FsAction::CreateDir(p) => FsAction::CreateDir(p.duplicate()),
            FsAction::CreateDirAll(p) => FsAction::CreateDirAll(p.duplicate()),
            FsAction::Rename { from, to } => FsAction::Rename {
                from: from.duplicate(),
                to: to.duplicate(),
            },
            FsAction::CopyFile { from, to } => FsAction::CopyFile {
                from: from.duplicate(),
                to: to.duplicate(),
            },
            FsAction::RemoveFile(p) => FsAction::RemoveFile(p.duplicate()),
            FsAction::RemoveDir(p) => FsAction::RemoveDir(p.duplicate()),
            FsAction::RemoveDirAll(p) => FsAction::RemoveDirAll(p.duplicate()),
        }
    }
}

/// Whether anything lies at a path: what it leads to exists, or the path is
/// a symlink that leads nowhere.
pub open spec fn present(st: Stat) -> bool {
    st.kind != EntryKind::Missing || st.symlink
}

/// The directory that will hold `dst`: its parent, or `dst` itself where it
/// has none.
pub open spec fn holder(dst: PathView) -> PathView {
    match dst.parent() {
        Some(p) => p,
        None => dst,
    }
}

/// The plan of `mkdir`: nothing where the directory exists; a failure where
/// something else lies there, or where the directory that is to hold it is
/// missing and is not to be created; else its creation.
pub open spec fn mkdir_plan(facts: FactsView, dst: PathView, parents: bool) -> OutcomeView<
    Seq<ActionView>,
> {
    if !facts.stat.contains_key(dst) {
        OutcomeView::Ask(QueryView::Stat(dst))
    } else if facts.stat[dst].kind == EntryKind::Dir {
        OutcomeView::Done(Seq::empty())
    } else if present(facts.stat[dst]) {
        OutcomeView::Fail(Fault::NotADirectory)
    } else if parents {
        OutcomeView::Done(seq![ActionView::CreateDirAll(dst)])
    } else if !facts.stat.contains_key(holder(dst)) {
        OutcomeView::Ask(QueryView::Stat(holder(dst)))
    } else if facts.stat[holder(dst)].kind != EntryKind::Dir {
        OutcomeView::Fail(Fault::DestinationParentMissing)
    } else {
        OutcomeView::Done(seq![ActionView::CreateDir(dst)])
    }
}

/// Creates the directory `dst`, with its missing ancestors if `parents`.
/// Fails if something lies at `dst` that is no directory, or if, without
/// `parents`, the directory that is to hold `dst` does not exist.
pub fn mkdir(dst: &FsPath, parents: bool, facts: &FsFacts) -> (r: Outcome<Vec<FsAction>>)
    ensures
        r.deep_view() == mkdir_plan(facts@, dst@, parents),
{
    let at = match facts.stat(dst) {
        None => {
            return Outcome::Ask(FsQuery::Stat(dst.duplicate()));
        },
        Some(st) => st,
    };
    let mut plan: Vec<FsAction> = Vec::new();
    assert(plan.deep_view() =~= Seq::<ActionView>::empty());
    if at.kind == EntryKind::Dir {
        return Outcome::Done(plan);
    }
    if at.kind != EntryKind::Missing || at.symlink {
        return Outcome::Fail(Fault::NotADirectory);
    }
    if parents {
        plan.push(FsAction::CreateDirAll(dst.duplicate()));
        assert(plan.deep_view() =~= seq![ActionView::CreateDirAll(dst@)]);
        return Outcome::Done(plan);
    }
    let dir = match dst.parent() {
        Some(p) => p,
        None => dst.duplicate(),
    };
    match facts.stat(&dir) {
        None => Outcome::Ask(FsQuery::Stat(dir)),
        Some(st) => {
            if st.kind != EntryKind::Dir {
                return Outcome::Fail(Fault::DestinationParentMissing);
            }
            plan.push(FsAction::CreateDir(dst.duplicate()));
            assert(plan.deep_view() =~= seq![ActionView::CreateDir(dst@)]);
            Outcome::Done(plan)
        },
    }
}

/// Whether `src` and the directory that will hold `dst` lie on one volume.
/// Where the platform does not tell the volume they count as apart.
pub open spec fn same_volume(facts: FactsView, src: PathView, dst: PathView) -> OutcomeView<bool> {
    if !facts.stat.contains_key(src) {
        OutcomeView::Ask(QueryView::Stat(src))
    } else if facts.stat[src].kind == EntryKind::Missing {
        OutcomeView::Fail(Fault::SourceMissing)
    } else if !facts.stat.contains_key(holder(dst)) {
        OutcomeView::Ask(QueryView::Stat(holder(dst)))
    } else if facts.stat[holder(dst)].kind == EntryKind::Missing {
        OutcomeView::Fail(Fault::DestinationParentMissing)
    } else {
        OutcomeView::Done(
            facts.stat[src].device is Some && facts.stat[src].device == facts.stat[holder(
                dst,
            )].device,
        )
    }
}

/// Whether `src` and the directory that will hold `dst` lie on one volume.
pub fn same_filesystem(src: &FsPath, dst: &FsPath, facts: &FsFacts) -> (r: Outcome<bool>)
    ensures
        r.deep_view() == same_volume(facts@, src@, dst@),
{
    let from = match facts.stat(src) {
        None => {
            return Outcome::Ask(FsQuery::Stat(src.duplicate()));
        },
        Some(st) => st,
    };
    if from.kind == EntryKind::Missing {
        return Outcome::Fail(Fault::SourceMissing);
    }
    let dir = match dst.parent() {
        Some(p) => p,
        None => dst.duplicate(),
    };
    let to = match facts.stat(&dir) {
        None => {
            return Outcome::Ask(FsQuery::Stat(dir));
        },
        Some(st) => st,
    };
    if to.kind == EntryKind::Missing {
        return Outcome::Fail(Fault::DestinationParentMissing);
    }
    let same = match (from.device, to.device) {
        (Some(a), Some(b)) => a == b,
        _ => false,
    };
    Outcome::Done(same)
}

/// Where the entry of a listed tree goes when the tree at `src` is copied to
/// `dst`; none if the entry does not lie below `src`.
pub open spec fn copy_target(src: PathView, dst: PathView, entry: PathView) -> Option<PathView> {
    match entry.strip_prefix(src) {
        Some(rel) => Some(dst.join(rel)),
        None => None,
    }
}

/// The action that copies one entry of the tree at `src` to its place below
/// `dst`.
pub open spec fn copy_step(src: PathView, dst: PathView, entry: WalkEntryView) -> Option<
    ActionView,
> {
    match copy_target(src, dst, entry.path) {
        Some(target) => Some(
            if entry.is_dir {
                ActionView::CreateDirAll(target)
            } else {
                ActionView::CopyFile { from: entry.path, to: target }
            },
        ),
        None => None,
    }
}

/// The actions that copy the first `n` entries of a listed tree, in the
/// order of the listing; none if one of them does not lie below `src`.
pub open spec fn copy_steps(src: PathView, dst: PathView, entries: Seq<WalkEntryView>, n: int)
    -> Option<Seq<ActionView>>
    decreases n,
{
    if n <= 0 {
        Some(Seq::empty())
    } else {
        match (copy_steps(src, dst, entries, n - 1), copy_step(src, dst, entries[n - 1])) {
            (Some(init), Some(step)) => Some(init.push(step)),
            _ => None,
        }
    }
}

/// The plan of `cp`.
pub open spec fn cp_plan(facts: FactsView, src: PathView, dst: PathView, recursive: bool)
    -> OutcomeView<Seq<ActionView>> {
    if !facts.stat.contains_key(src) {
        OutcomeView::Ask(QueryView::Stat(src))
    } else {
        match facts.stat[src].kind {
            EntryKind::Missing => OutcomeView::Fail(Fault::SourceMissing),
            EntryKind::Other => OutcomeView::Fail(Fault::UnsupportedFileType),
            EntryKind::File => OutcomeView::Done(seq![ActionView::CopyFile { from: src, to: dst }]),
            EntryKind::Dir => if !recursive {
                OutcomeView::Fail(Fault::DirectoryNotRecursive)
            } else if !facts.stat.contains_key(dst) {
                OutcomeView::Ask(QueryView::Stat(dst))
            } else if !facts.walk.contains_key(src) {
                OutcomeView::Ask(QueryView::Walk(src))
            } else {
                match facts.walk[src] {
                    None => OutcomeView::Fail(Fault::WalkFailed),
                    Some(entries) => match copy_steps(src, dst, entries, entries.len() as int) {
                        None => OutcomeView::Fail(Fault::EntryOutsideTree),
                        Some(steps) => OutcomeView::Done(
                            if facts.stat[dst].kind == EntryKind::Missing {
                                seq![ActionView::CreateDirAll(dst)] + steps
                            } else {
                                steps
                            },
                        ),
                    },
                }
            },
        }
    }
}

/// Copies the file at `src` to `dst`, or, if `recursive`, the tree at `src`:
/// the directory `dst` is created if it is missing, and every entry of the
/// tree is recreated at the same place below `dst`, in the order of the
/// listing.
pub fn cp(src: &FsPath, dst: &FsPath, recursive: bool, facts: &FsFacts) -> (r: Outcome<
    Vec<FsAction>,
>)
    ensures
        r.deep_view() == cp_plan(facts@, src@, dst@, recursive),
{
    let st = match facts.stat(src) {
        None => {
            return Outcome::Ask(FsQuery::Stat(src.duplicate()));
        },
        Some(st) => st,
    };
    match st.kind {
        EntryKind::Missing => Outcome::Fail(Fault::SourceMissing),
        EntryKind::Other => Outcome::Fail(Fault::UnsupportedFileType),
        EntryKind::File => {
            let mut plan: Vec<FsAction> = Vec::new();
            plan.push(FsAction::CopyFile { from: src.duplicate(), to: dst.duplicate() });
            assert(plan.deep_view() =~= seq![ActionView::CopyFile { from: src@, to: dst@ }]);
            Outcome::Done(plan)
        },
        EntryKind::Dir => {
            if !recursive {
                return Outcome::Fail(Fault::DirectoryNotRecursive);
            }
            let at = match facts.stat(dst) {
                None => {
                    return Outcome::Ask(FsQuery::Stat(dst.duplicate()));
                },
                Some(st) => st,
            };
            let entries = match facts.walk(src) {
                None => {
                    return Outcome::Ask(FsQuery::Walk(src.duplicate()));
                },
                Some(None) => {
                    return Outcome::Fail(Fault::WalkFailed);
                },
                Some(Some(entries)) => entries,
            };
            let mut plan: Vec<FsAction> = Vec::new();
            if at.kind == EntryKind::Missing {
                plan.push(FsAction::CreateDirAll(dst.duplicate()));
            }
            let ghost head = plan.deep_view();
            assert(head =~= if at.kind == EntryKind::Missing {
                seq![ActionView::CreateDirAll(dst@)]
            } else {
                Seq::empty()
            });
            let mut i: usize = 0;
            while i < entries.len()
                invariant
                    i <= entries.len(),
                    recursive,
                    facts@.stat.contains_key(src@),
                    facts@.stat[src@].kind == EntryKind::Dir,
                    facts@.stat.contains_key(dst@),
                    facts@.walk.contains_key(src@),
                    facts@.walk[src@] == Some(entries.deep_view()),
                    copy_steps(src@, dst@, entries.deep_view(), i as int) is Some,
                    plan.deep_view() == head + copy_steps(
                        src@,
                        dst@,
                        entries.deep_view(),
                        i as int,
                    )->0,
                decreases entries.len() - i,
            {
                let entry = &entries[i];
                assert(entries.deep_view()[i as int] == entry.deep_view());
                let ghost before = plan.deep_view();
                match entry.path.strip_prefix(src) {
                    None => {
                        proof {
                            assert(copy_step(src@, dst@, entry.deep_view()) is None);
                            assert(copy_steps(src@, dst@, entries.deep_view(), i as int + 1)
                                is None);
                            lemma_copy_steps_none(
                                src@,
                                dst@,
                                entries.deep_view(),
                                i as int + 1,
                                entries.len() as int,
                            );
                        }
                        return Outcome::Fail(Fault::EntryOutsideTree);
                    },
                    Some(rel) => {
                        let target = dst.join(&rel);
                        if entry.is_dir {
                            plan.push(FsAction::CreateDirAll(target));
                        } else {
                            plan.push(
                                FsAction::CopyFile { from: entry.path.duplicate(), to: target },
                            );
                        }
                        assert(plan.deep_view() =~= before.push(
                            copy_step(src@, dst@, entry.deep_view())->0,
                        ));
                        assert(plan.deep_view() =~= head + copy_steps(
                            src@,
                            dst@,
                            entries.deep_view(),
                            i as int + 1,
                        )->0);
                    },
                }
                i = i + 1;
            }
            assert(head + copy_steps(src@, dst@, entries.deep_view(), i as int)->0 =~= if at.kind
                == EntryKind::Missing {
                seq![ActionView::CreateDirAll(dst@)] + copy_steps(
                    src@,
                    dst@,
                    entries.deep_view(),
                    i as int,
                )->0
            } else {
                copy_steps(src@, dst@, entries.deep_view(), i as int)->0
            });
            Outcome::Done(plan)
        },
    }
}

proof fn lemma_copy_steps_none(
    src: PathView,
    dst: PathView,
    entries: Seq<WalkEntryView>,
    k: int,
    n: int,
)
    requires
        0 < k <= n,
        copy_steps(src, dst, entries, k) is None,
    ensures
        copy_steps(src, dst, entries, n) is None,
    decreases n - k,
{
    if k < n {
        lemma_copy_steps_none(src, dst, entries, k + 1, n);
    }
}

/// The action that removes `src` once it was copied.
pub open spec fn removal(kind: EntryKind, src: PathView) -> Seq<ActionView> {
    match kind {
        EntryKind::File => seq![ActionView::RemoveFile(src)],
        EntryKind::Dir => seq![ActionView::RemoveDirAll(src)],
        _ => Seq::empty(),
    }
}

/// The plan of `mv`.
pub open spec fn mv_plan(facts: FactsView, src: PathView, dst: PathView, cross_device: bool)
    -> OutcomeView<Seq<ActionView>> {
    match same_volume(facts, src, dst) {
        OutcomeView::Ask(q) => OutcomeView::Ask(q),
        OutcomeView::Fail(f) => OutcomeView::Fail(f),
        OutcomeView::Done(same) => if !facts.stat.contains_key(dst) {
            OutcomeView::Ask(QueryView::Stat(dst))
        } else if present(facts.stat[dst]) {
            OutcomeView::Fail(Fault::DestinationExists)
        } else if same && !cross_device {
            OutcomeView::Done(seq![ActionView::Rename { from: src, to: dst }])
        } else {
            match cp_plan(facts, src, dst, true) {
                OutcomeView::Ask(q) => OutcomeView::Ask(q),
                OutcomeView::Fail(f) => OutcomeView::Fail(f),
                OutcomeView::Done(steps) => OutcomeView::Done(
                    steps + removal(facts.stat[src].kind, src),
                ),
            }
        },
    }
}

/// Moves `src` to `dst`, which must not exist: by one rename where both lie
/// on one volume and `cross_device` is not set, else by copying `src` and
/// then removing it.
pub fn mv(src: &FsPath, dst: &FsPath, cross_device: bool, facts: &FsFacts) -> (r: Outcome<
    Vec<FsAction>,
>)
    ensures
        r.deep_view() == mv_plan(facts@, src@, dst@, cross_device),
{
    let same = match same_filesystem(src, dst, facts) {
        Outcome::Ask(q) => {
            return Outcome::Ask(q);
        },
        Outcome::Fail(f) => {
            return Outcome::Fail(f);
        },
        Outcome::Done(same) => same,
    };
    let at = match facts.stat(dst) {
        None => {
            return Outcome::Ask(FsQuery::Stat(dst.duplicate()));
        },
        Some(st) => st,
    };
    if at.kind != EntryKind::Missing || at.symlink {
        return Outcome::Fail(Fault::DestinationExists);
    }
    if same && !cross_device {
        let mut plan: Vec<FsAction> = Vec::new();
        plan.push(FsAction::Rename { from: src.duplicate(), to: dst.duplicate() });
        assert(plan.deep_view() =~= seq![ActionView::Rename { from: src@, to: dst@ }]);
        Outcome::Done(plan)
    } else {
        let mut plan = match cp(src, dst, true, facts) {
            Outcome::Ask(q) => {
                return Outcome::Ask(q);
            },
            Outcome::Fail(f) => {
                return Outcome::Fail(f);
            },
            Outcome::Done(plan) => plan,
        };
        let kind = match facts.stat(src) {
            Some(st) => st.kind,
            None => EntryKind::Missing,
        };
        let ghost before = plan.deep_view();
        match kind {
            EntryKind::File => {
                plan.push(FsAction::RemoveFile(src.duplicate()));
            },
            EntryKind::Dir => {
                plan.push(FsAction::RemoveDirAll(src.duplicate()));
            },
            _ => {},
        }
        assert(plan.deep_view() =~= before + removal(kind, src@));
        Outcome::Done(plan)
    }
}

/// The quarantine name of `src`: beside it, with the extension `trash`.
pub open spec fn quarantine(src: PathView) -> PathView {
    src.with_extension("trash"@)
}

/// The quarantine name of `src`.
pub fn quarantine_path(src: &FsPath) -> (p: FsPath)
    ensures
        p@ == quarantine(src@),
{
    proof {
        reveal_strlit("trash");
    }
    src.with_extension("trash")
}

/// The plan of `trash`.
pub open spec fn trash_plan(facts: FactsView, src: PathView) -> OutcomeView<Seq<ActionView>> {
    mv_plan(facts, src, quarantine(src), false)
}

/// Moves `src` into quarantine: to the name beside it with the extension
/// `trash`. Moving that entry back to `src` reverses it.
pub fn trash(src: &FsPath, facts: &FsFacts) -> (r: Outcome<Vec<FsAction>>)
    ensures
        r.deep_view() == trash_plan(facts@, src@),
{
    let dst = quarantine_path(src);
    mv(src, &dst, false, facts)
}

/// The plan that deletes whatever lies at `path`.
pub open spec fn delete_plan(facts: FactsView, path: PathView) -> OutcomeView<Seq<ActionView>> {
    if !facts.stat.contains_key(path) {
        OutcomeView::Ask(QueryView::Stat(path))
    } else {
        OutcomeView::Done(removal(facts.stat[path].kind, path))
    }
}

/// Deletes what lies at `path`: a file, or a directory with all it holds.
/// Where nothing lies there, nothing is done.
pub fn delete(path: &FsPath, facts: &FsFacts) -> (r: Outcome<Vec<FsAction>>)
    ensures
        r.deep_view() == delete_plan(facts@, path@),
{
    let st = match facts.stat(path) {
        None => {
            return Outcome::Ask(FsQuery::Stat(path.duplicate()));
        },
        Some(st) => st,
    };
    let mut plan: Vec<FsAction> = Vec::new();
    match st.kind {
        EntryKind::File => {
            plan.push(FsAction::RemoveFile(path.duplicate()));
        },
        EntryKind::Dir => {
            plan.push(FsAction::RemoveDirAll(path.duplicate()));
        },
        _ => {},
    }
    assert(plan.deep_view() =~= removal(st.kind, path@));
    Outcome::Done(plan)
}

/// Facts that are added never change a plan that was made.
pub proof fn lemma_plans_stable(
    facts: FactsView,
    more: FactsView,
    src: PathView,
    dst: PathView,
    flag: bool,
)
    requires
        facts.within(more),
    ensures
        mkdir_plan(facts, dst, flag).settled() ==> mkdir_plan(more, dst, flag) == mkdir_plan(
            facts,
            dst,
            flag,
        ),
        cp_plan(facts, src, dst, flag).settled() ==> cp_plan(more, src, dst, flag) == cp_plan(
            facts,
            src,
            dst,
            flag,
        ),
        mv_plan(facts, src, dst, flag).settled() ==> mv_plan(more, src, dst, flag) == mv_plan(
            facts,
            src,
            dst,
            flag,
        ),
        delete_plan(facts, dst).settled() ==> delete_plan(more, dst) == delete_plan(facts, dst),
{
    if mkdir_plan(facts, dst, flag).settled() {
        assert(more.stat.contains_key(dst));
        if facts.stat.contains_key(holder(dst)) {
            assert(more.stat.contains_key(holder(dst)));
        }
    }
    if delete_plan(facts, dst).settled() {
        assert(more.stat.contains_key(dst));
    }
    if cp_plan(facts, src, dst, flag).settled() {
        lemma_cp_stable(facts, more, src, dst, flag);
    }
    if mv_plan(facts, src, dst, flag).settled() {
        assert(facts.stat.contains_key(src));
        assert(more.stat.contains_key(src));
        if facts.stat[src].kind != EntryKind::Missing {
            assert(facts.stat.contains_key(holder(dst)));
            assert(more.stat.contains_key(holder(dst)));
            if facts.stat[holder(dst)].kind != EntryKind::Missing {
                assert(facts.stat.contains_key(dst));
                assert(more.stat.contains_key(dst));
                if cp_plan(facts, src, dst, true).settled() {
                    lemma_cp_stable(facts, more, src, dst, true);
                }
            }
        }
    }
}

proof fn lemma_cp_stable(
    facts: FactsView,
    more: FactsView,
    src: PathView,
    dst: PathView,
    recursive: bool,
)
    requires
        facts.within(more),
        cp_plan(facts, src, dst, recursive).settled(),
    ensures
        cp_plan(more, src, dst, recursive) == cp_plan(facts, src, dst, recursive),
{
    assert(facts.stat.contains_key(src));
    assert(more.stat.contains_key(src));
    if facts.stat[src].kind == EntryKind::Dir && recursive {
        assert(facts.stat.contains_key(dst));
        assert(more.stat.contains_key(dst));
        assert(facts.walk.contains_key(src));
        assert(more.walk.contains_key(src));
    }
}

} // verus!
