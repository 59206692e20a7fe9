//! A model of the file system, and what undo does to it.
//!
//! Nothing in this module runs. It says what the unit actions do to a tree
//! of files and directories, and proves of that tree that the undo metadata
//! of an operation reverses the operation: after the operation and its
//! undo, the tree is what it was. An action of the model can fail, as one
//! of a file system can, so the laws speak of what holds where the actions
//! go through.
//!
//! The model is a tree without symlinks: a map from absolute paths to files
//! and directories in which the parent of every entry is a directory. It
//! may lie on two volumes, the second mounted at a directory of the first,
//! and it lists its trees in an order of its own.

use crate::clock::Timestamp;
use crate::facts::{EntryKind, FactsView, OutcomeView, QueryView, Stat, WalkEntryView};
use crate::job::{
    lemma_stage_plan_stable, stage_plan, JobStepView, JobView, ReplyView, StagePlan, WorkView,
    STAGES,
};
use crate::fsops::{
    copy_step, copy_steps, cp_plan, delete_plan, holder, mkdir_plan, mv_plan, removal, ActionView,
};
use crate::job::{backup_plan, decide, primary_plan, revert_plan, DecisionView};
use crate::journal::{EntryView, UndoView};
use crate::model::{CollisionPolicy, OperationView};
use crate::path::PathView;
use crate::policy::{backup_of, first_free};
use crate::transaction::{failure_entry, moved_aside, recorded_dst, success_entry};
use crate::validate::{stands, NormalizedView};
use vstd::prelude::*;

verus! {

/// What lies at a path.
pub enum Node {
    File(Seq<u8>),
    Dir,
}

/// The path without its last component.
pub open spec fn up(p: PathView) -> PathView {
    PathView { absolute: p.absolute, parts: p.parts.drop_last() }
}

/// The path `k`, which lies at or below `from`, carried over to the same
/// place at or below `to`.
pub open spec fn carried(k: PathView, from: PathView, to: PathView) -> PathView {
    PathView { absolute: to.absolute, parts: to.parts + k.parts.skip(from.len() as int) }
}

/// Whether a listing is the tree below `top`: every entry of it lies at or
/// below `top` and is rightly told to be a directory or not, and nothing
/// that lies at or below `top` is left out.
pub open spec fn lists(nodes: Map<PathView, Node>, top: PathView, listing: Seq<WalkEntryView>)
    -> bool {
    &&& forall|i: int|
        0 <= i < listing.len() ==> (#[trigger] listing[i]).path.starts_with(top)
            && nodes.contains_key(listing[i].path) && (listing[i].is_dir
            <==> nodes[listing[i].path] is Dir)
    &&& forall|k: PathView|
        #[trigger] nodes.contains_key(k) && k.starts_with(top) ==> exists|i: int|
            0 <= i < listing.len() && (#[trigger] listing[i]).path == k
}

/// A tree of files and directories.
pub struct World {
    pub nodes: Map<PathView, Node>,
    /// Where the second volume is mounted, if there is one.
    pub mount: Option<PathView>,
    /// How the file system lists the tree below a path, given what lies
    /// where; none where it fails to.
    pub lister: spec_fn(Map<PathView, Node>, PathView) -> Option<Seq<WalkEntryView>>,
}

impl World {
    /// Whether something lies at `p`.
    pub open spec fn holds(self, p: PathView) -> bool {
        self.nodes.contains_key(p)
    }

    /// Whether a directory lies at `p`.
    pub open spec fn is_dir(self, p: PathView) -> bool {
        self.holds(p) && self.nodes[p] is Dir
    }

    /// Whether a file lies at `p`.
    pub open spec fn is_file(self, p: PathView) -> bool {
        self.holds(p) && self.nodes[p] is File
    }

    /// What lies at `p`.
    pub open spec fn kind(self, p: PathView) -> EntryKind {
        if !self.holds(p) {
            EntryKind::Missing
        } else if self.nodes[p] is Dir {
            EntryKind::Dir
        } else {
            EntryKind::File
        }
    }

    /// Whether nothing lies at or below `p`.
    pub open spec fn vacant(self, p: PathView) -> bool {
        forall|k: PathView| #[trigger] self.holds(k) ==> !k.starts_with(p)
    }

    /// Whether the map is a tree: every entry has an absolute path, and
    /// every entry but the root lies in a directory.
    pub open spec fn wf(self) -> bool {
        &&& forall|k: PathView| #[trigger] self.holds(k) ==> k.absolute
        &&& forall|k: PathView| #[trigger] self.holds(k) && k.len() > 0 ==> self.is_dir(up(k))
    }

    /// The volume on which a path lies.
    pub open spec fn device(self, p: PathView) -> u64 {
        match self.mount {
            Some(m) => if p.starts_with(m) {
                1
            } else {
                0
            },
            None => 0,
        }
    }

    /// Whether the second volume is mounted at or below `p`.
    pub open spec fn spans(self, p: PathView) -> bool {
        self.mount matches Some(m) && m.starts_with(p)
    }

    /// Whether the model is in order: the map is a tree, the second volume
    /// is mounted at a directory, and where the file system lists a tree,
    /// the listing is the tree.
    pub open spec fn fit(self) -> bool {
        &&& self.wf()
        &&& self.mount matches Some(m) ==> self.is_dir(m) && m.len() > 0
        &&& forall|nodes: Map<PathView, Node>, top: PathView|
            (#[trigger] (self.lister)(nodes, top)) matches Some(l) ==> lists(nodes, top, l)
    }

    /// This model with other entries.
    pub open spec fn with(self, nodes: Map<PathView, Node>) -> World {
        World { nodes, ..self }
    }

    /// The tree after the directory `p` was created with every ancestor
    /// that was missing.
    pub open spec fn made(self, p: PathView) -> World {
        self.with(
            Map::new(
                |k: PathView| self.holds(k) || p.starts_with(k),
                |k: PathView|
                    if self.holds(k) {
                        self.nodes[k]
                    } else {
                        Node::Dir
                    },
            ),
        )
    }

    /// The tree without what lies at and below `p`.
    pub open spec fn without(self, p: PathView) -> World {
        self.with(
            Map::new(|k: PathView| self.holds(k) && !k.starts_with(p), |k: PathView| self.nodes[k]),
        )
    }

    /// What the file system answers when it is this tree: every path is its
    /// own canonical form, nothing is a symlink, and a path lies on the
    /// second volume if it lies at or below the place where that is
    /// mounted. Reading gives the bytes of a file, and fails of anything
    /// else.
    pub open spec fn facts(self) -> FactsView {
        FactsView {
            canonical: Map::total(
                |p: PathView|
                    if self.holds(p) {
                        Some(p)
                    } else {
                        None
                    },
            ),
            stat: Map::total(
                |p: PathView|
                    Stat { kind: self.kind(p), symlink: false, device: Some(self.device(p)) },
            ),
            walk: Map::total(|p: PathView| (self.lister)(self.nodes, p)),
            content: Map::total(
                |p: PathView|
                    if self.holds(p) {
                        match self.nodes[p] {
                            Node::File(bytes) => Some(bytes),
                            Node::Dir => None,
                        }
                    } else {
                        None
                    },
            ),
        }
    }

    /// The tree after what lies at `from` has been renamed to `to`.
    pub open spec fn rename(self, from: PathView, to: PathView) -> World {
        self.with(
            Map::new(
                |k: PathView|
                    (self.holds(k) && !k.starts_with(from)) || (k.starts_with(to) && self.holds(
                        carried(k, to, from),
                    )),
                |k: PathView|
                    if k.starts_with(to) && self.holds(carried(k, to, from)) {
                        self.nodes[carried(k, to, from)]
                    } else {
                        self.nodes[k]
                    },
            ),
        )
    }

    /// The tree after one action, if the file system performs it. A rename
    /// never replaces anything, stays on one volume, and renames nothing
    /// into itself. The place where the second volume is mounted is neither
    /// renamed nor removed.
    pub open spec fn perform(self, a: ActionView) -> Option<World> {
        match a {
            ActionView::CreateDir(p) => if p.absolute && p.len() > 0 && !self.holds(p)
                && self.is_dir(up(p)) {
                Some(self.with(self.nodes.insert(p, Node::Dir)))
            } else {
                None
            },
            ActionView::CreateDirAll(p) => if p.absolute && forall|k: PathView|
                #[trigger] self.holds(k) && p.starts_with(k) ==> self.is_dir(k) {
                Some(self.made(p))
            } else {
                None
            },
            ActionView::Rename { from, to } => if from.absolute && to.absolute && from.len() > 0
                && to.len() > 0 && self.holds(from) && !self.holds(to) && self.is_dir(up(to))
                && !to.starts_with(from) && !self.spans(from) && self.device(from) == self.device(
                up(to),
            ) {
                Some(self.rename(from, to))
            } else {
                None
            },
            ActionView::CopyFile { from, to } => if to.absolute && to.len() > 0 && self.is_file(
                from,
            ) && !self.is_dir(to) && self.is_dir(up(to)) {
                Some(self.with(self.nodes.insert(to, self.nodes[from])))
            } else {
                None
            },
            ActionView::RemoveFile(p) => if self.is_file(p) {
                Some(self.with(self.nodes.remove(p)))
            } else {
                None
            },
            ActionView::RemoveDir(p) => if p.len() > 0 && self.is_dir(p) && !self.spans(p)
                && forall|k: PathView| #[trigger] self.holds(k) && k.starts_with(p) ==> k == p {
                Some(self.with(self.nodes.remove(p)))
            } else {
                None
            },
            ActionView::RemoveDirAll(p) => if p.len() > 0 && self.is_dir(p) && !self.spans(p) {
                Some(self.without(p))
            } else {
                None
            },
        }
    }

    /// The tree after the actions of a plan, performed in order; none if
    /// the file system refuses one of them.
    pub open spec fn run(self, plan: Seq<ActionView>) -> Option<World>
        decreases plan.len(),
    {
        if plan.len() == 0 {
            Some(self)
        } else {
            match self.perform(plan[0]) {
                Some(next) => next.run(plan.drop_first()),
                None => None,
            }
        }
    }
}

/// In a tree, below a place where nothing lies, nothing lies.
pub proof fn lemma_vacant(w: World, p: PathView)
    requires
        w.wf(),
        !w.holds(p),
    ensures
        w.vacant(p),
{
    assert forall|k: PathView| #[trigger] w.holds(k) implies !k.starts_with(p) by {
        if k.starts_with(p) {
            lemma_ancestor_held(w, k, p);
        }
    }
}

/// In a tree, every ancestor of an entry is an entry.
proof fn lemma_ancestor_held(w: World, k: PathView, p: PathView)
    requires
        w.wf(),
        w.holds(k),
        k.starts_with(p),
    ensures
        w.holds(p),
    decreases k.len(),
{
    if k.len() == p.len() {
        assert(k.parts =~= p.parts);
    } else {
        assert(w.is_dir(up(k)));
        assert(p.parts.is_prefix_of(up(k).parts));
        lemma_ancestor_held(w, up(k), p);
    }
}

/// Of a tree nothing says that an entry or one of its ancestors is
/// missing.
pub proof fn lemma_held_stands(w: World, base: PathView)
    requires
        w.wf(),
        w.holds(base),
    ensures
        stands(w.facts(), base),
{
    assert forall|j: int| 0 <= j <= base.len() implies w.facts().stat[#[trigger] base.prefix(
        j,
    )].kind != EntryKind::Missing by {
        assert(base.prefix(j).parts.is_prefix_of(base.parts));
        lemma_ancestor_held(w, base, base.prefix(j));
    }
}

/// Carrying a path over and back gives the path.
proof fn lemma_carried_back(k: PathView, a: PathView, b: PathView)
    requires
        k.starts_with(a),
    ensures
        carried(k, a, b).starts_with(b),
        carried(carried(k, a, b), b, a) == k,
{
    let m = carried(k, a, b);
    assert(m.parts.skip(b.len() as int) =~= k.parts.skip(a.len() as int));
    assert(a.parts + k.parts.skip(a.len() as int) =~= k.parts);
    assert(b.parts.is_prefix_of(m.parts));
}

/// Of two ancestors of one path, one is an ancestor of the other.
proof fn lemma_two_ancestors(k: PathView, a: PathView, b: PathView)
    requires
        k.starts_with(a),
        k.starts_with(b),
    ensures
        a.starts_with(b) || b.starts_with(a),
{
    if a.len() <= b.len() {
        assert(a.parts =~= b.parts.subrange(0, a.len() as int));
    } else {
        assert(b.parts =~= a.parts.subrange(0, b.len() as int));
    }
}

/// What renaming does to one path that does not lie below the entry that
/// is renamed: nothing.
proof fn lemma_rename_aside(w: World, from: PathView, to: PathView, k: PathView)
    requires
        w.vacant(to),
        !k.starts_with(from),
        !k.starts_with(to),
    ensures
        w.rename(from, to).holds(k) == w.holds(k),
        w.holds(k) ==> w.rename(from, to).nodes[k] == w.nodes[k],
{
}

/// What renaming does to one path below the new place: there lies what lay
/// at the same place below the old one.
proof fn lemma_rename_into(w: World, from: PathView, to: PathView, k: PathView)
    requires
        w.vacant(to),
        k.starts_with(to),
    ensures
        w.rename(from, to).holds(k) == w.holds(carried(k, to, from)),
        w.holds(carried(k, to, from)) ==> w.rename(from, to).nodes[k] == w.nodes[carried(
            k,
            to,
            from,
        )],
{
    if w.holds(k) {
        assert(!k.starts_with(to));
    }
}

/// After a rename nothing lies at or below the old place.
proof fn lemma_rename_vacates(w: World, from: PathView, to: PathView)
    requires
        w.holds(from),
        w.vacant(to),
        !to.starts_with(from),
    ensures
        w.rename(from, to).vacant(from),
{
    assert(!from.starts_with(to));
    let w1 = w.rename(from, to);
    assert forall|k: PathView| #[trigger] w1.holds(k) implies !k.starts_with(from) by {
        if k.starts_with(from) {
            if k.starts_with(to) {
                lemma_two_ancestors(k, from, to);
            }
        }
    }
}

/// What renaming to a free place and back does to one path: nothing.
proof fn lemma_rename_back_at(w: World, from: PathView, to: PathView, k: PathView)
    requires
        w.holds(from),
        w.vacant(to),
        w.rename(from, to).vacant(from),
        !to.starts_with(from),
        !from.starts_with(to),
    ensures
        w.rename(from, to).rename(to, from).holds(k) == w.holds(k),
        w.holds(k) ==> w.rename(from, to).rename(to, from).nodes[k] == w.nodes[k],
{
    let w1 = w.rename(from, to);
    if k.starts_with(from) {
        lemma_carried_back(k, from, to);
        let m = carried(k, from, to);
        lemma_rename_into(w1, to, from, k);
        lemma_rename_into(w, from, to, m);
    } else if k.starts_with(to) {
        lemma_carried_back(k, to, from);
        if w1.rename(to, from).holds(k) {
            assert(w1.holds(k) && !k.starts_with(to));
        }
        if w.holds(k) {
            assert(!k.starts_with(to));
        }
    } else {
        lemma_rename_aside(w, from, to, k);
        lemma_rename_aside(w1, to, from, k);
    }
}

/// Renaming an entry to a free place and renaming it back gives the tree
/// that was.
pub proof fn lemma_rename_back(w: World, from: PathView, to: PathView)
    requires
        w.wf(),
        w.holds(from),
        !w.holds(to),
        !to.starts_with(from),
    ensures
        w.rename(from, to).rename(to, from) == w,
        w.rename(from, to).holds(to),
        !w.rename(from, to).holds(from),
        w.rename(from, to).nodes[to] == w.nodes[from],
{
    lemma_vacant(w, to);
    assert(!from.starts_with(to));
    lemma_rename_vacates(w, from, to);
    let w1 = w.rename(from, to);
    let w2 = w1.rename(to, from);
    assert(carried(to, to, from).parts =~= from.parts);
    assert(carried(to, to, from) == from);
    lemma_rename_into(w, from, to, to);
    assert(!w1.holds(from)) by {
        if w1.holds(from) {
            assert(!from.starts_with(from));
        }
    }
    assert forall|k: PathView| #[trigger]
        w2.nodes.dom().contains(k) == w.nodes.dom().contains(k) by {
        lemma_rename_back_at(w, from, to, k);
    }
    assert forall|k: PathView| w.nodes.dom().contains(k) implies #[trigger] w2.nodes[k]
        == w.nodes[k] by {
        lemma_rename_back_at(w, from, to, k);
    }
    assert(w2.nodes.dom() =~= w.nodes.dom());
    assert(w2.nodes =~= w.nodes);
}

/// Renaming an entry to a free place in a directory keeps the tree a tree.
pub proof fn lemma_rename_wf(w: World, from: PathView, to: PathView)
    requires
        w.wf(),
        w.holds(from),
        from.len() > 0,
        to.absolute,
        to.len() > 0,
        !w.holds(to),
        w.is_dir(up(to)),
        !to.starts_with(from),
    ensures
        w.rename(from, to).wf(),
{
    lemma_vacant(w, to);
    let w1 = w.rename(from, to);
    assert forall|k: PathView| #[trigger] w1.holds(k) && k.len() > 0 implies w1.is_dir(up(k)) by {
        if k.starts_with(to) && w.holds(carried(k, to, from)) {
            let m = carried(k, to, from);
            if k.len() == to.len() {
                assert(k.parts =~= to.parts);
                assert(!up(to).starts_with(from)) by {
                    if up(to).starts_with(from) {
                        assert(from.parts.is_prefix_of(to.parts));
                    }
                }
                assert(!up(to).starts_with(to));
            } else {
                assert(m.len() > 0);
                assert(w.is_dir(up(m)));
                assert(up(k).starts_with(to)) by {
                    assert(to.parts.is_prefix_of(up(k).parts));
                }
                assert(carried(up(k), to, from).parts =~= up(m).parts);
                assert(carried(up(k), to, from) == up(m));
            }
        } else {
            assert(w.is_dir(up(k)));
            assert(!up(k).starts_with(from)) by {
                if up(k).starts_with(from) {
                    assert(from.parts.is_prefix_of(k.parts));
                }
            }
            assert(!up(k).starts_with(to));
        }
    }
}

/// The tree after an operation was applied under the decision `d`: after
/// the plan that moves the existing destination aside, and then the plan of
/// the primitive, each made from what the tree is when it is made. None if a
/// plan cannot be made or the file system refuses an action.
pub open spec fn apply_op(w: World, op: NormalizedView, d: DecisionView) -> Option<World> {
    match backup_plan(w.facts(), op, d) {
        OutcomeView::Done(aside) => match w.run(aside) {
            Some(w1) => match primary_plan(w1.facts(), op, d) {
                OutcomeView::Done(main) => w1.run(main),
                _ => None,
            },
            None => None,
        },
        _ => None,
    }
}

/// The tree after the undo metadata of a record was applied: after the
/// first step of the inverse, and then its second step.
pub open spec fn undo_entry(w: World, e: EntryView) -> Option<World> {
    match revert_plan(w.facts(), e, 0) {
        OutcomeView::Done(first) => match w.run(first) {
            Some(w1) => match revert_plan(w1.facts(), e, 1) {
                OutcomeView::Done(second) => w1.run(second),
                _ => None,
            },
            None => None,
        },
        _ => None,
    }
}

/// The first free numbered name is free.
proof fn lemma_first_free_is_free(w: World, dst: PathView, k: nat)
    requires
        first_free(w.facts(), dst, k) is Done,
    ensures
        !w.holds(first_free(w.facts(), dst, k)->Done_0),
    decreases u64::MAX - k + 1,
{
    if k <= u64::MAX {
        let c = crate::policy::suffix_candidate(dst, k);
        assert(w.facts().stat.contains_key(c));
        if w.facts().stat[c].kind != EntryKind::Missing {
            lemma_first_free_is_free(w, dst, k + 1);
        }
    }
}

/// What a decision of the collision policy says of the tree it was made
/// on: a backup is asked for only for a destination that exists, which then
/// is the final destination; without a backup the final destination is
/// free, but for a name that the `hash8` policy has made.
proof fn lemma_decided(
    w: World,
    op: NormalizedView,
    policy: CollisionPolicy,
    allow_overwrite: bool,
    d: DecisionView,
)
    requires
        decide(w.facts(), op, policy, allow_overwrite) == OutcomeView::Done(d),
    ensures
        op.resolved_dst is None ==> d.final_dst is None && d.backup is None,
        op.resolved_dst is Some ==> d.final_dst is Some,
        d.backup is Some ==> d.final_dst == op.resolved_dst && w.holds(op.resolved_dst->0),
        d.backup is Some ==> d.backup->0 == backup_of(op.resolved_dst->0),
        policy != CollisionPolicy::Hash8 && d.backup is None && d.final_dst is Some ==> !w.holds(
            d.final_dst->0,
        ),
{
    if let Some(dst) = op.resolved_dst {
        assert(w.facts().stat.contains_key(dst));
        if w.facts().stat[dst].kind != EntryKind::Missing {
            if policy == CollisionPolicy::Suffix {
                lemma_first_free_is_free(w, dst, crate::policy::FIRST_SUFFIX as nat);
            }
        }
    }
}

/// A plan without actions leaves the tree as it is.
proof fn lemma_run_none(w: World)
    ensures
        w.run(Seq::empty()) == Some(w),
{
}

/// A plan of one action does what the action does.
proof fn lemma_run_one(w: World, a: ActionView)
    ensures
        w.run(seq![a]) == w.perform(a),
{
    let plan = seq![a];
    assert(plan.drop_first() =~= Seq::<ActionView>::empty());
    assert(plan[0] == a);
    if let Some(next) = w.perform(a) {
        assert(next.run(plan.drop_first()) == Some(next));
    }
}

/// An action that goes through keeps the model in order.
proof fn lemma_perform_fit(w: World, a: ActionView)
    requires
        w.fit(),
        w.perform(a) is Some,
    ensures
        w.perform(a)->0.fit(),
        w.perform(a)->0.mount == w.mount,
        w.perform(a)->0.lister == w.lister,
{
    let w1 = w.perform(a)->0;
    match a {
        ActionView::Rename { from, to } => {
            assert(w1 == w.rename(from, to));
            lemma_rename_wf(w, from, to);
            lemma_vacant(w, to);
            assert forall|k: PathView| #[trigger] w1.holds(k) implies k.absolute by {
                if k.starts_with(to) && w.holds(carried(k, to, from)) {
                } else {
                    assert(w.holds(k));
                }
            }
            if let Some(m) = w.mount {
                assert(w.holds(m));
                assert(!m.starts_with(to));
                lemma_rename_aside(w, from, to, m);
            }
        },
        ActionView::CreateDir(p) => {
            assert(w1.nodes == w.nodes.insert(p, Node::Dir));
            assert forall|k: PathView| #[trigger] w1.holds(k) implies k.absolute && (k.len() > 0
                ==> w1.is_dir(up(k))) by {
                if k != p {
                    assert(w.holds(k));
                    if k.len() > 0 {
                        assert(w.is_dir(up(k)));
                    }
                }
            }
        },
        ActionView::CreateDirAll(p) => {
            assert(w1 == w.made(p));
            assert forall|k: PathView| #[trigger] w1.holds(k) implies k.absolute && (k.len() > 0
                ==> w1.is_dir(up(k))) by {
                if w.holds(k) {
                    if k.len() > 0 {
                        assert(w.is_dir(up(k)));
                    }
                } else {
                    assert(p.starts_with(k));
                    if k.len() > 0 {
                        assert(up(k).parts.is_prefix_of(p.parts));
                        assert(p.starts_with(up(k)));
                        assert(w1.holds(up(k)));
                    }
                }
            }
        },
        ActionView::CopyFile { from, to } => {
            assert(w1.nodes == w.nodes.insert(to, w.nodes[from]));
            assert forall|k: PathView| #[trigger] w1.holds(k) implies k.absolute && (k.len() > 0
                ==> w1.is_dir(up(k))) by {
                if k != to {
                    assert(w.holds(k));
                    if k.len() > 0 {
                        assert(w.is_dir(up(k)));
                        assert(up(k) != to);
                    }
                }
            }
        },
        ActionView::RemoveFile(p) => {
            assert(w1.nodes == w.nodes.remove(p));
            assert forall|k: PathView| #[trigger] w1.holds(k) implies k.absolute && (k.len() > 0
                ==> w1.is_dir(up(k))) by {
                assert(w.holds(k));
                if k.len() > 0 {
                    assert(w.is_dir(up(k)));
                }
            }
        },
        ActionView::RemoveDir(p) => {
            assert(w1.nodes == w.nodes.remove(p));
            assert forall|k: PathView| #[trigger] w1.holds(k) implies k.absolute && (k.len() > 0
                ==> w1.is_dir(up(k))) by {
                assert(w.holds(k));
                if k.len() > 0 {
                    assert(w.is_dir(up(k)));
                    if up(k) == p {
                        assert(p.parts.is_prefix_of(k.parts));
                        assert(k.starts_with(p));
                    }
                }
            }
            if let Some(m) = w.mount {
                assert(m.starts_with(m));
            }
        },
        ActionView::RemoveDirAll(p) => {
            assert(w1 == w.without(p));
            assert forall|k: PathView| #[trigger] w1.holds(k) implies k.absolute && (k.len() > 0
                ==> w1.is_dir(up(k))) by {
                assert(w.holds(k));
                if k.len() > 0 {
                    assert(w.is_dir(up(k)));
                    if up(k).starts_with(p) {
                        assert(p.parts.is_prefix_of(k.parts));
                    }
                }
            }
        },
    }
}

/// A plan that goes through keeps the model in order.
proof fn lemma_run_fit(w: World, plan: Seq<ActionView>)
    requires
        w.fit(),
        w.run(plan) is Some,
    ensures
        w.run(plan)->0.fit(),
        w.run(plan)->0.mount == w.mount,
        w.run(plan)->0.lister == w.lister,
    decreases plan.len(),
{
    if plan.len() > 0 {
        lemma_perform_fit(w, plan[0]);
        lemma_run_fit(w.perform(plan[0])->0, plan.drop_first());
    }
}

/// Nothing lies below a file.
proof fn lemma_file_leaf(w: World, f: PathView, k: PathView)
    requires
        w.wf(),
        w.is_file(f),
        w.holds(k),
        k.starts_with(f),
    ensures
        k == f,
    decreases k.len(),
{
    if k.len() == f.len() {
        assert(k.parts =~= f.parts);
    } else {
        assert(w.is_dir(up(k)));
        assert(f.parts.is_prefix_of(up(k).parts));
        lemma_file_leaf(w, f, up(k));
    }
}

/// Whether the directory that is to hold `t` exists.
pub open spec fn grounded(w: World, t: PathView) -> bool {
    t.absolute && t.len() > 0 && w.is_dir(up(t))
}

/// Creating a directory with its missing ancestors creates the directory
/// alone where the directory that is to hold it exists.
proof fn lemma_made_one(w: World, t: PathView)
    requires
        w.wf(),
        !w.holds(t),
        grounded(w, t),
    ensures
        w.made(t) == w.with(w.nodes.insert(t, Node::Dir)),
{
    let a = w.made(t).nodes;
    let b = w.nodes.insert(t, Node::Dir);
    assert forall|k: PathView| #[trigger] a.dom().contains(k) == b.dom().contains(k) by {
        if t.starts_with(k) && k != t {
            assert(k.len() < t.len()) by {
                if k.len() == t.len() {
                    assert(k.parts =~= t.parts);
                }
            }
            assert(k.parts.is_prefix_of(up(t).parts));
            lemma_ancestor_held(w, up(t), k);
        }
    }
    assert(a.dom() =~= b.dom());
    assert(a =~= b);
}

/// Whether two models are the same but for what lies at and below `t`.
pub open spec fn agree_outside(x: World, w: World, t: PathView) -> bool {
    &&& x.mount == w.mount
    &&& x.lister == w.lister
    &&& forall|k: PathView|
        !k.starts_with(t) ==> (#[trigger] x.holds(k)) == w.holds(k) && (w.holds(k) ==> x.nodes[k]
            == w.nodes[k])
}

/// Models that are the same outside `t` as a third one are so as each
/// other.
proof fn lemma_agree_chain(x: World, y: World, w: World, t: PathView)
    requires
        agree_outside(x, y, t),
        agree_outside(y, w, t),
    ensures
        agree_outside(x, w, t),
{
    assert forall|k: PathView| !k.starts_with(t) implies (#[trigger] x.holds(k)) == w.holds(k) && (
    w.holds(k) ==> x.nodes[k] == w.nodes[k]) by {
        assert(y.holds(k) == w.holds(k));
    }
}

/// Whether an action is one of a copy to a place at or below `t`.
pub open spec fn copies_below(a: ActionView, t: PathView) -> bool {
    match a {
        ActionView::CreateDirAll(p) => p.starts_with(t),
        ActionView::CopyFile { from, to } => to.starts_with(t),
        _ => false,
    }
}

/// One action of a copy to a place below the directory `t` changes nothing
/// but at and below `t`, and leaves `t` a directory.
proof fn lemma_step_outside(x: World, a: ActionView, t: PathView)
    requires
        x.fit(),
        x.is_dir(t),
        copies_below(a, t),
        x.perform(a) is Some,
    ensures
        x.perform(a)->0.fit(),
        x.perform(a)->0.is_dir(t),
        agree_outside(x.perform(a)->0, x, t),
{
    let y = x.perform(a)->0;
    lemma_perform_fit(x, a);
    match a {
        ActionView::CreateDirAll(p) => {
            assert forall|k: PathView| !k.starts_with(t) implies (#[trigger] y.holds(k))
                == x.holds(k) && (x.holds(k) ==> y.nodes[k] == x.nodes[k]) by {
                if p.starts_with(k) && !x.holds(k) {
                    lemma_two_ancestors(p, k, t);
                    if t.starts_with(k) {
                        lemma_ancestor_held(x, t, k);
                    }
                }
            }
        },
        ActionView::CopyFile { from, to } => {
            assert(y.nodes == x.nodes.insert(to, x.nodes[from]));
        },
        _ => {},
    }
}

/// Where a listed entry goes lies at or below the destination.
proof fn lemma_copy_step_below(s: PathView, t: PathView, e: WalkEntryView)
    requires
        copy_step(s, t, e) is Some,
        t.absolute,
    ensures
        copies_below(copy_step(s, t, e)->0, t),
{
    let rel = e.path.strip_prefix(s)->0;
    assert(t.join(rel).parts =~= t.parts + rel.parts);
    assert(t.parts.is_prefix_of(t.join(rel).parts));
}

/// The copies of the first `n` entries of a listing change nothing but at
/// and below the destination.
proof fn lemma_steps_outside(
    x: World,
    s: PathView,
    t: PathView,
    entries: Seq<WalkEntryView>,
    n: int,
)
    requires
        x.fit(),
        x.is_dir(t),
        t.absolute,
        0 <= n <= entries.len(),
        copy_steps(s, t, entries, n) is Some,
        x.run(copy_steps(s, t, entries, n)->0) is Some,
    ensures
        x.run(copy_steps(s, t, entries, n)->0)->0.fit(),
        x.run(copy_steps(s, t, entries, n)->0)->0.is_dir(t),
        agree_outside(x.run(copy_steps(s, t, entries, n)->0)->0, x, t),
    decreases n,
{
    if n <= 0 {
        lemma_run_none(x);
    } else {
        let init = copy_steps(s, t, entries, n - 1)->0;
        let step = copy_step(s, t, entries[n - 1])->0;
        assert(copy_steps(s, t, entries, n)->0 == init.push(step));
        assert(init.push(step) =~= init + seq![step]);
        lemma_run_split(x, init, seq![step]);
        let mid = x.run(init)->0;
        lemma_run_one(mid, step);
        lemma_steps_outside(x, s, t, entries, n - 1);
        lemma_copy_step_below(s, t, entries[n - 1]);
        lemma_step_outside(mid, step, t);
        lemma_agree_chain(mid.perform(step)->0, mid, x, t);
    }
}

/// A copy that goes through changes nothing but at and below its
/// destination, where the destination was free and the directory that is
/// to hold it existed.
proof fn lemma_cp_outside(w: World, s: PathView, t: PathView, recursive: bool)
    requires
        w.fit(),
        !w.holds(t),
        grounded(w, t),
        cp_plan(w.facts(), s, t, recursive) is Done,
        w.run(cp_plan(w.facts(), s, t, recursive)->Done_0) is Some,
    ensures
        w.run(cp_plan(w.facts(), s, t, recursive)->Done_0)->0.fit(),
        w.run(cp_plan(w.facts(), s, t, recursive)->Done_0)->0.holds(t),
        agree_outside(w.run(cp_plan(w.facts(), s, t, recursive)->Done_0)->0, w, t),
{
    let plan = cp_plan(w.facts(), s, t, recursive)->Done_0;
    let x = w.run(plan)->0;
    assert(w.facts().stat.contains_key(s));
    assert(w.facts().stat.contains_key(t));
    assert(w.facts().walk.contains_key(s));
    lemma_run_fit(w, plan);
    if w.kind(s) == EntryKind::File {
        lemma_run_one(w, ActionView::CopyFile { from: s, to: t });
        assert(x.nodes == w.nodes.insert(t, w.nodes[s]));
        assert forall|k: PathView| !k.starts_with(t) implies (#[trigger] x.holds(k)) == w.holds(k)
            && (w.holds(k) ==> x.nodes[k] == w.nodes[k]) by {
            assert(k != t);
        }
    } else {
        let entries = w.facts().walk[s]->0;
        let steps = copy_steps(s, t, entries, entries.len() as int)->0;
        let first = seq![ActionView::CreateDirAll(t)];
        assert(plan == first + steps);
        lemma_run_split(w, first, steps);
        lemma_run_one(w, ActionView::CreateDirAll(t));
        lemma_made_one(w, t);
        let y = w.made(t);
        lemma_perform_fit(w, ActionView::CreateDirAll(t));
        assert(y.nodes == w.nodes.insert(t, Node::Dir));
        assert(agree_outside(y, w, t)) by {
            assert forall|k: PathView| !k.starts_with(t) implies (#[trigger] y.holds(k))
                == w.holds(k) && (w.holds(k) ==> y.nodes[k] == w.nodes[k]) by {
                assert(k != t);
            }
        }
        lemma_steps_outside(y, s, t, entries, entries.len() as int);
        lemma_agree_chain(x, y, w, t);
    }
}

/// Removing what a copy has made gives the tree that was: after a copy to
/// a free place whose holding directory existed, the plan that deletes what
/// lies at the destination, where it goes through, leaves the tree on which
/// the copy began.
proof fn lemma_copy_undone(w: World, s: PathView, t: PathView, recursive: bool, back: World)
    requires
        w.fit(),
        !w.holds(t),
        grounded(w, t),
        cp_plan(w.facts(), s, t, recursive) is Done,
        w.run(cp_plan(w.facts(), s, t, recursive)->Done_0) is Some,
        ({
            let x = w.run(cp_plan(w.facts(), s, t, recursive)->Done_0)->0;
            delete_plan(x.facts(), t) is Done && x.run(delete_plan(x.facts(), t)->Done_0) == Some(
                back,
            )
        }),
    ensures
        back == w,
{
    let x = w.run(cp_plan(w.facts(), s, t, recursive)->Done_0)->0;
    lemma_cp_outside(w, s, t, recursive);
    lemma_vacant(w, t);
    assert(x.facts().stat.contains_key(t));
    if x.is_file(t) {
        lemma_run_one(x, ActionView::RemoveFile(t));
        assert(back.nodes == x.nodes.remove(t));
        assert forall|k: PathView| #[trigger] back.nodes.dom().contains(k) == w.nodes.dom().contains(
            k,
        ) by {
            if k.starts_with(t) {
                if x.holds(k) {
                    lemma_file_leaf(x, t, k);
                }
                assert(!w.holds(k));
            } else {
                assert(x.holds(k) == w.holds(k));
            }
        }
        assert forall|k: PathView| w.nodes.dom().contains(k) implies #[trigger] back.nodes[k]
            == w.nodes[k] by {
            assert(w.holds(k));
            assert(!k.starts_with(t));
            assert(x.holds(k) == w.holds(k));
        }
    } else {
        lemma_run_one(x, ActionView::RemoveDirAll(t));
        assert(back == x.without(t));
        assert forall|k: PathView| #[trigger] back.nodes.dom().contains(k) == w.nodes.dom().contains(
            k,
        ) by {
            if k.starts_with(t) {
                assert(!w.holds(k));
            } else {
                assert(x.holds(k) == w.holds(k));
            }
        }
        assert forall|k: PathView| w.nodes.dom().contains(k) implies #[trigger] back.nodes[k]
            == w.nodes[k] by {
            assert(w.holds(k));
            assert(!k.starts_with(t));
            assert(x.holds(k) == w.holds(k));
        }
    }
    assert(back.nodes.dom() =~= w.nodes.dom());
    assert(back.nodes =~= w.nodes);
}

/// Removing the directory that a `mkdir` has made gives the tree that was.
proof fn lemma_mkdir_undone(w: World, t: PathView, parents: bool, back: World)
    requires
        w.fit(),
        !w.holds(t),
        parents ==> grounded(w, t),
        mkdir_plan(w.facts(), t, parents) is Done,
        w.run(mkdir_plan(w.facts(), t, parents)->Done_0) is Some,
        w.run(mkdir_plan(w.facts(), t, parents)->Done_0)->0.perform(ActionView::RemoveDir(t))
            == Some(back),
    ensures
        back == w,
{
    let x = w.run(mkdir_plan(w.facts(), t, parents)->Done_0)->0;
    assert(w.facts().stat.contains_key(t));
    assert(w.facts().stat.contains_key(holder(t)));
    if parents {
        lemma_run_one(w, ActionView::CreateDirAll(t));
        lemma_made_one(w, t);
    } else {
        lemma_run_one(w, ActionView::CreateDir(t));
    }
    assert(x.nodes == w.nodes.insert(t, Node::Dir));
    assert(back.nodes =~= w.nodes);
}

/// In a tree, every proper ancestor of an entry is a directory.
proof fn lemma_ancestor_dir(w: World, k: PathView, p: PathView)
    requires
        w.wf(),
        w.holds(k),
        k.starts_with(p),
        k != p,
    ensures
        w.is_dir(p),
    decreases k.len(),
{
    if k.len() == p.len() {
        assert(k.parts =~= p.parts);
    } else {
        assert(w.is_dir(up(k)));
        assert(p.parts.is_prefix_of(up(k).parts));
        if up(k) != p {
            lemma_ancestor_dir(w, up(k), p);
        }
    }
}

/// Whether all that lies at and below `t` in `x` is a copy of what lies at
/// the same place at and below `s` in `w`.
pub open spec fn copied(x: World, w: World, s: PathView, t: PathView) -> bool {
    forall|k: PathView|
        #[trigger] x.holds(k) && k.starts_with(t) ==> w.holds(carried(k, t, s)) && x.nodes[k]
            == w.nodes[carried(k, t, s)]
}

/// Whether the first `n` entries of a listing have their copies in `x`.
pub open spec fn reached(
    x: World,
    s: PathView,
    t: PathView,
    entries: Seq<WalkEntryView>,
    n: int,
) -> bool {
    forall|i: int| 0 <= i < n ==> x.holds(carried((#[trigger] entries[i]).path, s, t))
}

/// One action of the copy of a tree makes the copy of one more entry, and
/// of nothing that is not there to be copied.
proof fn lemma_step_exact(x: World, w: World, s: PathView, t: PathView, e: WalkEntryView)
    requires
        x.fit(),
        w.wf(),
        x.is_dir(t),
        t.absolute,
        agree_outside(x, w, t),
        copied(x, w, s, t),
        e.path.starts_with(s),
        w.holds(e.path),
        e.is_dir <==> w.nodes[e.path] is Dir,
        !t.starts_with(s),
        !s.starts_with(t),
        copy_step(s, t, e) is Some,
        x.perform(copy_step(s, t, e)->0) is Some,
    ensures
        copied(x.perform(copy_step(s, t, e)->0)->0, w, s, t),
        x.perform(copy_step(s, t, e)->0)->0.holds(carried(e.path, s, t)),
        forall|k: PathView| x.holds(k) ==> #[trigger] x.perform(copy_step(s, t, e)->0)->0.holds(k),
{
    let a = copy_step(s, t, e)->0;
    let y = x.perform(a)->0;
    let rel = e.path.strip_prefix(s)->0;
    let target = carried(e.path, s, t);
    assert(t.join(rel).parts =~= target.parts);
    assert(t.join(rel) == target);
    lemma_carried_back(e.path, s, t);
    assert(!e.path.starts_with(t)) by {
        if e.path.starts_with(t) {
            lemma_two_ancestors(e.path, s, t);
        }
    }
    if e.is_dir {
        assert(y == x.made(target));
        assert forall|k: PathView| #[trigger] y.holds(k) && k.starts_with(t) implies w.holds(
            carried(k, t, s),
        ) && y.nodes[k] == w.nodes[carried(k, t, s)] by {
            if !x.holds(k) {
                let m = carried(k, t, s);
                assert(target.starts_with(k));
                assert(m.parts.is_prefix_of(e.path.parts)) by {
                    assert(e.path.parts =~= s.parts + rel.parts);
                    assert(k.parts.skip(t.len() as int).is_prefix_of(rel.parts)) by {
                        assert(target.parts.skip(t.len() as int) =~= rel.parts);
                        assert(k.parts.skip(t.len() as int) =~= target.parts.subrange(
                            t.len() as int,
                            k.len() as int,
                        ));
                    }
                }
                assert(e.path.starts_with(m));
                lemma_ancestor_held(w, e.path, m);
                if m != e.path {
                    lemma_ancestor_dir(w, e.path, m);
                }
            }
        }
        assert(target.starts_with(target));
    } else {
        assert(y.nodes == x.nodes.insert(target, x.nodes[e.path]));
        assert(x.holds(e.path) == w.holds(e.path));
        assert forall|k: PathView| #[trigger] y.holds(k) && k.starts_with(t) implies w.holds(
            carried(k, t, s),
        ) && y.nodes[k] == w.nodes[carried(k, t, s)] by {
            if k != target {
                assert(x.holds(k));
            }
        }
    }
}

/// How far the copy of a tree has come in `x`: nothing has changed but at
/// and below the destination, what lies there is a copy, and the first `n`
/// entries of the listing have theirs.
pub open spec fn copying(
    x: World,
    w: World,
    s: PathView,
    t: PathView,
    entries: Seq<WalkEntryView>,
    n: int,
) -> bool {
    &&& x.fit()
    &&& x.is_dir(t)
    &&& agree_outside(x, w, t)
    &&& copied(x, w, s, t)
    &&& reached(x, s, t, entries, n)
}

/// A listing whose first entries had their copies, and whose next entry got
/// its copy while nothing was taken away, has the copies of one entry more.
proof fn lemma_reached_more(
    x: World,
    y: World,
    s: PathView,
    t: PathView,
    entries: Seq<WalkEntryView>,
    n: int,
)
    requires
        1 <= n <= entries.len(),
        reached(x, s, t, entries, n - 1),
        y.holds(carried(entries[n - 1].path, s, t)),
        forall|k: PathView| x.holds(k) ==> #[trigger] y.holds(k),
    ensures
        reached(y, s, t, entries, n),
{
    assert forall|i: int| 0 <= i < n implies y.holds(
        carried((#[trigger] entries[i]).path, s, t),
    ) by {
        if i < n - 1 {
            assert(x.holds(carried(entries[i].path, s, t)));
        }
    }
}

/// One more action of the copy of a tree carries the copy one entry on.
proof fn lemma_one_more(
    mid: World,
    w: World,
    s: PathView,
    t: PathView,
    entries: Seq<WalkEntryView>,
    n: int,
)
    requires
        copying(mid, w, s, t, entries, n - 1),
        w.wf(),
        t.absolute,
        lists(w.nodes, s, entries),
        !t.starts_with(s),
        !s.starts_with(t),
        1 <= n <= entries.len(),
        copy_step(s, t, entries[n - 1]) is Some,
        mid.perform(copy_step(s, t, entries[n - 1])->0) is Some,
    ensures
        copying(mid.perform(copy_step(s, t, entries[n - 1])->0)->0, w, s, t, entries, n),
{
    let e = entries[n - 1];
    let step = copy_step(s, t, e)->0;
    let y = mid.perform(step)->0;
    assert(e.path.starts_with(s) && w.holds(e.path) && (e.is_dir <==> w.nodes[e.path] is Dir));
    assert(reached(mid, s, t, entries, n - 1));
    lemma_copy_step_below(s, t, e);
    lemma_step_outside(mid, step, t);
    lemma_agree_chain(y, mid, w, t);
    lemma_step_exact(mid, w, s, t, e);
    lemma_reached_more(mid, y, s, t, entries, n);
}

/// The copies of the first `n` entries of the listing of a tree are the
/// copies of these entries and of nothing else.
proof fn lemma_steps_exact(
    x: World,
    w: World,
    s: PathView,
    t: PathView,
    entries: Seq<WalkEntryView>,
    n: int,
)
    requires
        copying(x, w, s, t, entries, 0),
        w.wf(),
        t.absolute,
        lists(w.nodes, s, entries),
        !t.starts_with(s),
        !s.starts_with(t),
        0 <= n <= entries.len(),
        copy_steps(s, t, entries, n) is Some,
        x.run(copy_steps(s, t, entries, n)->0) is Some,
    ensures
        copying(x.run(copy_steps(s, t, entries, n)->0)->0, w, s, t, entries, n),
    decreases n,
{
    if n <= 0 {
        lemma_run_none(x);
    } else {
        let init = copy_steps(s, t, entries, n - 1)->0;
        let step = copy_step(s, t, entries[n - 1])->0;
        assert(copy_steps(s, t, entries, n)->0 == init.push(step));
        assert(init.push(step) =~= init + seq![step]);
        lemma_run_split(x, init, seq![step]);
        let mid = x.run(init)->0;
        lemma_run_one(mid, step);
        lemma_steps_exact(x, w, s, t, entries, n - 1);
        lemma_one_more(mid, w, s, t, entries, n);
    }
}

/// The copy of a tree to a free place is the tree: where it goes through,
/// what lies at and below the destination afterwards is what lies at and
/// below the source, entry for entry, and nothing else has changed.
proof fn lemma_cp_exact(w: World, s: PathView, t: PathView)
    requires
        w.fit(),
        w.is_dir(s),
        !w.holds(t),
        grounded(w, t),
        !t.starts_with(s),
        cp_plan(w.facts(), s, t, true) is Done,
        w.run(cp_plan(w.facts(), s, t, true)->Done_0) is Some,
    ensures
        ({
            let x = w.run(cp_plan(w.facts(), s, t, true)->Done_0)->0;
            &&& x.fit()
            &&& agree_outside(x, w, t)
            &&& forall|k: PathView|
                k.starts_with(t) ==> (#[trigger] x.holds(k)) == w.holds(carried(k, t, s)) && (
                x.holds(k) ==> x.nodes[k] == w.nodes[carried(k, t, s)])
        }),
{
    let plan = cp_plan(w.facts(), s, t, true)->Done_0;
    let x = w.run(plan)->0;
    lemma_cp_outside(w, s, t, true);
    lemma_vacant(w, t);
    assert(!s.starts_with(t));
    assert(w.facts().stat.contains_key(s));
    assert(w.facts().stat.contains_key(t));
    assert(w.facts().walk.contains_key(s));
    let entries = w.facts().walk[s]->0;
    assert((w.lister)(w.nodes, s) == Some(entries));
    assert(lists(w.nodes, s, entries));
    let steps = copy_steps(s, t, entries, entries.len() as int)->0;
    let first = seq![ActionView::CreateDirAll(t)];
    assert(plan == first + steps);
    lemma_run_split(w, first, steps);
    lemma_run_one(w, ActionView::CreateDirAll(t));
    lemma_made_one(w, t);
    let y = w.made(t);
    lemma_perform_fit(w, ActionView::CreateDirAll(t));
    assert(y.nodes == w.nodes.insert(t, Node::Dir));
    assert(agree_outside(y, w, t)) by {
        assert forall|k: PathView| !k.starts_with(t) implies (#[trigger] y.holds(k)) == w.holds(k)
            && (w.holds(k) ==> y.nodes[k] == w.nodes[k]) by {
            assert(k != t);
        }
    }
    assert(copied(y, w, s, t)) by {
        assert forall|k: PathView| #[trigger] y.holds(k) && k.starts_with(t) implies w.holds(
            carried(k, t, s),
        ) && y.nodes[k] == w.nodes[carried(k, t, s)] by {
            if k != t {
                assert(w.holds(k));
            }
            assert(carried(t, t, s).parts =~= s.parts);
            assert(carried(t, t, s) == s);
        }
    }
    assert(reached(y, s, t, entries, 0));
    lemma_steps_exact(y, w, s, t, entries, entries.len() as int);
    assert forall|k: PathView| k.starts_with(t) implies (#[trigger] x.holds(k)) == w.holds(
        carried(k, t, s),
    ) && (x.holds(k) ==> x.nodes[k] == w.nodes[carried(k, t, s)]) by {
        let m = carried(k, t, s);
        lemma_carried_back(k, t, s);
        if w.holds(m) {
            let i = choose|i: int| 0 <= i < entries.len() && (#[trigger] entries[i]).path == m;
            assert(x.holds(carried(entries[i].path, s, t)));
        }
    }
}

/// The path to which an entry is moved aside does not lie at or below the
/// entry.
proof fn lemma_backup_beside(dst: PathView)
    requires
        dst.len() > 0,
    ensures
        !backup_of(dst).starts_with(dst),
{
    reveal_strlit(".backup");
    let b = backup_of(dst);
    if b.starts_with(dst) {
        assert(b.parts.len() == dst.parts.len());
        assert(b.parts[dst.len() - 1] == dst.parts[dst.len() - 1]);
        assert(b.parts[dst.len() - 1] == dst.parts.last() + ".backup"@);
        assert((dst.parts.last() + ".backup"@).len() == dst.parts.last().len() + 7);
    }
}

/// What a move does, by rename or by copying and removing: where it goes
/// through, what lay at and below the source lies at the same place at and
/// below the destination, and nothing else has changed.
proof fn lemma_mv_effect(w: World, s: PathView, t: PathView, cross_device: bool)
    requires
        w.fit(),
        mv_plan(w.facts(), s, t, cross_device) is Done,
        w.run(mv_plan(w.facts(), s, t, cross_device)->Done_0) is Some,
    ensures
        w.holds(s),
        s.len() > 0,
        !w.holds(t),
        w.run(mv_plan(w.facts(), s, t, cross_device)->Done_0)->0.fit(),
        t.starts_with(s) ==> !w.run(mv_plan(w.facts(), s, t, cross_device)->Done_0)->0.holds(t),
        !t.starts_with(s) ==> w.run(mv_plan(w.facts(), s, t, cross_device)->Done_0)->0 == w.rename(
            s,
            t,
        ),
{
    let plan = mv_plan(w.facts(), s, t, cross_device)->Done_0;
    let x = w.run(plan)->0;
    assert(w.facts().stat.contains_key(s));
    assert(w.facts().stat.contains_key(holder(t)));
    assert(w.facts().stat.contains_key(t));
    lemma_run_fit(w, plan);
    let same = w.device(s) == w.device(holder(t));
    if same && !cross_device {
        lemma_run_one(w, ActionView::Rename { from: s, to: t });
    } else {
        let copy = cp_plan(w.facts(), s, t, true)->Done_0;
        let gone = removal(w.kind(s), s);
        assert(plan == copy + gone);
        lemma_run_split(w, copy, gone);
        let mid = w.run(copy)->0;
        lemma_run_fit(w, copy);
        assert(w.facts().walk.contains_key(s));
        if w.kind(s) == EntryKind::File {
            lemma_run_one(w, ActionView::CopyFile { from: s, to: t });
            lemma_run_one(mid, ActionView::RemoveFile(s));
            assert(mid.nodes == w.nodes.insert(t, w.nodes[s]));
            assert(x.nodes == mid.nodes.remove(s));
            assert(s.len() > 0) by {
                if s.len() == 0 {
                    assert(up(t).starts_with(s));
                    lemma_file_leaf(w, s, up(t));
                }
            }
            assert(!t.starts_with(s)) by {
                if t.starts_with(s) {
                    assert(s.parts.is_prefix_of(up(t).parts)) by {
                        if t.len() == s.len() {
                            assert(t.parts =~= s.parts);
                        }
                    }
                    lemma_file_leaf(w, s, up(t));
                }
            }
            let r = w.rename(s, t);
            assert(carried(t, t, s).parts =~= s.parts);
            assert(carried(t, t, s) == s);
            assert forall|k: PathView| #[trigger] x.nodes.dom().contains(k) == r.nodes.dom().contains(
                k,
            ) && (x.nodes.dom().contains(k) ==> x.nodes[k] == r.nodes[k]) by {
                if k.starts_with(t) && w.holds(carried(k, t, s)) {
                    lemma_carried_back(k, t, s);
                    lemma_file_leaf(w, s, carried(k, t, s));
                    assert(k == carried(s, s, t));
                    assert(carried(s, s, t).parts =~= t.parts);
                }
                if w.holds(k) && k.starts_with(s) {
                    lemma_file_leaf(w, s, k);
                }
            }
            assert(x.nodes.dom() =~= r.nodes.dom());
            assert(x.nodes =~= r.nodes);
        } else {
            let first = seq![ActionView::CreateDirAll(t)];
            let entries = w.facts().walk[s]->0;
            let steps = copy_steps(s, t, entries, entries.len() as int)->0;
            assert(copy == first + steps);
            lemma_run_split(w, first, steps);
            lemma_run_one(w, ActionView::CreateDirAll(t));
            lemma_run_one(mid, ActionView::RemoveDirAll(s));
            assert(x == mid.without(s));
            assert(t.len() > 0);
            assert(t.starts_with(up(t))) by {
                assert(up(t).parts.is_prefix_of(t.parts));
            }
            assert(grounded(w, t));
            if !t.starts_with(s) {
                lemma_cp_exact(w, s, t);
                lemma_vacant(w, t);
                let r = w.rename(s, t);
                assert forall|k: PathView| #[trigger] x.nodes.dom().contains(k)
                    == r.nodes.dom().contains(k) && (x.nodes.dom().contains(k) ==> x.nodes[k]
                    == r.nodes[k]) by {
                    if k.starts_with(t) {
                        assert(mid.holds(k) == w.holds(carried(k, t, s)));
                        if k.starts_with(s) {
                            lemma_two_ancestors(k, s, t);
                        }
                        if w.holds(k) {
                            assert(!k.starts_with(t));
                        }
                    } else {
                        assert(mid.holds(k) == w.holds(k));
                    }
                }
                assert(x.nodes.dom() =~= r.nodes.dom());
                assert(x.nodes =~= r.nodes);
            }
        }
    }
}

/// A move and the move back give the tree that was, however each of them
/// is carried out.
proof fn lemma_move_undone(w: World, s: PathView, t: PathView, cross_device: bool, back: World)
    requires
        w.fit(),
        mv_plan(w.facts(), s, t, cross_device) is Done,
        w.run(mv_plan(w.facts(), s, t, cross_device)->Done_0) is Some,
        ({
            let x = w.run(mv_plan(w.facts(), s, t, cross_device)->Done_0)->0;
            mv_plan(x.facts(), t, s, false) is Done && x.run(
                mv_plan(x.facts(), t, s, false)->Done_0,
            ) == Some(back)
        }),
    ensures
        back == w,
{
    let x = w.run(mv_plan(w.facts(), s, t, cross_device)->Done_0)->0;
    lemma_mv_effect(w, s, t, cross_device);
    assert(x.facts().stat.contains_key(t));
    assert(x.holds(t));
    lemma_vacant(w, t);
    assert(!s.starts_with(t));
    lemma_mv_effect(x, t, s, false);
    lemma_rename_back(w, s, t);
}

/// Whether the operation is one whose undo metadata can restore the tree.
/// It cannot for a `mkdir` for which an existing entry was moved aside,
/// since the metadata does not say where that entry went; nor where a
/// `mkdir` with `parents` or the copy of a directory has to create the
/// directory that is to hold its destination, since the metadata names the
/// destination alone; nor where the name that the `hash8` policy has made
/// for the destination is taken, since the policy does not look there. The
/// operation is taken as normalization leaves it: a `trash` names no
/// destination.
pub open spec fn followed(w: World, op: NormalizedView, d: DecisionView) -> bool {
    &&& !(op.op is Mkdir && d.backup is Some)
    &&& op.op is Trash ==> op.resolved_dst is None
    &&& d.backup is None ==> (d.final_dst matches Some(t) ==> !w.holds(t))
    &&& (op.op matches OperationView::Mkdir { parents: true, .. }) || (op.op is Copy
        && op.resolved_src is Some && w.is_dir(op.resolved_src->0)) ==> (
    d.final_dst matches Some(t) ==> grounded(w, t))
}

/// The undo of an operation for which nothing was moved aside.
proof fn lemma_undo_plain(
    w: World,
    op: NormalizedView,
    d: DecisionView,
    policy: CollisionPolicy,
    ts: Timestamp,
    back: World,
)
    requires
        w.fit(),
        followed(w, op, d),
        d.backup is None,
        d.final_dst is Some ==> !w.holds(d.final_dst->0),
        op.resolved_dst is None ==> d.final_dst is None,
        primary_plan(w.facts(), op, d) is Done,
        w.run(primary_plan(w.facts(), op, d)->Done_0) is Some,
        undo_entry(
            w.run(primary_plan(w.facts(), op, d)->Done_0)->0,
            success_entry(op, d, policy, ts),
        ) == Some(back),
    ensures
        back == w,
{
    let e = success_entry(op, d, policy, ts);
    let w1 = w.run(primary_plan(w.facts(), op, d)->Done_0)->0;
    let first = revert_plan(w1.facts(), e, 0)->Done_0;
    let mid = w1.run(first)->0;
    lemma_run_none(mid);
    match op.op {
        OperationView::Mkdir { parents, .. } => {
            let t = d.final_dst->0;
            lemma_run_one(w1, ActionView::RemoveDir(t));
            lemma_mkdir_undone(w, t, parents, mid);
        },
        OperationView::Copy { recursive, .. } => {
            let s = op.resolved_src->0;
            let t = d.final_dst->0;
            assert(w.facts().stat.contains_key(s));
            if !w.is_dir(s) {
                lemma_run_one(w, ActionView::CopyFile { from: s, to: t });
            }
            lemma_copy_undone(w, s, t, recursive, mid);
        },
        OperationView::Move { cross_device, .. } => {
            let s = op.resolved_src->0;
            let t = d.final_dst->0;
            lemma_move_undone(w, s, t, cross_device, mid);
        },
        _ => {
            let s = op.resolved_src->0;
            let t = recorded_dst(op, d)->0;
            lemma_move_undone(w, s, t, false, mid);
        },
    }
}

/// The undo of an operation for which the existing destination was moved
/// aside.
proof fn lemma_undo_with_backup(
    w: World,
    op: NormalizedView,
    d: DecisionView,
    policy: CollisionPolicy,
    ts: Timestamp,
    after: World,
    back: World,
)
    requires
        w.fit(),
        followed(w, op, d),
        d.backup == Some(backup_of(op.resolved_dst->0)),
        d.final_dst == op.resolved_dst,
        op.resolved_dst is Some,
        apply_op(w, op, d) == Some(after),
        undo_entry(after, success_entry(op, d, policy, ts)) == Some(back),
    ensures
        back == w,
{
    let e = success_entry(op, d, policy, ts);
    let dst = op.resolved_dst->0;
    let b = d.backup->0;
    let aside = backup_plan(w.facts(), op, d)->Done_0;
    let w1 = w.run(aside)->0;
    assert(backup_plan(w.facts(), op, d) == mv_plan(w.facts(), dst, b, false));
    lemma_mv_effect(w, dst, b, false);
    lemma_backup_beside(dst);
    lemma_rename_back(w, dst, b);
    lemma_vacant(w, b);
    assert(w1 == w.rename(dst, b));
    assert(!w1.holds(dst));
    let first = revert_plan(after.facts(), e, 0)->Done_0;
    let mid = after.run(first)->0;
    let second = revert_plan(mid.facts(), e, 1)->Done_0;
    match op.op {
        OperationView::Copy { recursive, .. } => {
            let s = op.resolved_src->0;
            assert(primary_plan(w1.facts(), op, d) == cp_plan(w1.facts(), s, dst, recursive));
            assert(e.undo == Some(UndoView::CopyWithOverwrite { created_dst: dst, backup_path: b }));
            assert(revert_plan(after.facts(), e, 0) == delete_plan(after.facts(), dst));
            assert(grounded(w1, dst)) by {
                assert(w.is_dir(up(dst)));
                assert(!up(dst).starts_with(dst));
                assert(!up(dst).starts_with(b));
                lemma_rename_aside(w, dst, b, up(dst));
            }
            lemma_copy_undone(w1, s, dst, recursive, mid);
            assert(revert_plan(mid.facts(), e, 1) == mv_plan(mid.facts(), b, dst, false));
            lemma_move_undone(w, dst, b, false, back);
        },
        OperationView::Move { cross_device, .. } => {
            let s = op.resolved_src->0;
            assert(primary_plan(w1.facts(), op, d) == mv_plan(w1.facts(), s, dst, cross_device));
            assert(e.undo == Some(UndoView::MoveWithOverwrite { original_src: s, backup_path: b }));
            assert(e.dst == Some(dst));
            assert(revert_plan(after.facts(), e, 0) == mv_plan(after.facts(), dst, s, false));
            lemma_move_undone(w1, s, dst, cross_device, mid);
            assert(revert_plan(mid.facts(), e, 1) == mv_plan(mid.facts(), b, dst, false));
            lemma_move_undone(w, dst, b, false, back);
        },
        OperationView::Rename { .. } => {
            let s = op.resolved_src->0;
            assert(primary_plan(w1.facts(), op, d) == mv_plan(w1.facts(), s, dst, false));
            assert(e.undo == Some(UndoView::MoveWithOverwrite { original_src: s, backup_path: b }));
            assert(e.dst == Some(dst));
            assert(revert_plan(after.facts(), e, 0) == mv_plan(after.facts(), dst, s, false));
            lemma_move_undone(w1, s, dst, false, mid);
            assert(revert_plan(mid.facts(), e, 1) == mv_plan(mid.facts(), b, dst, false));
            lemma_move_undone(w, dst, b, false, back);
        },
        _ => {},
    }
}

/// Undo restores. Let the collision policy decide for an operation on a
/// tree, let the operation be applied under that decision, and let all of
/// it go through. Then the undo metadata of its `Applied` record, applied
/// to the tree that the operation left, where it goes through, gives back
/// the tree on which the operation began: the same entries at the same
/// places with the same bytes.
///
/// This holds of every kind of operation, however it was carried out: a
/// move by one rename or, across volumes or on request, by copying and
/// removing; the copy of a file or of a whole tree; with or without an
/// existing destination moved aside first.
pub proof fn lemma_undo_restores(
    w: World,
    op: NormalizedView,
    policy: CollisionPolicy,
    allow_overwrite: bool,
    d: DecisionView,
    ts: Timestamp,
    after: World,
    back: World,
)
    requires
        w.fit(),
        followed(w, op, d),
        decide(w.facts(), op, policy, allow_overwrite) == OutcomeView::Done(d),
        apply_op(w, op, d) == Some(after),
        undo_entry(after, success_entry(op, d, policy, ts)) == Some(back),
    ensures
        back == w,
{
    lemma_decided(w, op, policy, allow_overwrite, d);
    if d.backup is Some {
        lemma_undo_with_backup(w, op, d, policy, ts, after, back);
    } else {
        lemma_run_none(w);
        lemma_undo_plain(w, op, d, policy, ts, back);
    }
}

/// Nothing of the second volume is mounted at or below a place where
/// nothing lies.
proof fn lemma_free_spans_nothing(w: World, t: PathView)
    requires
        w.fit(),
        !w.holds(t),
    ensures
        !w.spans(t),
        t.len() > 0 ==> w.device(t) == w.device(up(t)),
{
    lemma_vacant(w, t);
    if let Some(m) = w.mount {
        assert(w.holds(m));
        if t.len() > 0 && t.starts_with(m) {
            assert(m.parts.is_prefix_of(up(t).parts)) by {
                if m.len() == t.len() {
                    assert(m.parts =~= t.parts);
                }
            }
        }
        if t.len() > 0 && up(t).starts_with(m) {
            assert(m.parts.is_prefix_of(t.parts));
        }
    }
}

/// The directory that a `mkdir` has made can be removed.
proof fn lemma_mkdir_goes_back(w: World, t: PathView, parents: bool)
    requires
        w.fit(),
        !w.holds(t),
        parents ==> grounded(w, t),
        mkdir_plan(w.facts(), t, parents) is Done,
        w.run(mkdir_plan(w.facts(), t, parents)->Done_0) is Some,
    ensures
        w.run(mkdir_plan(w.facts(), t, parents)->Done_0)->0.perform(ActionView::RemoveDir(t))
            is Some,
{
    let x = w.run(mkdir_plan(w.facts(), t, parents)->Done_0)->0;
    assert(w.facts().stat.contains_key(t));
    assert(w.facts().stat.contains_key(holder(t)));
    if parents {
        lemma_run_one(w, ActionView::CreateDirAll(t));
        lemma_made_one(w, t);
    } else {
        lemma_run_one(w, ActionView::CreateDir(t));
    }
    assert(x.nodes == w.nodes.insert(t, Node::Dir));
    lemma_free_spans_nothing(w, t);
    lemma_vacant(w, t);
    assert forall|k: PathView| #[trigger] x.holds(k) && k.starts_with(t) implies k == t by {
        if k != t {
            assert(w.holds(k));
        }
    }
}

/// What a copy has made can be deleted.
proof fn lemma_copy_goes_back(w: World, s: PathView, t: PathView, recursive: bool)
    requires
        w.fit(),
        !w.holds(t),
        grounded(w, t),
        cp_plan(w.facts(), s, t, recursive) is Done,
        w.run(cp_plan(w.facts(), s, t, recursive)->Done_0) is Some,
    ensures
        ({
            let x = w.run(cp_plan(w.facts(), s, t, recursive)->Done_0)->0;
            delete_plan(x.facts(), t) is Done && x.run(delete_plan(x.facts(), t)->Done_0) is Some
        }),
{
    let x = w.run(cp_plan(w.facts(), s, t, recursive)->Done_0)->0;
    lemma_cp_outside(w, s, t, recursive);
    lemma_free_spans_nothing(w, t);
    assert(x.facts().stat.contains_key(t));
    if x.is_file(t) {
        lemma_run_one(x, ActionView::RemoveFile(t));
    } else {
        lemma_run_one(x, ActionView::RemoveDirAll(t));
    }
}

/// An entry that was moved to a place on the volume of the directory that
/// held it, and not below itself, can be moved back, by one rename.
proof fn lemma_move_goes_back(w: World, s: PathView, t: PathView, cross_device: bool)
    requires
        w.fit(),
        mv_plan(w.facts(), s, t, cross_device) is Done,
        w.run(mv_plan(w.facts(), s, t, cross_device)->Done_0) is Some,
        !t.starts_with(s),
        w.device(t) == w.device(up(s)),
    ensures
        ({
            let x = w.run(mv_plan(w.facts(), s, t, cross_device)->Done_0)->0;
            mv_plan(x.facts(), t, s, false) is Done && x.run(
                mv_plan(x.facts(), t, s, false)->Done_0,
            ) is Some
        }),
{
    let x = w.run(mv_plan(w.facts(), s, t, cross_device)->Done_0)->0;
    lemma_mv_effect(w, s, t, cross_device);
    lemma_rename_back(w, s, t);
    lemma_vacant(w, t);
    lemma_free_spans_nothing(w, t);
    assert(x == w.rename(s, t));
    assert(w.is_dir(up(s)));
    assert(!up(s).starts_with(s));
    lemma_rename_aside(w, s, t, up(s));
    assert(x.is_dir(up(s)));
    assert(holder(s) == up(s));
    assert(x.facts().stat.contains_key(t));
    assert(x.facts().stat.contains_key(s));
    assert(x.facts().stat.contains_key(up(s)));
    assert(t.len() > 0) by {
        if t.len() == 0 {
            assert(s.starts_with(t));
        }
    }
    lemma_run_one(x, ActionView::Rename { from: t, to: s });
}

/// Whether the way back of an operation is short: what it moves comes to
/// lie on the volume of the directory that held it, and not below itself,
/// so that one rename moves it back.
pub open spec fn direct(w: World, op: NormalizedView, d: DecisionView) -> bool {
    !(op.op is Mkdir) && !(op.op is Copy) ==> (op.resolved_src matches Some(s) ==> (recorded_dst(
        op,
        d,
    ) matches Some(t) ==> !t.starts_with(s) && w.device(t) == w.device(up(s))))
}

/// Undo goes through. Let the collision policy decide for an operation on
/// a tree, and let the operation be applied under that decision and go
/// through. Where the way back is short, the undo metadata of its `Applied`
/// record, applied to the tree that the operation left, goes through too,
/// and gives back the tree on which the operation began.
pub proof fn lemma_undo_goes_through(
    w: World,
    op: NormalizedView,
    policy: CollisionPolicy,
    allow_overwrite: bool,
    d: DecisionView,
    ts: Timestamp,
    after: World,
)
    requires
        w.fit(),
        followed(w, op, d),
        direct(w, op, d),
        decide(w.facts(), op, policy, allow_overwrite) == OutcomeView::Done(d),
        apply_op(w, op, d) == Some(after),
    ensures
        undo_entry(after, success_entry(op, d, policy, ts)) == Some(w),
{
    lemma_decided(w, op, policy, allow_overwrite, d);
    let e = success_entry(op, d, policy, ts);
    let w1 = w.run(backup_plan(w.facts(), op, d)->Done_0)->0;
    if d.backup is Some {
        let dst = op.resolved_dst->0;
        let b = d.backup->0;
        assert(backup_plan(w.facts(), op, d) == mv_plan(w.facts(), dst, b, false));
        lemma_mv_effect(w, dst, b, false);
        lemma_backup_beside(dst);
        lemma_rename_back(w, dst, b);
        lemma_free_spans_nothing(w, b);
        assert(up(b) == up(dst)) by {
            assert(up(b).parts =~= up(dst).parts);
        }
        lemma_move_goes_back(w, dst, b, false);
        assert(grounded(w1, dst)) by {
            assert(w.is_dir(up(dst)));
            assert(!up(dst).starts_with(dst));
            lemma_rename_aside(w, dst, b, up(dst));
        }
        match op.op {
            OperationView::Copy { recursive, .. } => {
                let s = op.resolved_src->0;
                assert(primary_plan(w1.facts(), op, d) == cp_plan(w1.facts(), s, dst, recursive));
                assert(revert_plan(after.facts(), e, 0) == delete_plan(after.facts(), dst));
                lemma_copy_goes_back(w1, s, dst, recursive);
                let mid = after.run(delete_plan(after.facts(), dst)->Done_0)->0;
                lemma_copy_undone(w1, s, dst, recursive, mid);
                assert(revert_plan(mid.facts(), e, 1) == mv_plan(mid.facts(), b, dst, false));
            },
            OperationView::Move { cross_device, .. } => {
                let s = op.resolved_src->0;
                assert(primary_plan(w1.facts(), op, d) == mv_plan(w1.facts(), s, dst, cross_device));
                assert(e.dst == Some(dst));
                assert(revert_plan(after.facts(), e, 0) == mv_plan(after.facts(), dst, s, false));
                lemma_move_goes_back(w1, s, dst, cross_device);
                let mid = after.run(mv_plan(after.facts(), dst, s, false)->Done_0)->0;
                lemma_move_undone(w1, s, dst, cross_device, mid);
                assert(revert_plan(mid.facts(), e, 1) == mv_plan(mid.facts(), b, dst, false));
            },
            OperationView::Rename { .. } => {
                let s = op.resolved_src->0;
                assert(primary_plan(w1.facts(), op, d) == mv_plan(w1.facts(), s, dst, false));
                assert(e.dst == Some(dst));
                assert(revert_plan(after.facts(), e, 0) == mv_plan(after.facts(), dst, s, false));
                lemma_move_goes_back(w1, s, dst, false);
                let mid = after.run(mv_plan(after.facts(), dst, s, false)->Done_0)->0;
                lemma_move_undone(w1, s, dst, false, mid);
                assert(revert_plan(mid.facts(), e, 1) == mv_plan(mid.facts(), b, dst, false));
            },
            _ => {},
        }
    } else {
        lemma_run_none(w);
        assert(w1 == w);
        match op.op {
            OperationView::Mkdir { parents, .. } => {
                let t = d.final_dst->0;
                lemma_mkdir_goes_back(w, t, parents);
                lemma_run_one(after, ActionView::RemoveDir(t));
                lemma_run_none(after.perform(ActionView::RemoveDir(t))->0);
            },
            OperationView::Copy { recursive, .. } => {
                let s = op.resolved_src->0;
                let t = d.final_dst->0;
                assert(w.facts().stat.contains_key(s));
                if !w.is_dir(s) {
                    lemma_run_one(w, ActionView::CopyFile { from: s, to: t });
                }
                lemma_copy_goes_back(w, s, t, recursive);
                lemma_run_none(after.run(delete_plan(after.facts(), t)->Done_0)->0);
            },
            OperationView::Move { cross_device, .. } => {
                let s = op.resolved_src->0;
                let t = d.final_dst->0;
                lemma_move_goes_back(w, s, t, cross_device);
                lemma_run_none(after.run(mv_plan(after.facts(), t, s, false)->Done_0)->0);
            },
            _ => {
                let s = op.resolved_src->0;
                let t = recorded_dst(op, d)->0;
                lemma_move_goes_back(w, s, t, false);
                lemma_run_none(after.run(mv_plan(after.facts(), t, s, false)->Done_0)->0);
            },
        }
    }
    let back = undo_entry(after, e)->0;
    assert(undo_entry(after, e) is Some);
    lemma_undo_restores(w, op, policy, allow_overwrite, d, ts, after, back);
}

/// What the manager keeps of an operation that failed after its existing
/// destination was moved aside puts the destination back: the undo metadata
/// of its `Fail` record, applied to the tree that the move aside left, where
/// it goes through, gives back the tree on which the operation began.
pub proof fn lemma_backup_put_back(
    w: World,
    op: NormalizedView,
    d: DecisionView,
    ts: Timestamp,
    back: World,
)
    requires
        w.fit(),
        op.resolved_dst is Some,
        d.backup is Some,
        backup_plan(w.facts(), op, d) is Done,
        w.run(backup_plan(w.facts(), op, d)->Done_0) is Some,
        undo_entry(
            w.run(backup_plan(w.facts(), op, d)->Done_0)->0,
            failure_entry(op, d.backup, ts),
        ) == Some(back),
    ensures
        back == w,
{
    let dst = op.resolved_dst->0;
    let b = d.backup->0;
    let e = failure_entry(op, d.backup, ts);
    let w1 = w.run(backup_plan(w.facts(), op, d)->Done_0)->0;
    assert(revert_plan(w1.facts(), e, 0) == mv_plan(w1.facts(), b, dst, false));
    let mid = w1.run(revert_plan(w1.facts(), e, 0)->Done_0)->0;
    lemma_run_none(mid);
    lemma_move_undone(w, dst, b, false, mid);
}

/// An operation that goes through keeps the model in order.
pub proof fn lemma_apply_fit(w: World, op: NormalizedView, d: DecisionView)
    requires
        w.fit(),
        apply_op(w, op, d) is Some,
    ensures
        apply_op(w, op, d)->0.fit(),
        apply_op(w, op, d)->0.mount == w.mount,
{
    let aside = backup_plan(w.facts(), op, d)->Done_0;
    lemma_run_fit(w, aside);
    let w1 = w.run(aside)->0;
    let main = primary_plan(w1.facts(), op, d)->Done_0;
    lemma_run_fit(w1, main);
}

/// One operation of a transaction as it was applied: the operation, what
/// the collision policy decided for it, and the time of its record.
pub struct AppliedOp {
    pub op: NormalizedView,
    pub d: DecisionView,
    pub ts: Timestamp,
}

/// The tree after the operations of a transaction, applied in order, each
/// under what the collision policy decides for it on the tree that the
/// operations before it have left. None if an operation does not go
/// through, or is one whose undo metadata cannot restore the tree.
pub open spec fn apply_all(
    w: World,
    steps: Seq<AppliedOp>,
    policy: CollisionPolicy,
    allow_overwrite: bool,
) -> Option<World>
    decreases steps.len(),
{
    if steps.len() == 0 {
        Some(w)
    } else if !followed(w, steps[0].op, steps[0].d) || decide(
        w.facts(),
        steps[0].op,
        policy,
        allow_overwrite,
    ) != OutcomeView::Done(steps[0].d) {
        None
    } else {
        match apply_op(w, steps[0].op, steps[0].d) {
            Some(next) => apply_all(next, steps.drop_first(), policy, allow_overwrite),
            None => None,
        }
    }
}

/// Operations that go through keep the model in order.
proof fn lemma_apply_all_fit(
    w: World,
    steps: Seq<AppliedOp>,
    policy: CollisionPolicy,
    allow_overwrite: bool,
)
    requires
        w.fit(),
        apply_all(w, steps, policy, allow_overwrite) is Some,
    ensures
        apply_all(w, steps, policy, allow_overwrite)->0.fit(),
    decreases steps.len(),
{
    if steps.len() > 0 {
        lemma_apply_fit(w, steps[0].op, steps[0].d);
        lemma_apply_all_fit(
            apply_op(w, steps[0].op, steps[0].d)->0,
            steps.drop_first(),
            policy,
            allow_overwrite,
        );
    }
}

/// The `Applied` records of the operations of a transaction, in order.
pub open spec fn records_of(steps: Seq<AppliedOp>, policy: CollisionPolicy) -> Seq<EntryView> {
    Seq::new(steps.len(), |i: int| success_entry(steps[i].op, steps[i].d, policy, steps[i].ts))
}

/// The tree after the undo metadata of the records was applied, record
/// after record in the order given.
pub open spec fn undo_all(w: World, entries: Seq<EntryView>) -> Option<World>
    decreases entries.len(),
{
    if entries.len() == 0 {
        Some(w)
    } else {
        match undo_entry(w, entries[0]) {
            Some(next) => undo_all(next, entries.drop_first()),
            None => None,
        }
    }
}

/// Undoing records one after the other is undoing the first ones, then the
/// others.
proof fn lemma_undo_all_split(w: World, a: Seq<EntryView>, b: Seq<EntryView>)
    ensures
        undo_all(w, a + b) == match undo_all(w, a) {
            Some(mid) => undo_all(mid, b),
            None => None,
        },
    decreases a.len(),
{
    if a.len() == 0 {
        assert(a + b =~= b);
    } else {
        assert((a + b)[0] == a[0]);
        assert((a + b).drop_first() =~= a.drop_first() + b);
        if let Some(next) = undo_entry(w, a[0]) {
            lemma_undo_all_split(next, a.drop_first(), b);
        }
    }
}

/// What it means that the operations of a transaction went through: the
/// first did, and then the others.
proof fn lemma_apply_all_step(
    w: World,
    steps: Seq<AppliedOp>,
    policy: CollisionPolicy,
    allow_overwrite: bool,
    after: World,
)
    requires
        steps.len() > 0,
        apply_all(w, steps, policy, allow_overwrite) == Some(after),
    ensures
        followed(w, steps[0].op, steps[0].d),
        decide(w.facts(), steps[0].op, policy, allow_overwrite) == OutcomeView::Done(steps[0].d),
        apply_op(w, steps[0].op, steps[0].d) is Some,
        apply_all(
            apply_op(w, steps[0].op, steps[0].d)->0,
            steps.drop_first(),
            policy,
            allow_overwrite,
        ) == Some(after),
{
}

/// The records of a transaction, the last one first, are the records of all
/// operations but the first, the last one first, and then the record of the
/// first.
proof fn lemma_records_reversed(steps: Seq<AppliedOp>, policy: CollisionPolicy)
    requires
        steps.len() > 0,
    ensures
        records_of(steps, policy).reverse() == records_of(steps.drop_first(), policy).reverse()
            + seq![success_entry(steps[0].op, steps[0].d, policy, steps[0].ts)],
{
    let all = records_of(steps, policy).reverse();
    let tail = records_of(steps.drop_first(), policy).reverse();
    let e = success_entry(steps[0].op, steps[0].d, policy, steps[0].ts);
    assert(all.len() == tail.len() + 1);
    assert forall|i: int| 0 <= i < all.len() implies all[i] == (tail + seq![e])[i] by {
        if i < tail.len() {
            assert(steps.drop_first()[steps.len() - 2 - i] == steps[steps.len() - 1 - i]);
        }
    }
    assert(all =~= tail + seq![e]);
}

/// Undoing one record is undoing a list of one record.
proof fn lemma_undo_single(w: World, e: EntryView)
    ensures
        undo_all(w, seq![e]) == undo_entry(w, e),
{
    let one = seq![e];
    assert(one[0] == e);
    assert(one.drop_first() =~= Seq::<EntryView>::empty());
    if let Some(next) = undo_entry(w, e) {
        assert(undo_all(next, one.drop_first()) == Some(next));
    }
}

/// Rollback restores. Let the operations of a transaction be applied in
/// order and all go through. Then the undo metadata of their `Applied`
/// records, applied to the tree that they left, the last record first,
/// where all of it goes through, gives back the tree on which the
/// transaction began. This is what a rollback does with the records that
/// the transaction manager has kept, and what a later undo does with the
/// same records read from the journal.
pub proof fn lemma_rollback_restores(
    w: World,
    steps: Seq<AppliedOp>,
    policy: CollisionPolicy,
    allow_overwrite: bool,
    after: World,
    back: World,
)
    requires
        w.fit(),
        apply_all(w, steps, policy, allow_overwrite) == Some(after),
        undo_all(after, records_of(steps, policy).reverse()) == Some(back),
    ensures
        back == w,
    decreases steps.len(),
{
    if steps.len() == 0 {
        assert(records_of(steps, policy).reverse() =~= Seq::<EntryView>::empty());
    } else {
        let first = steps[0];
        let rest = steps.drop_first();
        lemma_apply_all_step(w, steps, policy, allow_overwrite, after);
        let next = apply_op(w, first.op, first.d)->0;
        lemma_apply_fit(w, first.op, first.d);
        let e = success_entry(first.op, first.d, policy, first.ts);
        lemma_records_reversed(steps, policy);
        lemma_undo_all_split(after, records_of(rest, policy).reverse(), seq![e]);
        let mid = undo_all(after, records_of(rest, policy).reverse())->0;
        lemma_rollback_restores(next, rest, policy, allow_overwrite, after, mid);
        lemma_undo_single(next, e);
        lemma_undo_restores(w, first.op, policy, allow_overwrite, first.d, first.ts, next, back);
    }
}

/// Rollback goes through. Let the operations of a transaction be applied
/// in order and all go through. Where the way back of each is short, the
/// undo metadata of their `Applied` records, applied to the tree that they
/// left, the last record first, goes through too, and gives back the tree
/// on which the transaction began.
pub proof fn lemma_rollback_goes_through(
    w: World,
    steps: Seq<AppliedOp>,
    policy: CollisionPolicy,
    allow_overwrite: bool,
    after: World,
)
    requires
        w.fit(),
        apply_all(w, steps, policy, allow_overwrite) == Some(after),
        forall|i: int| 0 <= i < steps.len() ==> direct(w, (#[trigger] steps[i]).op, steps[i].d),
    ensures
        undo_all(after, records_of(steps, policy).reverse()) == Some(w),
    decreases steps.len(),
{
    if steps.len() == 0 {
        assert(records_of(steps, policy).reverse() =~= Seq::<EntryView>::empty());
    } else {
        let first = steps[0];
        let rest = steps.drop_first();
        lemma_apply_all_step(w, steps, policy, allow_overwrite, after);
        let next = apply_op(w, first.op, first.d)->0;
        lemma_apply_fit(w, first.op, first.d);
        assert forall|i: int| 0 <= i < rest.len() implies direct(
            next,
            (#[trigger] rest[i]).op,
            rest[i].d,
        ) by {
            assert(rest[i] == steps[i + 1]);
            assert(direct(w, steps[i + 1].op, steps[i + 1].d));
        }
        let e = success_entry(first.op, first.d, policy, first.ts);
        lemma_records_reversed(steps, policy);
        lemma_undo_all_split(after, records_of(rest, policy).reverse(), seq![e]);
        lemma_rollback_goes_through(next, rest, policy, allow_overwrite, after);
        lemma_undo_single(next, e);
        lemma_undo_goes_through(w, first.op, policy, allow_overwrite, first.d, first.ts, next);
    }
}

/// Rollback after a failure that left a backup. Let the operations of a
/// transaction be applied in order and all go through, and let the next
/// operation fail when its existing destination has been moved aside and
/// nothing else of it has been done. Then the undo metadata of its `Fail`
/// record and after it that of the `Applied` records, the last one first,
/// where all of it goes through, gives back the tree on which the
/// transaction began.
pub proof fn lemma_failed_rollback_restores(
    w: World,
    steps: Seq<AppliedOp>,
    policy: CollisionPolicy,
    allow_overwrite: bool,
    after: World,
    op: NormalizedView,
    d: DecisionView,
    ts: Timestamp,
    back: World,
)
    requires
        w.fit(),
        apply_all(w, steps, policy, allow_overwrite) == Some(after),
        op.resolved_dst is Some,
        d.backup is Some,
        backup_plan(after.facts(), op, d) is Done,
        after.run(backup_plan(after.facts(), op, d)->Done_0) is Some,
        undo_all(
            after.run(backup_plan(after.facts(), op, d)->Done_0)->0,
            seq![failure_entry(op, d.backup, ts)] + records_of(steps, policy).reverse(),
        ) == Some(back),
    ensures
        back == w,
{
    let left = after.run(backup_plan(after.facts(), op, d)->Done_0)->0;
    let e = failure_entry(op, d.backup, ts);
    lemma_apply_all_fit(w, steps, policy, allow_overwrite);
    lemma_undo_all_split(left, seq![e], records_of(steps, policy).reverse());
    lemma_undo_single(left, e);
    let mid = undo_entry(left, e)->0;
    lemma_backup_put_back(after, op, d, ts, mid);
    lemma_rollback_restores(w, steps, policy, allow_overwrite, after, back);
}

/// What the model answers to a query.
pub open spec fn answer(w: World, q: QueryView) -> ReplyView {
    match q {
        QueryView::Canonical(p) => ReplyView::Canonical(w.facts().canonical[p]),
        QueryView::Stat(p) => ReplyView::Stat(w.facts().stat[p]),
        QueryView::Walk(p) => ReplyView::Walk(w.facts().walk[p]),
        QueryView::Content(p) => ReplyView::Content(w.facts().content[p]),
    }
}

/// What the model does with a request of a job: the tree after it, and the
/// reply.
pub open spec fn serve(w: World, step: JobStepView) -> (World, ReplyView) {
    match step {
        JobStepView::Query(q) => (w, answer(w, q)),
        JobStepView::Act(a) => match w.perform(a) {
            Some(next) => (next, ReplyView::Performed(0)),
            None => (w, ReplyView::Refused(Seq::empty())),
        },
        _ => (w, ReplyView::Performed(0)),
    }
}

/// A job served by the model for at most `fuel` requests: the job, its
/// last step, and the tree, when the job has ended or the requests are used
/// up.
pub open spec fn drive(job: JobView, step: JobStepView, w: World, fuel: nat) -> (
    JobView,
    JobStepView,
    World,
)
    decreases fuel,
{
    if fuel == 0 || step is Completed || step is Failed {
        (job, step, w)
    } else {
        let (next_world, reply) = serve(w, step);
        let (next_job, next_step) = job.resume(reply);
        drive(next_job, next_step, next_world, (fuel - 1) as nat)
    }
}

/// The tree and the decision with which stage `k` of a piece of work
/// begins, if every stage before it is planned from the tree as it is and
/// goes through.
pub open spec fn stage_start(work: WorkView, w0: World, k: int) -> Option<
    (World, Option<DecisionView>),
>
    decreases k,
{
    if k <= 0 {
        Some((w0, None))
    } else {
        match stage_start(work, w0, k - 1) {
            None => None,
            Some((w, decision)) => match stage_plan(w.facts(), work, k - 1, decision) {
                OutcomeView::Done(StagePlan::Decided(d)) => Some((w, Some(d))),
                OutcomeView::Done(StagePlan::Script(plan)) => match w.run(plan) {
                    Some(next) => Some((next, decision)),
                    None => None,
                },
                _ => None,
            },
        }
    }
}

/// Performing a plan is performing its first part, then the rest.
proof fn lemma_run_split(w: World, a: Seq<ActionView>, b: Seq<ActionView>)
    ensures
        w.run(a + b) == match w.run(a) {
            Some(mid) => mid.run(b),
            None => None,
        },
    decreases a.len(),
{
    if a.len() == 0 {
        assert(a + b =~= b);
    } else {
        assert((a + b)[0] == a[0]);
        assert((a + b).drop_first() =~= a.drop_first() + b);
        if let Some(next) = w.perform(a[0]) {
            lemma_run_split(next, a.drop_first(), b);
        }
    }
}

/// Performing one more action of a plan.
proof fn lemma_run_next(w: World, plan: Seq<ActionView>, i: int)
    requires
        0 <= i < plan.len(),
        w.run(plan.take(i)) is Some,
    ensures
        w.run(plan.take(i + 1)) == w.run(plan.take(i))->0.perform(plan[i]),
{
    assert(plan.take(i + 1) =~= plan.take(i) + seq![plan[i]]);
    lemma_run_split(w, plan.take(i), seq![plan[i]]);
    lemma_run_one(w.run(plan.take(i))->0, plan[i]);
}

/// How a job and the tree that serves it stand to the tree on which the
/// job began: what the job knows is true of the tree, and tree and decision
/// are those with which its stage begins, as far as the plan of the stage
/// has been performed. A job that has failed has left the tree as its
/// stage began, or as far as the plan of the stage was performed.
pub open spec fn in_step(job: JobView, step: JobStepView, w: World, w0: World) -> bool {
    match step {
        JobStepView::Query(q) => {
            &&& job.asked == Some(q)
            &&& 0 <= job.stage < STAGES
            &&& job.facts.within(w.facts())
            &&& stage_start(job.work, w0, job.stage) == Some((w, job.decision))
        },
        JobStepView::Act(a) => {
            &&& job.asked is None
            &&& 0 <= job.stage < STAGES
            &&& job.running()
            &&& a == job.script[job.next]
            &&& stage_start(job.work, w0, job.stage) matches Some((base, decision))
            &&& decision == job.decision
            &&& stage_plan(base.facts(), job.work, job.stage, decision) == OutcomeView::Done(
                StagePlan::Script(job.script),
            )
            &&& base.run(job.script.take(job.next)) == Some(w)
        },
        JobStepView::Completed => stage_start(job.work, w0, STAGES as int) == Some(
            (w, job.decision),
        ),
        JobStepView::Failed(_, _) => {
            &&& 0 <= job.stage < STAGES
            &&& stage_start(job.work, w0, job.stage) matches Some((base, decision))
            &&& decision == job.decision
            &&& (w == base || base.run(job.script.take(job.next)) == Some(w))
        },
    }
}

/// A job that goes on from a stage whose plan has been performed stays in
/// step with the tree.
proof fn lemma_advance_in_step(job: JobView, w: World, w0: World)
    requires
        job.asked is None,
        0 <= job.stage <= STAGES,
        job.facts.within(w.facts()),
        stage_start(job.work, w0, job.stage) == Some((w, job.decision)),
    ensures
        in_step(job.advance().0, job.advance().1, w, w0),
        job.advance().0.work == job.work,
    decreases STAGES - job.stage,
{
    if job.stage < STAGES {
        let planned = stage_plan(job.facts, job.work, job.stage, job.decision);
        if planned.settled() {
            lemma_stage_plan_stable(job.facts, w.facts(), job.work, job.stage, job.decision);
        }
        match planned {
            OutcomeView::Done(StagePlan::Decided(d)) => {
                let next = JobView { decision: Some(d), stage: job.stage + 1, ..job };
                lemma_advance_in_step(next, w, w0);
            },
            OutcomeView::Done(StagePlan::Script(plan)) => {
                if plan.len() == 0 {
                    let next = JobView { stage: job.stage + 1, script: plan, next: 0, ..job };
                    lemma_run_none(w);
                    assert(plan =~= Seq::<ActionView>::empty());
                    lemma_advance_in_step(next, w, w0);
                } else {
                    lemma_run_none(w);
                    assert(plan.take(0) =~= Seq::<ActionView>::empty());
                }
            },
            _ => {},
        }
    }
}

/// A part of a map stays a part of it when an entry of the map is added.
proof fn lemma_insert_submap<V>(part: Map<PathView, V>, whole: Map<PathView, V>, k: PathView)
    requires
        part.submap_of(whole),
        whole.contains_key(k),
    ensures
        part.insert(k, whole[k]).submap_of(whole),
{
    let more = part.insert(k, whole[k]);
    assert forall|x: PathView| #[trigger] more.dom().contains(x) implies whole.dom().contains(x)
        && more[x] == whole[x] by {
        if x != k {
            assert(part.dom().contains(x));
        }
    }
}

/// What a job learns from the model is true of the model.
proof fn lemma_learn_true(facts: FactsView, w: World, q: QueryView)
    requires
        facts.within(w.facts()),
    ensures
        JobView::learn(facts, q, answer(w, q)) is Some,
        JobView::learn(facts, q, answer(w, q))->0.within(w.facts()),
{
    let all = w.facts();
    match q {
        QueryView::Canonical(p) => {
            assert(all.canonical.contains_key(p));
            lemma_insert_submap(facts.canonical, all.canonical, p);
        },
        QueryView::Stat(p) => {
            assert(all.stat.contains_key(p));
            lemma_insert_submap(facts.stat, all.stat, p);
        },
        QueryView::Walk(p) => {
            assert(all.walk.contains_key(p));
            lemma_insert_submap(facts.walk, all.walk, p);
        },
        QueryView::Content(p) => {
            assert(all.content.contains_key(p));
            lemma_insert_submap(facts.content, all.content, p);
        },
    }
}

/// A job that is in step with the tree stays so when the tree serves its
/// request and the job takes the reply.
proof fn lemma_resume_in_step(job: JobView, step: JobStepView, w: World, w0: World)
    requires
        in_step(job, step, w, w0),
        step is Query || step is Act,
    ensures
        ({
            let (next_world, reply) = serve(w, step);
            let (next_job, next_step) = job.resume(reply);
            in_step(next_job, next_step, next_world, w0) && next_job.work == job.work
        }),
{
    let (next_world, reply) = serve(w, step);
    match step {
        JobStepView::Query(q) => {
            lemma_learn_true(job.facts, w, q);
            let learned = JobView::learn(job.facts, q, reply)->0;
            lemma_advance_in_step(JobView { facts: learned, asked: None, ..job }, w, w0);
        },
        JobStepView::Act(a) => {
            let begun = stage_start(job.work, w0, job.stage)->0;
            let base = begun.0;
            if let Some(after) = w.perform(a) {
                lemma_run_next(base, job.script, job.next);
                if job.next + 1 < job.script.len() {
                } else {
                    assert(job.script.take(job.next + 1) =~= job.script);
                    let bytes = if job.bytes + 0 > u64::MAX {
                        u64::MAX
                    } else {
                        (job.bytes + 0) as u64
                    };
                    let moved = (JobView { bytes, ..job }).next_stage();
                    assert(stage_start(job.work, w0, job.stage + 1) == Some(
                        (after, job.decision),
                    ));
                    lemma_advance_in_step(moved, after, w0);
                }
            }
        },
        _ => {},
    }
}

/// A job that is served by the model does to the tree what its stages say:
/// where it ends as completed, the tree is the one with which the stage
/// after its last would begin, and where it fails, the tree is one that its
/// stage has left.
proof fn lemma_drive_in_step(job: JobView, step: JobStepView, w: World, w0: World, fuel: nat)
    requires
        in_step(job, step, w, w0),
    ensures
        ({
            let (last_job, last, after) = drive(job, step, w, fuel);
            &&& last_job.work == job.work
            &&& in_step(last_job, last, after, w0)
            &&& last is Completed ==> stage_start(job.work, w0, STAGES as int) == Some(
                (after, last_job.decision),
            )
        }),
    decreases fuel,
{
    if !(fuel == 0 || step is Completed || step is Failed) {
        let (next_world, reply) = serve(w, step);
        let (next_job, next_step) = job.resume(reply);
        lemma_resume_in_step(job, step, w, w0);
        lemma_drive_in_step(next_job, next_step, next_world, w0, (fuel - 1) as nat);
    }
}

/// The job that applies an operation, served by the model, applies the
/// operation: where it ends as completed, the collision policy has decided
/// what the job says it has, and the tree is the one that applying the
/// operation under that decision gives.
pub proof fn lemma_job_applies(
    w: World,
    op: NormalizedView,
    policy: CollisionPolicy,
    allow_overwrite: bool,
    fuel: nat,
)
    ensures
        ({
            let (job, first) = JobView::fresh(WorkView::Apply { op, policy, allow_overwrite }).advance();
            let (last_job, last, after) = drive(job, first, w, fuel);
            last is Completed ==> last_job.decision is Some && decide(
                w.facts(),
                op,
                policy,
                allow_overwrite,
            ) == OutcomeView::Done(last_job.decision->0) && apply_op(
                w,
                op,
                last_job.decision->0,
            ) == Some(after)
        }),
{
    let work = WorkView::Apply { op, policy, allow_overwrite };
    let fresh = JobView::fresh(work);
    lemma_advance_in_step(fresh, w, w);
    let (job, first) = fresh.advance();
    lemma_drive_in_step(job, first, w, w, fuel);
    let (last_job, last, after) = drive(job, first, w, fuel);
    if last is Completed {
        lemma_stages_of_apply(w, op, policy, allow_overwrite);
    }
}

/// The stages of the work that applies an operation are the decision, the
/// move aside and the primitive.
proof fn lemma_stages_of_apply(
    w: World,
    op: NormalizedView,
    policy: CollisionPolicy,
    allow_overwrite: bool,
)
    requires
        stage_start(WorkView::Apply { op, policy, allow_overwrite }, w, 3) is Some,
    ensures
        ({
            let end = stage_start(WorkView::Apply { op, policy, allow_overwrite }, w, 3)->0;
            end.1 is Some && decide(w.facts(), op, policy, allow_overwrite) == OutcomeView::Done(
                end.1->0,
            ) && apply_op(w, op, end.1->0) == Some(end.0)
        }),
{
    let work = WorkView::Apply { op, policy, allow_overwrite };
    assert(stage_start(work, w, 0) == Some((w, None::<DecisionView>)));
    let s1 = stage_start(work, w, 1);
    let s2 = stage_start(work, w, 2);
    assert(s2 is Some);
    assert(s1 is Some);
}

/// The job that reverses a record, served by the model, undoes the record:
/// where it ends as completed, the tree is the one that applying the undo
/// metadata of the record gives.
pub proof fn lemma_job_reverts(w: World, entry: EntryView, fuel: nat)
    ensures
        ({
            let (job, first) = JobView::fresh(WorkView::Revert { entry }).advance();
            let (last_job, last, after) = drive(job, first, w, fuel);
            last is Completed ==> undo_entry(w, entry) == Some(after)
        }),
{
    let work = WorkView::Revert { entry };
    let fresh = JobView::fresh(work);
    lemma_advance_in_step(fresh, w, w);
    let (job, first) = fresh.advance();
    lemma_drive_in_step(job, first, w, w, fuel);
    let (last_job, last, after) = drive(job, first, w, fuel);
    if last is Completed {
        assert(stage_start(work, w, 0) == Some((w, None::<DecisionView>)));
        let s1 = stage_start(work, w, 1);
        let s2 = stage_start(work, w, 2);
        assert(s2 is Some);
        assert(s1 is Some);
        let begun = s2->0;
        let base = begun.0;
        lemma_run_none(base);
        assert(revert_plan(base.facts(), entry, 2) == OutcomeView::Done(
            Seq::<ActionView>::empty(),
        ));
    }
}

/// What the machine does, undo reverses. Let the job that applies an
/// operation be served by the model until it is completed, and then the job
/// that reverses the operation's `Applied` record. Where that job ends as
/// completed too, the tree is the tree on which the first job began.
pub proof fn lemma_job_undo_restores(
    w: World,
    op: NormalizedView,
    policy: CollisionPolicy,
    allow_overwrite: bool,
    ts: Timestamp,
    fuel: nat,
    more: nat,
)
    requires
        w.fit(),
    ensures
        ({
            let (job, first) = JobView::fresh(WorkView::Apply { op, policy, allow_overwrite }).advance();
            let (applied, last, after) = drive(job, first, w, fuel);
            last is Completed && followed(w, op, applied.decision->0) ==> ({
                let entry = success_entry(op, applied.decision->0, policy, ts);
                let (back, second) = JobView::fresh(WorkView::Revert { entry }).advance();
                let (reverted, end, restored) = drive(back, second, after, more);
                end is Completed ==> restored == w
            })
        }),
{
    lemma_job_applies(w, op, policy, allow_overwrite, fuel);
    let (job, first) = JobView::fresh(WorkView::Apply { op, policy, allow_overwrite }).advance();
    let (applied, last, after) = drive(job, first, w, fuel);
    if last is Completed && followed(w, op, applied.decision->0) {
        let d = applied.decision->0;
        let entry = success_entry(op, d, policy, ts);
        lemma_job_reverts(after, entry, more);
        let (back, second) = JobView::fresh(WorkView::Revert { entry }).advance();
        let (reverted, end, restored) = drive(back, second, after, more);
        if end is Completed {
            lemma_undo_restores(w, op, policy, allow_overwrite, d, ts, after, restored);
        }
    }
}

/// The first two stages of the work that applies an operation are the
/// decision and the move aside.
proof fn lemma_stages_of_backup(
    w: World,
    op: NormalizedView,
    policy: CollisionPolicy,
    allow_overwrite: bool,
)
    requires
        stage_start(WorkView::Apply { op, policy, allow_overwrite }, w, 2) is Some,
    ensures
        ({
            let begun = stage_start(WorkView::Apply { op, policy, allow_overwrite }, w, 2)->0;
            begun.1 is Some && decide(w.facts(), op, policy, allow_overwrite) == OutcomeView::Done(
                begun.1->0,
            ) && backup_plan(w.facts(), op, begun.1->0) is Done && w.run(
                backup_plan(w.facts(), op, begun.1->0)->Done_0,
            ) == Some(begun.0)
        }),
{
    let work = WorkView::Apply { op, policy, allow_overwrite };
    assert(stage_start(work, w, 0) == Some((w, None::<DecisionView>)));
    let s1 = stage_start(work, w, 1);
    assert(s1 is Some);
}

/// What the machine keeps of a failure, rollback reverses. Let the job that
/// applies an operation be served by the model and fail after the existing
/// destination was moved aside, the operation itself having changed
/// nothing. Then the job that reverses the `Fail` record that the manager
/// keeps of it, where it ends as completed, leaves the tree on which the
/// first job began.
pub proof fn lemma_failed_job_put_back(
    w: World,
    op: NormalizedView,
    policy: CollisionPolicy,
    allow_overwrite: bool,
    ts: Timestamp,
    fuel: nat,
    more: nat,
)
    requires
        w.fit(),
    ensures
        ({
            let (job, first) = JobView::fresh(WorkView::Apply { op, policy, allow_overwrite }).advance();
            let (failed, last, left) = drive(job, first, w, fuel);
            last is Failed && moved_aside(op, failed) is Some && failed.next == 0 ==> ({
                let entry = failure_entry(op, moved_aside(op, failed), ts);
                let (back, second) = JobView::fresh(WorkView::Revert { entry }).advance();
                let (reverted, end, restored) = drive(back, second, left, more);
                end is Completed ==> restored == w
            })
        }),
{
    let work = WorkView::Apply { op, policy, allow_overwrite };
    let fresh = JobView::fresh(work);
    assert(stage_start(work, w, 0) == Some((w, None::<DecisionView>)));
    lemma_advance_in_step(fresh, w, w);
    let (job, first) = fresh.advance();
    lemma_drive_in_step(job, first, w, w, fuel);
    let (failed, last, left) = drive(job, first, w, fuel);
    if last is Failed && moved_aside(op, failed) is Some && failed.next == 0 {
        assert(failed.stage == 2);
        lemma_stages_of_backup(w, op, policy, allow_overwrite);
        let begun = stage_start(work, w, 2)->0;
        let d = begun.1->0;
        assert(failed.script.take(0) =~= Seq::<ActionView>::empty());
        lemma_run_none(begun.0);
        assert(left == begun.0);
        assert(moved_aside(op, failed) == d.backup);
        let entry = failure_entry(op, d.backup, ts);
        lemma_job_reverts(left, entry, more);
        let (back, second) = JobView::fresh(WorkView::Revert { entry }).advance();
        let (reverted, end, restored) = drive(back, second, left, more);
        if end is Completed {
            lemma_backup_put_back(w, op, d, ts, restored);
        }
    }
}

} // verus!
