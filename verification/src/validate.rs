//! Normalization and preflight.
//!
//! Normalization turns the operations of a plan, in their order, into
//! operations with resolved paths, an identifier each, and the directories
//! that a `mkdir` with `parents` will have to create on its way. Preflight
//! checks, before anything is changed, that every source exists and that the
//! symlink policy accepts it.

use crate::facts::{EntryKind, FactsView, FsFacts, FsQuery, Outcome, OutcomeView, QueryView};
use crate::fault::Fault;
use crate::ident::fresh_id;
use crate::model::{Operation, OperationView, Plan, PlanView, SymlinkPolicy};
use crate::path::{FsPath, PathView};
use crate::policy::{handle_symlink, symlink_verdict};
use crate::resolve::{
    lemma_resolve_asks, lemma_resolve_stable, lemma_resolved_below_root, resolve, resolve_path,
};
use vstd::prelude::*;

verus! {

/// An operation ready to be executed.
#[derive(Debug, Clone, PartialEq, Eq)]
pub struct NormalizedOp {
    /// The operation's identifier.
    pub id: u128,
    /// The operation as the plan states it.
    pub op: Operation,
    /// Resolved source path, if the operation has a source.
    pub resolved_src: Option<FsPath>,
    /// Resolved destination path, if the operation has a destination.
    pub resolved_dst: Option<FsPath>,
    /// The missing ancestors of the destination of a `mkdir` with `parents`,
    /// outermost first.
    pub parents: Vec<FsPath>,
}

/// The mathematical value of a [`NormalizedOp`].
pub struct NormalizedView {
    pub id: u128,
    pub op: OperationView,
    pub resolved_src: Option<PathView>,
    pub resolved_dst: Option<PathView>,
    pub parents: Seq<PathView>,
}

impl DeepView for NormalizedOp {
    type V = NormalizedView;

    open spec fn deep_view(&self) -> NormalizedView {
        NormalizedView {
            id: self.id,
            op: self.op@,
            resolved_src: self.resolved_src.deep_view(),
            resolved_dst: self.resolved_dst.deep_view(),
            parents: self.parents.deep_view(),
        }
    }
}

impl View for NormalizedOp {
    type V = NormalizedView;

    open spec fn view(&self) -> NormalizedView {
        self.deep_view()
    }
}

impl NormalizedView {
    /// The same operation under another identifier.
    pub open spec fn with_id(self, id: u128) -> NormalizedView {
        NormalizedView { id, ..self }
    }

    /// Whether every resolved path lies below `base`.
    pub open spec fn confined_to(self, base: PathView) -> bool {
        &&& self.resolved_src matches Some(s) ==> s.starts_with(base)
        &&& self.resolved_dst matches Some(d) ==> d.starts_with(base)
    }
}

/// The resolved source and destination of an operation.
pub open spec fn resolved_paths(facts: FactsView, root: PathView, op: OperationView)
    -> OutcomeView<(Option<PathView>, Option<PathView>)> {
    let first: OutcomeView<Option<PathView>> = match op.src() {
        None => OutcomeView::Done(None),
        Some(s) => match resolve(facts, root, s) {
            OutcomeView::Done(p) => OutcomeView::Done(Some(p)),
            OutcomeView::Fail(f) => OutcomeView::Fail(f),
            OutcomeView::Ask(q) => OutcomeView::Ask(q),
        },
    };
    match first {
        OutcomeView::Fail(f) => OutcomeView::Fail(f),
        OutcomeView::Ask(q) => OutcomeView::Ask(q),
        OutcomeView::Done(src) => match op.dst() {
            None => OutcomeView::Done((src, None)),
            Some(d) => match resolve(facts, root, d) {
                OutcomeView::Done(p) => OutcomeView::Done((src, Some(p))),
                OutcomeView::Fail(f) => OutcomeView::Fail(f),
                OutcomeView::Ask(q) => OutcomeView::Ask(q),
            },
        },
    }
}

/// Resolves the source of an operation, then its destination.
pub fn resolve_operation_paths(root: &FsPath, op: &Operation, facts: &FsFacts) -> (r: Outcome<
    (Option<FsPath>, Option<FsPath>),
>)
    ensures
        r.deep_view() == resolved_paths(facts@, root@, op@),
{
    let src = match op.src() {
        None => None,
        Some(s) => match resolve_path(root, s, facts) {
            Outcome::Done(p) => Some(p),
            Outcome::Fail(f) => {
                return Outcome::Fail(f);
            },
            Outcome::Ask(q) => {
                return Outcome::Ask(q);
            },
        },
    };
    let dst = match op.dst() {
        None => None,
        Some(d) => match resolve_path(root, d, facts) {
            Outcome::Done(p) => Some(p),
            Outcome::Fail(f) => {
                return Outcome::Fail(f);
            },
            Outcome::Ask(q) => {
                return Outcome::Ask(q);
            },
        },
    };
    Outcome::Done((src, dst))
}

/// The greatest `j` of at most `k` for which the first `j` components of
/// `p` exist; -1 if there is none.
pub open spec fn deepest_existing(facts: FactsView, p: PathView, k: int) -> OutcomeView<int>
    decreases k + 1,
{
    if k < 0 {
        OutcomeView::Done(-1)
    } else if !facts.stat.contains_key(p.prefix(k)) {
        OutcomeView::Ask(QueryView::Stat(p.prefix(k)))
    } else if facts.stat[p.prefix(k)].kind != EntryKind::Missing {
        OutcomeView::Done(k)
    } else {
        deepest_existing(facts, p, k - 1)
    }
}

/// The ancestors of `dst` that do not exist, outermost first: all those
/// longer than its deepest existing ancestor.
pub open spec fn missing_ancestors(facts: FactsView, dst: PathView) -> OutcomeView<Seq<PathView>> {
    match deepest_existing(facts, dst, dst.len() - 1) {
        OutcomeView::Ask(q) => OutcomeView::Ask(q),
        OutcomeView::Fail(f) => OutcomeView::Fail(f),
        OutcomeView::Done(m) => OutcomeView::Done(
            Seq::new((dst.len() - 1 - m) as nat, |i: int| dst.prefix(m + 1 + i)),
        ),
    }
}

/// The directories that an operation obliges its executor to create before
/// its destination: for a `mkdir` with `parents`, the missing ancestors of
/// the resolved destination; for every other operation, none.
pub open spec fn parent_obligations(facts: FactsView, dst: Option<PathView>, op: OperationView)
    -> OutcomeView<Seq<PathView>> {
    match (dst, op) {
        (Some(d), OperationView::Mkdir { parents: true, .. }) => missing_ancestors(facts, d),
        _ => OutcomeView::Done(Seq::empty()),
    }
}

/// The directories that `op` with resolved destination `dst` will have to
/// create before its destination, outermost first.
pub fn compute_parent_dirs(dst: &Option<FsPath>, op: &Operation, facts: &FsFacts) -> (r: Outcome<
    Vec<FsPath>,
>)
    ensures
        r.deep_view() == parent_obligations(facts@, dst.deep_view(), op@),
{
    let target = match (dst, op) {
        (Some(d), Operation::Mkdir { parents: true, .. }) => d,
        _ => {
            let none: Vec<FsPath> = Vec::new();
            assert(none.deep_view() =~= Seq::<PathView>::empty());
            return Outcome::Done(none);
        },
    };
    let n = target.len();
    // `found` is one more than the number of components of the deepest
    // existing ancestor, so that zero can stand for "none exists".
    let mut found: usize = 0;
    let mut k: usize = n;
    let mut searching = true;
    while searching && k > 0
        invariant
            k <= n,
            n == target@.len(),
            dst.deep_view() == Some(target@),
            op@ matches OperationView::Mkdir { parents: true, .. },
            searching ==> found == 0 && deepest_existing(facts@, target@, n - 1)
                == deepest_existing(facts@, target@, k - 1),
            !searching ==> 0 < found <= n && deepest_existing(facts@, target@, n - 1)
                == OutcomeView::Done(found - 1),
        decreases
                k + if searching {
                    1int
                } else {
                    0int
                },
    {
        let prefix = target.prefix(k - 1);
        match facts.stat(&prefix) {
            None => {
                return Outcome::Ask(FsQuery::Stat(prefix));
            },
            Some(st) => {
                if st.kind != EntryKind::Missing {
                    found = k;
                    searching = false;
                } else {
                    k = k - 1;
                }
            },
        }
    }
    assert(deepest_existing(facts@, target@, n - 1) == OutcomeView::Done(found - 1));
    let mut out: Vec<FsPath> = Vec::new();
    let mut j: usize = found;
    while j < n
        invariant
            found <= j <= n,
            n == target@.len(),
            out.len() == j - found,
            forall|i: int| 0 <= i < out.len() ==> out[i]@ == target@.prefix(found + i),
        decreases n - j,
    {
        out.push(target.prefix(j));
        j = j + 1;
    }
    assert(out.deep_view() =~= Seq::new(
        (n - found) as nat,
        |i: int| target@.prefix(found - 1 + 1 + i),
    ));
    Outcome::Done(out)
}

/// What normalizing one operation under the identifier `id` gives.
pub open spec fn normalized_op(facts: FactsView, root: PathView, op: OperationView, id: u128)
    -> OutcomeView<NormalizedView> {
    match resolved_paths(facts, root, op) {
        OutcomeView::Ask(q) => OutcomeView::Ask(q),
        OutcomeView::Fail(f) => OutcomeView::Fail(f),
        OutcomeView::Done((src, dst)) => match parent_obligations(facts, dst, op) {
            OutcomeView::Ask(q) => OutcomeView::Ask(q),
            OutcomeView::Fail(f) => OutcomeView::Fail(f),
            OutcomeView::Done(parents) => OutcomeView::Done(
                NormalizedView { id, op, resolved_src: src, resolved_dst: dst, parents },
            ),
        },
    }
}

/// Normalizes one operation under the identifier `id`.
pub fn normalize_op(root: &FsPath, op: &Operation, id: u128, facts: &FsFacts) -> (r: Outcome<
    NormalizedOp,
>)
    ensures
        r.deep_view() == normalized_op(facts@, root@, op@, id),
{
    let (src, dst) = match resolve_operation_paths(root, op, facts) {
        Outcome::Done(pair) => pair,
        Outcome::Fail(f) => {
            return Outcome::Fail(f);
        },
        Outcome::Ask(q) => {
            return Outcome::Ask(q);
        },
    };
    let parents = match compute_parent_dirs(&dst, op, facts) {
        Outcome::Done(parents) => parents,
        Outcome::Fail(f) => {
            return Outcome::Fail(f);
        },
        Outcome::Ask(q) => {
            return Outcome::Ask(q);
        },
    };
    Outcome::Done(
        NormalizedOp { id, op: op.duplicate(), resolved_src: src, resolved_dst: dst, parents },
    )
}

/// What normalizing the operations from index `i` on gives, every
/// identifier left at zero: the identifiers are no part of what a plan
/// determines.
pub open spec fn normalized_from(facts: FactsView, root: PathView, ops: Seq<OperationView>, i: int)
    -> OutcomeView<Seq<NormalizedView>>
    decreases ops.len() - i,
{
    if i < 0 || i >= ops.len() {
        OutcomeView::Done(Seq::empty())
    } else {
        match normalized_op(facts, root, ops[i], 0) {
            OutcomeView::Ask(q) => OutcomeView::Ask(q),
            OutcomeView::Fail(f) => OutcomeView::Fail(f),
            OutcomeView::Done(first) => match normalized_from(facts, root, ops, i + 1) {
                OutcomeView::Ask(q) => OutcomeView::Ask(q),
                OutcomeView::Fail(f) => OutcomeView::Fail(f),
                OutcomeView::Done(rest) => OutcomeView::Done(seq![first] + rest),
            },
        }
    }
}

/// What a plan determines of its normalized operations: everything but the
/// identifiers, which stand at zero here.
pub open spec fn normalized(facts: FactsView, plan: PlanView) -> OutcomeView<Seq<NormalizedView>> {
    normalized_from(facts, plan.root, plan.operations, 0)
}

/// The operations with every identifier set to zero.
pub open spec fn unnumbered(ops: Seq<NormalizedView>) -> Seq<NormalizedView> {
    ops.map_values(|n: NormalizedView| n.with_id(0))
}

/// Normalizes the operations of a plan, in their order, each under a fresh
/// identifier. Resolved paths and parent obligations are determined by the
/// plan and the file system; the identifiers are not.
pub fn normalize_plan(plan: &Plan, facts: &FsFacts) -> (r: Outcome<Vec<NormalizedOp>>)
    ensures
        match (r, normalized(facts@, plan@)) {
            (Outcome::Done(ops), OutcomeView::Done(spec)) => unnumbered(ops.deep_view()) == spec,
            (Outcome::Fail(f), OutcomeView::Fail(g)) => f == g,
            (Outcome::Ask(q), OutcomeView::Ask(p)) => q.deep_view() == p,
            _ => false,
        },
{
    let n = plan.operations.len();
    let mut out: Vec<NormalizedOp> = Vec::new();
    let mut i: usize = 0;
    while i < n
        invariant
            i <= n,
            n == plan.operations.len(),
            out.len() == i,
            forall|j: int|
                #![trigger out[j]]
                #![trigger plan@.operations[j]]
                0 <= j < i ==> normalized_op(facts@, plan@.root, plan@.operations[j], 0)
                    == OutcomeView::Done(out[j]@.with_id(0)),
        decreases n - i,
    {
        let op = &plan.operations[i];
        assert(plan@.operations[i as int] == op@);
        match normalize_op(&plan.root, op, fresh_id(), facts) {
            Outcome::Done(item) => {
                out.push(item);
            },
            Outcome::Fail(f) => {
                proof {
                    lemma_normalized_stops(facts@, plan@.root, plan@.operations, 0, i as int);
                }
                return Outcome::Fail(f);
            },
            Outcome::Ask(q) => {
                proof {
                    lemma_normalized_stops(facts@, plan@.root, plan@.operations, 0, i as int);
                }
                return Outcome::Ask(q);
            },
        }
        i = i + 1;
    }
    proof {
        lemma_normalized_all(facts@, plan@.root, plan@.operations, 0);
        let spec = normalized(facts@, plan@)->Done_0;
        assert(unnumbered(out.deep_view()) =~= spec);
    }
    Outcome::Done(out)
}

/// Normalization ends at the first operation that does not normalize, as
/// that operation ends.
proof fn lemma_normalized_stops(
    facts: FactsView,
    root: PathView,
    ops: Seq<OperationView>,
    i: int,
    k: int,
)
    requires
        0 <= i <= k < ops.len(),
        forall|j: int| i <= j < k ==> normalized_op(facts, root, #[trigger] ops[j], 0) is Done,
        !(normalized_op(facts, root, ops[k], 0) is Done),
    ensures
        normalized_from(facts, root, ops, i) == match normalized_op(facts, root, ops[k], 0) {
            OutcomeView::Ask(q) => OutcomeView::<Seq<NormalizedView>>::Ask(q),
            OutcomeView::Fail(f) => OutcomeView::Fail(f),
            OutcomeView::Done(_) => OutcomeView::Done(Seq::empty()),
        },
    decreases k - i,
{
    if i < k {
        lemma_normalized_stops(facts, root, ops, i + 1, k);
    }
}

/// Where every operation normalizes, normalization gives them all in order.
proof fn lemma_normalized_all(facts: FactsView, root: PathView, ops: Seq<OperationView>, i: int)
    requires
        0 <= i <= ops.len(),
        forall|j: int|
            i <= j < ops.len() ==> normalized_op(facts, root, #[trigger] ops[j], 0) is Done,
    ensures
        normalized_from(facts, root, ops, i) is Done,
        normalized_from(facts, root, ops, i)->Done_0.len() == ops.len() - i,
        forall|j: int|
            0 <= j < ops.len() - i ==> #[trigger] normalized_from(facts, root, ops, i)->Done_0[j]
                == normalized_op(facts, root, ops[i + j], 0)->Done_0,
    decreases ops.len() - i,
{
    if i < ops.len() {
        lemma_normalized_all(facts, root, ops, i + 1);
    }
}

/// What preflight decides for one operation: a `mkdir` passes; any other
/// operation passes if its source resolves below the root and exists, and if
/// the path that the plan names, taken from the root as the plan gives it,
/// is no symlink or one that the policy accepts.
pub open spec fn preflight_op(
    facts: FactsView,
    root: PathView,
    policy: SymlinkPolicy,
    op: OperationView,
) -> OutcomeView<()> {
    match op.src() {
        None => OutcomeView::Done(()),
        Some(src) => match resolve(facts, root, src) {
            OutcomeView::Ask(q) => OutcomeView::Ask(q),
            OutcomeView::Fail(f) => OutcomeView::Fail(f),
            OutcomeView::Done(resolved) => if !facts.stat.contains_key(resolved) {
                OutcomeView::Ask(QueryView::Stat(resolved))
            } else if facts.stat[resolved].kind == EntryKind::Missing {
                OutcomeView::Fail(Fault::SourceMissing)
            } else if !facts.stat.contains_key(root.join(src)) {
                OutcomeView::Ask(QueryView::Stat(root.join(src)))
            } else if facts.stat[root.join(src)].symlink {
                symlink_verdict(facts, policy, root.join(src))
            } else {
                OutcomeView::Done(())
            },
        },
    }
}

/// What preflight decides for the operations from index `i` on: what the
/// first operation that does not pass ends with.
pub open spec fn preflight_from(
    facts: FactsView,
    root: PathView,
    policy: SymlinkPolicy,
    ops: Seq<OperationView>,
    i: int,
) -> OutcomeView<()>
    decreases ops.len() - i,
{
    if i < 0 || i >= ops.len() {
        OutcomeView::Done(())
    } else {
        match preflight_op(facts, root, policy, ops[i]) {
            OutcomeView::Done(_) => preflight_from(facts, root, policy, ops, i + 1),
            other => other,
        }
    }
}

/// What preflight decides for a plan.
pub open spec fn preflight(facts: FactsView, plan: PlanView) -> OutcomeView<()> {
    preflight_from(facts, plan.root, plan.symlink_policy, plan.operations, 0)
}

/// Preflight for one operation of a plan with the given root and symlink
/// policy.
pub fn preflight_op_check(root: &FsPath, policy: SymlinkPolicy, op: &Operation, facts: &FsFacts)
    -> (r: Outcome<()>)
    ensures
        r.deep_view() == preflight_op(facts@, root@, policy, op@),
{
    let src = match op.src() {
        None => {
            return Outcome::Done(());
        },
        Some(src) => src,
    };
    let resolved = match resolve_path(root, src, facts) {
        Outcome::Done(p) => p,
        Outcome::Fail(f) => {
            return Outcome::Fail(f);
        },
        Outcome::Ask(q) => {
            return Outcome::Ask(q);
        },
    };
    match facts.stat(&resolved) {
        None => {
            return Outcome::Ask(FsQuery::Stat(resolved));
        },
        Some(st) => {
            if st.kind == EntryKind::Missing {
                return Outcome::Fail(Fault::SourceMissing);
            }
        },
    }
    let link = root.join(src);
    match facts.stat(&link) {
        None => Outcome::Ask(FsQuery::Stat(link)),
        Some(st) => {
            if st.symlink {
                handle_symlink(policy, &link, facts)
            } else {
                Outcome::Done(())
            }
        },
    }
}

/// Checks before any change that every source exists and that the symlink
/// policy accepts it. The first operation that does not pass fails the plan.
pub fn preflight_check(plan: &Plan, facts: &FsFacts) -> (r: Outcome<()>)
    ensures
        r.deep_view() == preflight(facts@, plan@),
{
    let mut i: usize = 0;
    while i < plan.operations.len()
        invariant
            i <= plan.operations.len(),
            preflight(facts@, plan@) == preflight_from(
                facts@,
                plan@.root,
                plan@.symlink_policy,
                plan@.operations,
                i as int,
            ),
        decreases plan.operations.len() - i,
    {
        let op = &plan.operations[i];
        assert(plan@.operations[i as int] == op@);
        match preflight_op_check(&plan.root, plan.symlink_policy, op, facts) {
            Outcome::Done(_) => {},
            Outcome::Fail(f) => {
                return Outcome::Fail(f);
            },
            Outcome::Ask(q) => {
                return Outcome::Ask(q);
            },
        }
        i = i + 1;
    }
    Outcome::Done(())
}

/// Facts that are added never change which ancestor was found to be the
/// deepest that exists.
pub proof fn lemma_deepest_stable(facts: FactsView, more: FactsView, p: PathView, k: int)
    requires
        facts.within(more),
        deepest_existing(facts, p, k).settled(),
    ensures
        deepest_existing(more, p, k) == deepest_existing(facts, p, k),
    decreases k + 1,
{
    if k >= 0 {
        assert(facts.stat.contains_key(p.prefix(k)));
        assert(more.stat.contains_key(p.prefix(k)));
        if facts.stat[p.prefix(k)].kind == EntryKind::Missing {
            lemma_deepest_stable(facts, more, p, k - 1);
        }
    }
}

/// Facts that are added never change what normalizing one operation gave.
pub proof fn lemma_normalized_op_stable(
    facts: FactsView,
    more: FactsView,
    root: PathView,
    op: OperationView,
    id: u128,
)
    requires
        facts.within(more),
        normalized_op(facts, root, op, id).settled(),
    ensures
        normalized_op(more, root, op, id) == normalized_op(facts, root, op, id),
{
    if let Some(s) = op.src() {
        if resolve(facts, root, s).settled() {
            lemma_resolve_stable(facts, more, root, s);
        }
    }
    if resolved_paths(facts, root, op).settled() {
        if let Some(d) = op.dst() {
            if resolve(facts, root, d).settled() {
                lemma_resolve_stable(facts, more, root, d);
            }
        }
        if let OutcomeView::Done((src, dst)) = resolved_paths(facts, root, op) {
            if let Some(d) = dst {
                if deepest_existing(facts, d, d.len() - 1).settled() {
                    lemma_deepest_stable(facts, more, d, d.len() - 1);
                }
            }
        }
    }
}

proof fn lemma_normalized_from_stable(
    facts: FactsView,
    more: FactsView,
    root: PathView,
    ops: Seq<OperationView>,
    i: int,
)
    requires
        facts.within(more),
        normalized_from(facts, root, ops, i).settled(),
    ensures
        normalized_from(more, root, ops, i) == normalized_from(facts, root, ops, i),
    decreases ops.len() - i,
{
    if 0 <= i < ops.len() {
        if normalized_op(facts, root, ops[i], 0).settled() {
            lemma_normalized_op_stable(facts, more, root, ops[i], 0);
            if normalized_op(facts, root, ops[i], 0) is Done {
                lemma_normalized_from_stable(facts, more, root, ops, i + 1);
            }
        }
    }
}

/// What normalization gives depends on the plan and on the file system, not
/// on how much of the file system was asked for: once every query that
/// normalization needs is answered, further answers change nothing.
pub proof fn lemma_normalize_stable(facts: FactsView, more: FactsView, plan: PlanView)
    requires
        facts.within(more),
        normalized(facts, plan).settled(),
    ensures
        normalized(more, plan) == normalized(facts, plan),
{
    lemma_normalized_from_stable(facts, more, plan.root, plan.operations, 0);
}

/// Normalization is deterministic: two normalizations of one plan against
/// one file system, whatever each of them has asked of it, give the same
/// resolved paths and the same parent obligations.
pub proof fn lemma_normalize_deterministic(
    first: FactsView,
    second: FactsView,
    world: FactsView,
    plan: PlanView,
)
    requires
        first.within(world),
        second.within(world),
        normalized(first, plan).settled(),
        normalized(second, plan).settled(),
    ensures
        normalized(first, plan) == normalized(second, plan),
{
    lemma_normalize_stable(first, world, plan);
    lemma_normalize_stable(second, world, plan);
}

/// Where normalization succeeds, it gives one operation for each operation
/// of the plan, in order.
pub proof fn lemma_normalized_items(
    facts: FactsView,
    root: PathView,
    ops: Seq<OperationView>,
    i: int,
)
    requires
        0 <= i <= ops.len(),
        normalized_from(facts, root, ops, i) is Done,
    ensures
        normalized_from(facts, root, ops, i)->Done_0.len() == ops.len() - i,
        forall|j: int|
            0 <= j < ops.len() - i ==> normalized_op(facts, root, #[trigger] ops[i + j], 0)
                == OutcomeView::Done(normalized_from(facts, root, ops, i)->Done_0[j]),
    decreases ops.len() - i,
{
    if i < ops.len() {
        lemma_normalized_items(facts, root, ops, i + 1);
        let rest = normalized_from(facts, root, ops, i + 1)->Done_0;
        let all = normalized_from(facts, root, ops, i)->Done_0;
        assert forall|j: int| 0 <= j < ops.len() - i implies normalized_op(
            facts,
            root,
            #[trigger] ops[i + j],
            0,
        ) == OutcomeView::Done(all[j]) by {
            if j > 0 {
                assert(all[j] == rest[j - 1]);
                assert(ops[i + j] == ops[(i + 1) + (j - 1)]);
            }
        }
    }
}

/// Every resolved path of every normalized operation lies below the
/// canonical form of the plan's root.
pub proof fn lemma_normalized_confined(facts: FactsView, plan: PlanView, i: int)
    requires
        normalized(facts, plan) is Done,
        0 <= i < normalized(facts, plan)->Done_0.len(),
    ensures
        facts.canonical.contains_key(plan.root),
        facts.canonical[plan.root] is Some,
        normalized(facts, plan)->Done_0[i].confined_to(facts.canonical[plan.root]->0),
{
    lemma_normalized_items(facts, plan.root, plan.operations, 0);
    let op = plan.operations[i];
    assert(op == plan.operations[0 + i]);
    assert(normalized_op(facts, plan.root, op, 0) is Done);
    if let Some(s) = op.src() {
        lemma_resolved_below_root(facts, plan.root, s);
    }
    if let Some(d) = op.dst() {
        lemma_resolved_below_root(facts, plan.root, d);
    }
}

proof fn lemma_deepest_asks(facts: FactsView, p: PathView, k: int)
    requires
        deepest_existing(facts, p, k) is Ask,
    ensures
        !facts.answers(deepest_existing(facts, p, k)->Ask_0),
    decreases k + 1,
{
    if k >= 0 && facts.stat.contains_key(p.prefix(k)) {
        lemma_deepest_asks(facts, p, k - 1);
    }
}

/// Normalizing an operation asks only for what is not known.
pub proof fn lemma_normalized_op_asks(
    facts: FactsView,
    root: PathView,
    op: OperationView,
    id: u128,
)
    requires
        normalized_op(facts, root, op, id) is Ask,
    ensures
        !facts.answers(normalized_op(facts, root, op, id)->Ask_0),
{
    if let Some(s) = op.src() {
        if resolve(facts, root, s) is Ask {
            lemma_resolve_asks(facts, root, s);
        }
    }
    if let Some(d) = op.dst() {
        if resolve(facts, root, d) is Ask {
            lemma_resolve_asks(facts, root, d);
        }
    }
    if let OutcomeView::Done((src, dst)) = resolved_paths(facts, root, op) {
        if let Some(d) = dst {
            if deepest_existing(facts, d, d.len() - 1) is Ask {
                lemma_deepest_asks(facts, d, d.len() - 1);
            }
        }
    }
}

/// Facts that are added never change a settled preflight of an operation,
/// and preflight asks only for what is not known.
pub proof fn lemma_preflight_op_stable(
    facts: FactsView,
    more: FactsView,
    root: PathView,
    policy: SymlinkPolicy,
    op: OperationView,
)
    requires
        facts.within(more),
    ensures
        preflight_op(facts, root, policy, op).settled() ==> preflight_op(more, root, policy, op)
            == preflight_op(facts, root, policy, op),
        preflight_op(facts, root, policy, op) matches OutcomeView::Ask(q) ==> !facts.answers(q),
{
    if let Some(src) = op.src() {
        if resolve(facts, root, src).settled() {
            lemma_resolve_stable(facts, more, root, src);
            if let OutcomeView::Done(resolved) = resolve(facts, root, src) {
                if facts.stat.contains_key(resolved) {
                    assert(more.stat.contains_key(resolved));
                    if facts.stat.contains_key(root.join(src)) {
                        assert(more.stat.contains_key(root.join(src)));
                    }
                }
            }
        } else {
            lemma_resolve_asks(facts, root, src);
        }
    }
}

/// Whether nothing that is known of the file system says that `base` or an
/// ancestor of `base` is missing.
pub open spec fn stands(facts: FactsView, base: PathView) -> bool {
    forall|j: int|
        0 <= j <= base.len() && facts.stat.contains_key(#[trigger] base.prefix(j))
            ==> facts.stat[base.prefix(j)].kind != EntryKind::Missing
}

/// The search for the deepest ancestor that exists does not pass a base
/// that stands: it ends at or below the base, or where it began.
proof fn lemma_deepest_reaches(facts: FactsView, dst: PathView, base: PathView, k: int)
    requires
        dst.starts_with(base),
        stands(facts, base),
        -1 <= k < dst.len(),
        deepest_existing(facts, dst, k) is Done,
    ensures
        deepest_existing(facts, dst, k)->Done_0 <= k,
        deepest_existing(facts, dst, k)->Done_0 >= k || deepest_existing(facts, dst, k)->Done_0
            >= base.len(),
    decreases k + 1,
{
    if k >= 0 {
        if facts.stat[dst.prefix(k)].kind == EntryKind::Missing {
            if k <= base.len() {
                assert(dst.prefix(k).parts =~= base.prefix(k).parts);
                assert(dst.prefix(k) == base.prefix(k));
            }
            lemma_deepest_reaches(facts, dst, base, k - 1);
        }
    }
}

/// The parent obligations of an operation lie below the base below which
/// its resolved destination lies, where nothing that is known says that the
/// base or one of its ancestors is missing.
pub proof fn lemma_obligations_confined(
    facts: FactsView,
    dst: PathView,
    base: PathView,
    op: OperationView,
)
    requires
        dst.starts_with(base),
        stands(facts, base),
        parent_obligations(facts, Some(dst), op) is Done,
    ensures
        forall|i: int|
            0 <= i < parent_obligations(facts, Some(dst), op)->Done_0.len() ==> (
            #[trigger] parent_obligations(facts, Some(dst), op)->Done_0[i]).starts_with(base),
{
    let parents = parent_obligations(facts, Some(dst), op)->Done_0;
    if op matches OperationView::Mkdir { parents: true, .. } {
        let m = deepest_existing(facts, dst, dst.len() - 1)->Done_0;
        lemma_deepest_reaches(facts, dst, base, dst.len() - 1);
        assert forall|i: int| 0 <= i < parents.len() implies (#[trigger] parents[i]).starts_with(
            base,
        ) by {
            let j = m + 1 + i;
            assert(parents.len() == dst.len() - 1 - m);
            assert(m >= base.len());
            assert(parents[i] == dst.prefix(j));
            assert(base.parts =~= dst.prefix(j).parts.subrange(0, base.len() as int));
        }
    }
}

/// Every parent obligation of every normalized operation lies below the
/// canonical form of the plan's root, where nothing that is known of the
/// file system says that this canonical root or one of its ancestors is
/// missing.
pub proof fn lemma_normalized_parents_confined(facts: FactsView, plan: PlanView, i: int, k: int)
    requires
        normalized(facts, plan) is Done,
        0 <= i < normalized(facts, plan)->Done_0.len(),
        0 <= k < normalized(facts, plan)->Done_0[i].parents.len(),
        facts.canonical.contains_key(plan.root) && facts.canonical[plan.root] is Some ==> stands(
            facts,
            facts.canonical[plan.root]->0,
        ),
    ensures
        facts.canonical.contains_key(plan.root),
        facts.canonical[plan.root] is Some,
        normalized(facts, plan)->Done_0[i].parents[k].starts_with(facts.canonical[plan.root]->0),
{
    lemma_normalized_confined(facts, plan, i);
    lemma_normalized_items(facts, plan.root, plan.operations, 0);
    let op = plan.operations[i];
    assert(op == plan.operations[0 + i]);
    let item = normalized(facts, plan)->Done_0[i];
    assert(normalized_op(facts, plan.root, op, 0) == OutcomeView::Done(item));
    let base = facts.canonical[plan.root]->0;
    if let Some(dst) = item.resolved_dst {
        lemma_obligations_confined(facts, dst, base, op);
    }
}

} // verus!
