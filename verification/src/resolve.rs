//! Root confinement.
//!
//! A path of a plan is resolved against the canonical form of the plan's
//! root. Where the path exists its canonical form is taken; where it does
//! not, the canonical form of its longest existing ancestor is taken, the
//! rest is appended and the whole is normalized lexically. The result is
//! accepted only if it lies below the canonical root, so a symlink that
//! leads outside is refused like a `..` that does.

use crate::facts::{FactsView, FsFacts, FsQuery, Outcome, OutcomeView, QueryView};
use crate::fault::Fault;
use crate::model::{Operation, OperationView, Plan, PlanView};
use crate::path::{FsPath, PathView};
use vstd::prelude::*;

verus! {

/// The longest prefix of `c` with at most `k` components that has a
/// canonical form, with that form.
pub open spec fn anchor(facts: FactsView, c: PathView, k: int) -> OutcomeView<(int, PathView)>
    decreases k + 1,
{
    if k < 0 {
        OutcomeView::Fail(Fault::PrefixMissing)
    } else if !facts.canonical.contains_key(c.prefix(k)) {
        OutcomeView::Ask(QueryView::Canonical(c.prefix(k)))
    } else {
        match facts.canonical[c.prefix(k)] {
            Some(q) => OutcomeView::Done((k, q)),
            None => anchor(facts, c, k - 1),
        }
    }
}

/// The resolved form of the candidate `c`, anchored at its first `k`
/// components, whose canonical form is `q`.
pub open spec fn anchored(c: PathView, k: int, q: PathView) -> PathView {
    if k == c.len() {
        q
    } else {
        q.extend(c.parts.skip(k)).normalize()
    }
}

/// What resolving `path` against `root` gives under the given facts.
pub open spec fn resolve(facts: FactsView, root: PathView, path: PathView) -> OutcomeView<
    PathView,
> {
    if !root.absolute {
        OutcomeView::Fail(Fault::RelativeRoot)
    } else if !facts.canonical.contains_key(root) {
        OutcomeView::Ask(QueryView::Canonical(root))
    } else {
        match facts.canonical[root] {
            None => OutcomeView::Fail(Fault::RootMissing),
            Some(r) => {
                let c = r.join(path);
                match anchor(facts, c, c.len() as int) {
                    OutcomeView::Ask(q) => OutcomeView::Ask(q),
                    OutcomeView::Fail(f) => OutcomeView::Fail(f),
                    OutcomeView::Done((k, q)) => {
                        let full = anchored(c, k, q);
                        if full.starts_with(r) {
                            OutcomeView::Done(full)
                        } else {
                            OutcomeView::Fail(Fault::EscapesRoot)
                        }
                    },
                }
            },
        }
    }
}

/// Resolves `path` against `root`. The result lies below the canonical form
/// of `root`; a path that would not is refused with `EscapesRoot`.
pub fn resolve_path(root: &FsPath, path: &FsPath, facts: &FsFacts) -> (r: Outcome<FsPath>)
    ensures
        r.deep_view() == resolve(facts@, root@, path@),
        r matches Outcome::Done(q) ==> facts@.canonical.contains_key(root@)
            && facts@.canonical[root@] is Some && q@.starts_with(facts@.canonical[root@]->0),
{
    if !root.is_absolute() {
        return Outcome::Fail(Fault::RelativeRoot);
    }
    let base = match facts.canonical(root) {
        None => {
            return Outcome::Ask(FsQuery::Canonical(root.duplicate()));
        },
        Some(None) => {
            return Outcome::Fail(Fault::RootMissing);
        },
        Some(Some(b)) => b,
    };
    let candidate = base.join(path);
    let n = candidate.len();
    let mut k: usize = n;
    loop
        invariant
            k <= n,
            n == candidate@.len(),
            candidate@ == base@.join(path@),
            anchor(facts@, candidate@, n as int) == anchor(facts@, candidate@, k as int),
            root@.absolute,
            facts@.canonical.contains_key(root@),
            facts@.canonical[root@] == Some(base@),
        decreases k,
    {
        let prefix = candidate.prefix(k);
        match facts.canonical(&prefix) {
            None => {
                return Outcome::Ask(FsQuery::Canonical(prefix));
            },
            Some(Some(q)) => {
                let full = if k == n {
                    q.duplicate()
                } else {
                    q.extend_from(&candidate, k).normalize()
                };
                if full.starts_with(base) {
                    return Outcome::Done(full);
                } else {
                    return Outcome::Fail(Fault::EscapesRoot);
                }
            },
            Some(None) => {
                if k == 0 {
                    return Outcome::Fail(Fault::PrefixMissing);
                }
                k = k - 1;
            },
        }
    }
}

/// Facts that are added never change a resolution that was settled.
pub proof fn lemma_anchor_stable(facts: FactsView, more: FactsView, c: PathView, k: int)
    requires
        facts.within(more),
        anchor(facts, c, k).settled(),
    ensures
        anchor(more, c, k) == anchor(facts, c, k),
    decreases k + 1,
{
    if k >= 0 {
        assert(facts.canonical.contains_key(c.prefix(k)));
        assert(more.canonical.contains_key(c.prefix(k)));
        if facts.canonical[c.prefix(k)] is None {
            lemma_anchor_stable(facts, more, c, k - 1);
        }
    }
}

/// Facts that are added never change a resolution that was settled: what a
/// path resolves to depends on the file system alone, not on how much of it
/// was asked for.
pub proof fn lemma_resolve_stable(facts: FactsView, more: FactsView, root: PathView, path: PathView)
    requires
        facts.within(more),
        resolve(facts, root, path).settled(),
    ensures
        resolve(more, root, path) == resolve(facts, root, path),
{
    if root.absolute {
        assert(facts.canonical.contains_key(root));
        assert(more.canonical.contains_key(root));
        if let Some(r) = facts.canonical[root] {
            let c = r.join(path);
            lemma_anchor_stable(facts, more, c, c.len() as int);
        }
    }
}

/// A resolution asks only for what is not known.
pub proof fn lemma_resolve_asks(facts: FactsView, root: PathView, path: PathView)
    requires
        resolve(facts, root, path) is Ask,
    ensures
        !facts.answers(resolve(facts, root, path)->Ask_0),
{
    if root.absolute && facts.canonical.contains_key(root) {
        if let Some(r) = facts.canonical[root] {
            let c = r.join(path);
            lemma_anchor_asks(facts, c, c.len() as int);
        }
    }
}

proof fn lemma_anchor_asks(facts: FactsView, c: PathView, k: int)
    requires
        anchor(facts, c, k) is Ask,
    ensures
        !facts.answers(anchor(facts, c, k)->Ask_0),
    decreases k + 1,
{
    if k >= 0 && facts.canonical.contains_key(c.prefix(k)) {
        lemma_anchor_asks(facts, c, k - 1);
    }
}

/// Every resolved path lies below the canonical form of the root.
pub proof fn lemma_resolved_below_root(facts: FactsView, root: PathView, path: PathView)
    requires
        resolve(facts, root, path) is Done,
    ensures
        facts.canonical.contains_key(root),
        facts.canonical[root] is Some,
        resolve(facts, root, path)->Done_0.starts_with(facts.canonical[root]->0),
{
}

/// Whether the source of `op`, then its destination, resolve below `root`;
/// if not, what the first of them that does not ends with.
pub open spec fn op_confined(facts: FactsView, root: PathView, op: OperationView) -> OutcomeView<
    (),
> {
    let first = match op.src() {
        Some(s) => resolve(facts, root, s).forget(),
        None => OutcomeView::Done(()),
    };
    match first {
        OutcomeView::Done(_) => match op.dst() {
            Some(d) => resolve(facts, root, d).forget(),
            None => OutcomeView::Done(()),
        },
        other => other,
    }
}

/// Whether the operations from index `i` on are confined; if not, what the
/// first path that is not ends with.
pub open spec fn confined_from(facts: FactsView, root: PathView, ops: Seq<OperationView>, i: int)
    -> OutcomeView<()>
    decreases ops.len() - i,
{
    if i < 0 || i >= ops.len() {
        OutcomeView::Done(())
    } else {
        match op_confined(facts, root, ops[i]) {
            OutcomeView::Done(_) => confined_from(facts, root, ops, i + 1),
            other => other,
        }
    }
}

/// What checking a plan for confinement gives: done if every path of every
/// operation resolves below the root, else what the first path that does not
/// ends with.
pub open spec fn confinement(facts: FactsView, plan: PlanView) -> OutcomeView<()> {
    confined_from(facts, plan.root, plan.operations, 0)
}

/// Facts that are added never change a settled check of confinement, and
/// the check asks only for what is not known.
pub proof fn lemma_op_confined_stable(
    facts: FactsView,
    more: FactsView,
    root: PathView,
    op: OperationView,
)
    requires
        facts.within(more),
    ensures
        op_confined(facts, root, op).settled() ==> op_confined(more, root, op) == op_confined(
            facts,
            root,
            op,
        ),
        op_confined(facts, root, op) matches OutcomeView::Ask(q) ==> !facts.answers(q),
{
    if let Some(s) = op.src() {
        if resolve(facts, root, s).settled() {
            lemma_resolve_stable(facts, more, root, s);
        } else {
            lemma_resolve_asks(facts, root, s);
        }
    }
    if let Some(d) = op.dst() {
        if resolve(facts, root, d).settled() {
            lemma_resolve_stable(facts, more, root, d);
        } else {
            lemma_resolve_asks(facts, root, d);
        }
    }
}

/// Checks that the source of `op`, then its destination, resolve below
/// `root`.
pub fn confine_op(root: &FsPath, op: &Operation, facts: &FsFacts) -> (r: Outcome<()>)
    ensures
        r.deep_view() == op_confined(facts@, root@, op@),
{
    if let Some(src) = op.src() {
        match resolve_path(root, src, facts) {
            Outcome::Done(_) => {},
            Outcome::Fail(f) => {
                return Outcome::Fail(f);
            },
            Outcome::Ask(q) => {
                return Outcome::Ask(q);
            },
        }
    }
    if let Some(dst) = op.dst() {
        match resolve_path(root, dst, facts) {
            Outcome::Done(_) => {},
            Outcome::Fail(f) => {
                return Outcome::Fail(f);
            },
            Outcome::Ask(q) => {
                return Outcome::Ask(q);
            },
        }
    }
    Outcome::Done(())
}

/// Checks that every path of every operation stays within the plan's root.
pub fn validate_root_confinement(plan: &Plan, facts: &FsFacts) -> (r: Outcome<()>)
    ensures
        r.deep_view() == confinement(facts@, plan@),
{
    let mut i: usize = 0;
    while i < plan.operations.len()
        invariant
            i <= plan.operations.len(),
            confinement(facts@, plan@) == confined_from(
                facts@,
                plan@.root,
                plan@.operations,
                i as int,
            ),
        decreases plan.operations.len() - i,
    {
        let op = &plan.operations[i];
        assert(plan@.operations[i as int] == op@);
        match confine_op(&plan.root, op, facts) {
            Outcome::Done(_) => {},
            Outcome::Fail(f) => {
                return Outcome::Fail(f);
            },
            Outcome::Ask(q) => {
                return Outcome::Ask(q);
            },
        }
        i = i + 1;
    }
    Outcome::Done(())
}

} // verus!
