//! Collision and symlink policies.
//!
//! A policy only decides: it names the final destination and, where the
//! existing entry has to be moved aside first, the path to move it to. The
//! transaction manager performs the moves.

use crate::facts::{EntryKind, FactsView, FsFacts, FsQuery, Outcome, OutcomeView, QueryView};
use crate::fault::Fault;
use crate::model::{CollisionPolicy, SymlinkPolicy};
use crate::path::{plain, FsPath, PathView};
use crate::text::{decimal, decimal_text, hex, hex_text, lemma_digits_plain};
use vstd::prelude::*;
use vstd::string::*;

verus! {

/// The first counter that is tried under the `suffix` policy.
pub const FIRST_SUFFIX: u64 = 2;

/// One step of the 32-bit FNV-1a hash.
pub open spec fn fnv_step(h: u32, b: u8) -> u32 {
    (((h ^ (b as u32)) as int * 16777619) % 0x1_0000_0000) as u32
}

/// The 32-bit FNV-1a hash of a byte string.
pub open spec fn fnv1a(bytes: Seq<u8>) -> u32
    decreases bytes.len(),
{
    if bytes.len() == 0 {
        2166136261u32
    } else {
        fnv_step(fnv1a(bytes.drop_last()), bytes.last())
    }
}

/// The token of the `hash8` policy: the 32-bit FNV-1a hash of the source's
/// bytes in eight lower-case hex digits.
pub open spec fn token_text(bytes: Seq<u8>) -> Seq<char> {
    hex_text(fnv1a(bytes) as nat, 8)
}

/// The destination with `.` and the counter appended to its name.
pub open spec fn suffix_candidate(dst: PathView, k: nat) -> PathView {
    dst.with_suffix(seq!['.'] + decimal_text(k))
}

/// The destination with `.` and the token appended to its name.
pub open spec fn hash_candidate(dst: PathView, bytes: Seq<u8>) -> PathView {
    dst.with_suffix(seq!['.'] + token_text(bytes))
}

/// The path that an existing destination is moved to before it is
/// overwritten.
pub open spec fn backup_of(dst: PathView) -> PathView {
    dst.with_suffix(".backup"@)
}

/// The first numbered candidate from counter `k` on that does not exist.
pub open spec fn first_free(facts: FactsView, dst: PathView, k: nat) -> OutcomeView<PathView>
    decreases u64::MAX - k + 1,
{
    if k > u64::MAX {
        OutcomeView::Fail(Fault::SuffixExhausted)
    } else {
        let c = suffix_candidate(dst, k);
        if !facts.stat.contains_key(c) {
            OutcomeView::Ask(QueryView::Stat(c))
        } else if facts.stat[c].kind == EntryKind::Missing {
            OutcomeView::Done(c)
        } else {
            first_free(facts, dst, k + 1)
        }
    }
}

/// What the `suffix` policy decides for an existing destination.
pub open spec fn on_suffix(facts: FactsView, dst: PathView) -> OutcomeView<
    (PathView, Option<PathView>),
> {
    match first_free(facts, dst, FIRST_SUFFIX as nat) {
        OutcomeView::Done(c) => OutcomeView::Done((c, None)),
        OutcomeView::Fail(f) => OutcomeView::Fail(f),
        OutcomeView::Ask(q) => OutcomeView::Ask(q),
    }
}

/// What the `hash8` policy decides for an existing destination. Without a
/// source that can be read there is nothing to derive a token from.
pub open spec fn on_hash(facts: FactsView, dst: PathView, src: Option<PathView>) -> OutcomeView<
    (PathView, Option<PathView>),
> {
    match src {
        None => OutcomeView::Fail(Fault::SourceUnreadable),
        Some(s) => if !facts.content.contains_key(s) {
            OutcomeView::Ask(QueryView::Content(s))
        } else {
            match facts.content[s] {
                None => OutcomeView::Fail(Fault::SourceUnreadable),
                Some(bytes) => OutcomeView::Done((hash_candidate(dst, bytes), None)),
            }
        },
    }
}

/// What the collision policy decides for the destination `dst` of an
/// operation with source `src`: the final destination and, if the existing
/// entry must be moved aside first, where to.
pub open spec fn collision(
    facts: FactsView,
    policy: CollisionPolicy,
    dst: PathView,
    allow_overwrite: bool,
    src: Option<PathView>,
) -> OutcomeView<(PathView, Option<PathView>)> {
    if !facts.stat.contains_key(dst) {
        OutcomeView::Ask(QueryView::Stat(dst))
    } else if facts.stat[dst].kind == EntryKind::Missing {
        OutcomeView::Done((dst, None))
    } else {
        match policy {
            CollisionPolicy::Fail => OutcomeView::Fail(Fault::DestinationExists),
            CollisionPolicy::Suffix => on_suffix(facts, dst),
            CollisionPolicy::Hash8 => on_hash(facts, dst, src),
            CollisionPolicy::OverwriteWithBackup => if allow_overwrite {
                OutcomeView::Done((dst, Some(backup_of(dst))))
            } else {
                OutcomeView::Fail(Fault::OverwriteNotAllowed)
            },
        }
    }
}

/// The 32-bit FNV-1a hash of `bytes`.
pub fn fnv1a_hash(bytes: &Vec<u8>) -> (h: u32)
    ensures
        h == fnv1a(bytes@),
{
    let mut h: u32 = 2166136261u32;
    let mut i: usize = 0;
    while i < bytes.len()
        invariant
            i <= bytes.len(),
            h == fnv1a(bytes@.take(i as int)),
        decreases bytes.len() - i,
    {
        proof {
            let next = bytes@.take(i as int + 1);
            assert(next.drop_last() =~= bytes@.take(i as int));
            assert(next.last() == bytes[i as int]);
        }
        let mixed: u64 = (h ^ (bytes[i] as u32)) as u64;
        h = ((mixed * 16777619u64) % 0x1_0000_0000u64) as u32;
        i = i + 1;
    }
    assert(bytes@.take(i as int) =~= bytes@);
    h
}

/// The `hash8` token for a source with the given bytes.
pub fn content_token(bytes: &Vec<u8>) -> (s: String)
    ensures
        s@ == token_text(bytes@),
{
    hex(fnv1a_hash(bytes) as u64, 8)
}

fn dotted(dst: &FsPath, tail: String) -> (p: FsPath)
    requires
        plain(tail@),
    ensures
        p@ == dst@.with_suffix(seq!['.'] + tail@),
{
    proof {
        reveal_strlit(".");
    }
    let text = String::from_str(".").concat(tail.as_str());
    assert(text@ =~= seq!['.'] + tail@);
    dst.with_suffix(text.as_str())
}

/// The destination under the `hash8` policy for a source with the given
/// bytes.
pub fn hashed(dst: &FsPath, bytes: &Vec<u8>) -> (p: FsPath)
    ensures
        p@ == hash_candidate(dst@, bytes@),
{
    proof {
        lemma_digits_plain(fnv1a(bytes@) as nat, 8);
    }
    dotted(dst, content_token(bytes))
}

/// The path that an existing `dst` is moved to before it is overwritten.
pub fn backup_path(dst: &FsPath) -> (p: FsPath)
    ensures
        p@ == backup_of(dst@),
{
    proof {
        reveal_strlit(".backup");
    }
    dst.with_suffix(".backup")
}

/// The first of `dst.2`, `dst.3`, … that does not exist. The probing is
/// sequential and stops at the first candidate that is free.
pub fn first_free_candidate(dst: &FsPath, facts: &FsFacts) -> (r: Outcome<FsPath>)
    ensures
        r.deep_view() == first_free(facts@, dst@, FIRST_SUFFIX as nat),
{
    let mut counter: u64 = FIRST_SUFFIX;
    loop
        invariant
            FIRST_SUFFIX <= counter,
            first_free(facts@, dst@, FIRST_SUFFIX as nat) == first_free(
                facts@,
                dst@,
                counter as nat,
            ),
        decreases u64::MAX - counter,
    {
        proof {
            lemma_digits_plain(counter as nat, 0);
        }
        let candidate = dotted(dst, decimal(counter));
        assert(candidate@ == suffix_candidate(dst@, counter as nat));
        match facts.stat(&candidate) {
            None => {
                return Outcome::Ask(FsQuery::Stat(candidate));
            },
            Some(st) => {
                if st.kind == EntryKind::Missing {
                    return Outcome::Done(candidate);
                }
            },
        }
        if counter == u64::MAX {
            assert(first_free(facts@, dst@, (counter + 1) as nat) == OutcomeView::<PathView>::Fail(
                Fault::SuffixExhausted,
            ));
            return Outcome::Fail(Fault::SuffixExhausted);
        }
        assert(first_free(facts@, dst@, counter as nat) == first_free(
            facts@,
            dst@,
            (counter + 1) as nat,
        ));
        counter = counter + 1;
    }
}

/// Applies the collision policy to the destination `dst` of an operation
/// whose source is `src`. A destination that does not exist is returned as
/// it is, whatever the policy. Otherwise: `fail` refuses; `suffix` returns
/// the first of `dst.2`, `dst.3`, … that does not exist; `hash8` returns
/// `dst.` followed by the token of the source's bytes; and
/// `overwrite_with_backup`, if overwriting is allowed, returns `dst` itself
/// together with `dst.backup`, to which the caller has to move the existing
/// entry first.
pub fn resolve_collision(
    policy: CollisionPolicy,
    dst: &FsPath,
    allow_overwrite: bool,
    src: Option<&FsPath>,
    facts: &FsFacts,
) -> (r: Outcome<(FsPath, Option<FsPath>)>)
    ensures
        r.deep_view() == collision(facts@, policy, dst@, allow_overwrite, src.deep_view()),
{
    match facts.stat(dst) {
        None => {
            return Outcome::Ask(FsQuery::Stat(dst.duplicate()));
        },
        Some(st) => {
            if st.kind == EntryKind::Missing {
                return Outcome::Done((dst.duplicate(), None));
            }
        },
    }
    match policy {
        CollisionPolicy::Fail => Outcome::Fail(Fault::DestinationExists),
        CollisionPolicy::Suffix => by_suffix(dst, facts),
        CollisionPolicy::Hash8 => by_hash(dst, src, facts),
        CollisionPolicy::OverwriteWithBackup => {
            if !allow_overwrite {
                return Outcome::Fail(Fault::OverwriteNotAllowed);
            }
            Outcome::Done((dst.duplicate(), Some(backup_path(dst))))
        },
    }
}

fn by_suffix(dst: &FsPath, facts: &FsFacts) -> (r: Outcome<(FsPath, Option<FsPath>)>)
    ensures
        r.deep_view() == on_suffix(facts@, dst@),
{
    match first_free_candidate(dst, facts) {
        Outcome::Done(c) => Outcome::Done((c, None)),
        Outcome::Fail(f) => Outcome::Fail(f),
        Outcome::Ask(q) => Outcome::Ask(q),
    }
}

fn by_hash(dst: &FsPath, src: Option<&FsPath>, facts: &FsFacts) -> (r: Outcome<
    (FsPath, Option<FsPath>),
>)
    ensures
        r.deep_view() == on_hash(facts@, dst@, src.deep_view()),
{
    match src {
        None => Outcome::Fail(Fault::SourceUnreadable),
        Some(source) => match facts.content(source) {
            None => Outcome::Ask(FsQuery::Content(source.duplicate())),
            Some(None) => Outcome::Fail(Fault::SourceUnreadable),
            Some(Some(bytes)) => {
                assert(bytes.deep_view() =~= bytes@);
                Outcome::Done((hashed(dst, bytes), None))
            },
        },
    }
}

/// What the symlink policy decides for `path`.
pub open spec fn symlink_verdict(facts: FactsView, policy: SymlinkPolicy, path: PathView)
    -> OutcomeView<()> {
    if !facts.stat.contains_key(path) {
        OutcomeView::Ask(QueryView::Stat(path))
    } else if facts.stat[path].symlink {
        match policy {
            SymlinkPolicy::Follow => OutcomeView::Done(()),
            SymlinkPolicy::Skip => OutcomeView::Fail(Fault::SymlinkSkipped),
            SymlinkPolicy::Error => OutcomeView::Fail(Fault::SymlinkNotAllowed),
        }
    } else if facts.stat[path].kind == EntryKind::Missing {
        OutcomeView::Fail(Fault::SourceMissing)
    } else {
        OutcomeView::Done(())
    }
}

/// Applies the symlink policy to `path`: a symlink is accepted under
/// `follow` and refused under `skip` and `error`; what is no symlink is
/// accepted if it exists.
pub fn handle_symlink(policy: SymlinkPolicy, path: &FsPath, facts: &FsFacts) -> (r: Outcome<()>)
    ensures
        r.deep_view() == symlink_verdict(facts@, policy, path@),
{
    match facts.stat(path) {
        None => Outcome::Ask(FsQuery::Stat(path.duplicate())),
        Some(st) => {
            if st.symlink {
                match policy {
                    SymlinkPolicy::Follow => Outcome::Done(()),
                    SymlinkPolicy::Skip => Outcome::Fail(Fault::SymlinkSkipped),
                    SymlinkPolicy::Error => Outcome::Fail(Fault::SymlinkNotAllowed),
                }
            } else if st.kind == EntryKind::Missing {
                Outcome::Fail(Fault::SourceMissing)
            } else {
                Outcome::Done(())
            }
        },
    }
}

proof fn lemma_first_free_stable(facts: FactsView, more: FactsView, dst: PathView, k: nat)
    requires
        facts.within(more),
        first_free(facts, dst, k).settled(),
    ensures
        first_free(more, dst, k) == first_free(facts, dst, k),
    decreases u64::MAX - k + 1,
{
    if k <= u64::MAX {
        let c = suffix_candidate(dst, k);
        assert(facts.stat.contains_key(c));
        assert(more.stat.contains_key(c));
        if facts.stat[c].kind != EntryKind::Missing {
            lemma_first_free_stable(facts, more, dst, k + 1);
        }
    }
}

/// Facts that are added never change what the collision policy has
/// decided.
pub proof fn lemma_collision_stable(
    facts: FactsView,
    more: FactsView,
    policy: CollisionPolicy,
    dst: PathView,
    allow_overwrite: bool,
    src: Option<PathView>,
)
    requires
        facts.within(more),
        collision(facts, policy, dst, allow_overwrite, src).settled(),
    ensures
        collision(more, policy, dst, allow_overwrite, src) == collision(
            facts,
            policy,
            dst,
            allow_overwrite,
            src,
        ),
{
    assert(facts.stat.contains_key(dst));
    assert(more.stat.contains_key(dst));
    if facts.stat[dst].kind != EntryKind::Missing {
        if policy == CollisionPolicy::Suffix {
            lemma_first_free_stable(facts, more, dst, FIRST_SUFFIX as nat);
        }
        if policy == CollisionPolicy::Hash8 {
            if let Some(s) = src {
                assert(facts.content.contains_key(s));
                assert(more.content.contains_key(s));
            }
        }
    }
}

} // verus!
