//! What the library knows of the file system.
//!
//! The library never looks at the file system. A function that needs to know
//! something of it looks the answer up in an [`FsFacts`] table; where the
//! table has no answer, the function returns the query instead of a result.
//! The caller performs the query, records the answer and calls again.

use crate::fault::Fault;
use crate::path::{FsPath, PathView};
use vstd::prelude::*;

verus! {

/// What a path leads to, symlinks followed.
#[derive(Debug, Clone, Copy, PartialEq, Eq, Structural)]
pub enum EntryKind {
    Missing,
    File,
    Dir,
    Other,
}

/// What the file system says of one path.
#[derive(Debug, Clone, Copy, PartialEq, Eq)]
pub struct Stat {
    /// What the path leads to, symlinks followed.
    pub kind: EntryKind,
    /// Whether the path itself is a symlink.
    pub symlink: bool,
    /// The volume that holds what the path leads to, where the platform
    /// tells.
    pub device: Option<u64>,
}

impl DeepView for Stat {
    type V = Stat;

    open spec fn deep_view(&self) -> Stat {
        *self
    }
}

/// One entry of a listed tree.
#[derive(Debug, Clone, PartialEq, Eq)]
pub struct WalkEntry {
    pub path: FsPath,
    pub is_dir: bool,
}

/// The mathematical value of a [`WalkEntry`].
pub struct WalkEntryView {
    pub path: PathView,
    pub is_dir: bool,
}

impl DeepView for WalkEntry {
    type V = WalkEntryView;

    open spec fn deep_view(&self) -> WalkEntryView {
        WalkEntryView { path: self.path@, is_dir: self.is_dir }
    }
}

/// A question to the file system.
#[derive(Debug, Clone, PartialEq, Eq)]
pub enum FsQuery {
    /// The canonical form of a path, symlinks resolved; none if the path
    /// does not exist.
    Canonical(FsPath),
    /// Kind, symlink flag and volume of a path.
    Stat(FsPath),
    /// The tree below a path: the path itself first, then what it holds.
    Walk(FsPath),
    /// The bytes of a file.
    Content(FsPath),
}

/// The mathematical value of an [`FsQuery`].
pub enum QueryView {
    Canonical(PathView),
    Stat(PathView),
    Walk(PathView),
    Content(PathView),
}

impl DeepView for FsQuery {
    type V = QueryView;

    open spec fn deep_view(&self) -> QueryView {
        match self {
            FsQuery::Canonical(p) => QueryView::Canonical(p@),
            FsQuery::Stat(p) => QueryView::Stat(p@),
            FsQuery::Walk(p) => QueryView::Walk(p@),
            FsQuery::Content(p) => QueryView::Content(p@),
        }
    }
}

/// How a function that consults the facts ends: with its result, with a
/// failure, or with the query whose answer it lacks.
#[derive(Debug, Clone, PartialEq, Eq)]
pub enum Outcome<T> {
    Done(T),
    Fail(Fault),
    Ask(FsQuery),
}

/// The mathematical value of an [`Outcome`].
pub enum OutcomeView<T> {
    Done(T),
    Fail(Fault),
    Ask(QueryView),
}

impl<T: DeepView> DeepView for Outcome<T> {
    type V = OutcomeView<T::V>;

    open spec fn deep_view(&self) -> OutcomeView<T::V> {
        match self {
            Outcome::Done(t) => OutcomeView::Done(t.deep_view()),
            Outcome::Fail(f) => OutcomeView::Fail(*f),
            Outcome::Ask(q) => OutcomeView::Ask(q.deep_view()),
        }
    }
}

impl<T> OutcomeView<T> {
    /// Whether the function ended without a query left open.
    pub open spec fn settled(self) -> bool {
        !(self is Ask)
    }

    /// The same ending without the result's value.
    pub open spec fn forget(self) -> OutcomeView<()> {
        match self {
            OutcomeView::Done(_) => OutcomeView::Done(()),
            OutcomeView::Fail(f) => OutcomeView::Fail(f),
            OutcomeView::Ask(q) => OutcomeView::Ask(q),
        }
    }
}

/// The map that a list of recorded answers stands for: a later answer for a
/// path replaces an earlier one.
pub open spec fn table_map<A>(entries: Seq<(PathView, A)>) -> Map<PathView, A>
    decreases entries.len(),
{
    if entries.len() == 0 {
        Map::empty()
    } else {
        table_map(entries.drop_last()).insert(entries.last().0, entries.last().1)
    }
}

/// Recorded answers of one kind, by path.
#[derive(Debug, Clone)]
pub struct Table<V> {
    entries: Vec<(FsPath, V)>,
}

impl<V: DeepView> Table<V> {
    /// The answers as a map from path to answer.
    pub closed spec fn view(&self) -> Map<PathView, V::V> {
        table_map(self.entries.deep_view())
    }

    /// A table without answers.
    pub fn new() -> (t: Self)
        ensures
            t@ == Map::<PathView, V::V>::empty(),
    {
        Table { entries: Vec::new() }
    }

    /// The recorded answer for `key`, if there is one.
    pub fn get(&self, key: &FsPath) -> (r: Option<&V>)
        ensures
            match r {
                Some(v) => self@.contains_key(key@) && self@[key@] == v.deep_view(),
                None => !self@.contains_key(key@),
            },
    {
        let n = self.entries.len();
        let mut found: Option<usize> = None;
        let mut i: usize = 0;
        while i < n
            invariant
                i <= n,
                n == self.entries.len(),
                match found {
                    Some(j) => j < i && table_map(
                        self.entries.deep_view().take(i as int),
                    ).contains_key(key@) && table_map(self.entries.deep_view().take(i as int))[key@]
                        == self.entries[j as int].1.deep_view(),
                    None => !table_map(self.entries.deep_view().take(i as int)).contains_key(
                        key@,
                    ),
                },
            decreases n - i,
        {
            proof {
                let es = self.entries.deep_view().take(i as int + 1);
                assert(es.drop_last() =~= self.entries.deep_view().take(i as int));
                assert(es.last() == self.entries[i as int].deep_view());
            }
            if self.entries[i].0.same(key) {
                found = Some(i);
            }
            i = i + 1;
        }
        proof {
            assert(self.entries.deep_view().take(n as int) =~= self.entries.deep_view());
        }
        match found {
            Some(j) => Some(&self.entries[j].1),
            None => None,
        }
    }

    /// Records `value` as the answer for `key`, in place of any earlier one.
    pub fn insert(&mut self, key: FsPath, value: V)
        ensures
            final(self)@ == old(self)@.insert(key@, value.deep_view()),
    {
        let ghost es = self.entries.deep_view();
        self.entries.push((key, value));
        proof {
            assert(self.entries.deep_view().drop_last() =~= es);
            assert(self.entries.deep_view().last() == (key@, value.deep_view()));
        }
    }

    /// Forgets every answer.
    pub fn clear(&mut self)
        ensures
            final(self)@ == Map::<PathView, V::V>::empty(),
    {
        self.entries.clear();
    }
}

/// The mathematical value of [`FsFacts`]: one partial map per kind of query.
pub struct FactsView {
    pub canonical: Map<PathView, Option<PathView>>,
    pub stat: Map<PathView, Stat>,
    pub walk: Map<PathView, Option<Seq<WalkEntryView>>>,
    pub content: Map<PathView, Option<Seq<u8>>>,
}

impl FactsView {
    /// Nothing known.
    pub open spec fn empty() -> FactsView {
        FactsView {
            canonical: Map::empty(),
            stat: Map::empty(),
            walk: Map::empty(),
            content: Map::empty(),
        }
    }

    /// Every answer of `self` is an answer of `other`.
    pub open spec fn within(self, other: FactsView) -> bool {
        &&& self.canonical.submap_of(other.canonical)
        &&& self.stat.submap_of(other.stat)
        &&& self.walk.submap_of(other.walk)
        &&& self.content.submap_of(other.content)
    }

    /// Whether the query has an answer.
    pub open spec fn answers(self, q: QueryView) -> bool {
        match q {
            QueryView::Canonical(p) => self.canonical.contains_key(p),
            QueryView::Stat(p) => self.stat.contains_key(p),
            QueryView::Walk(p) => self.walk.contains_key(p),
            QueryView::Content(p) => self.content.contains_key(p),
        }
    }
}

/// The answers recorded so far.
#[derive(Debug, Clone)]
pub struct FsFacts {
    canonical: Table<Option<FsPath>>,
    stat: Table<Stat>,
    walk: Table<Option<Vec<WalkEntry>>>,
    content: Table<Option<Vec<u8>>>,
}

impl View for FsFacts {
    type V = FactsView;

    closed spec fn view(&self) -> FactsView {
        FactsView {
            canonical: self.canonical@,
            stat: self.stat@,
            walk: self.walk@,
            content: self.content@,
        }
    }
}

impl FsFacts {
    /// No answers.
    pub fn new() -> (f: FsFacts)
        ensures
            f@ == FactsView::empty(),
    {
        FsFacts {
            canonical: Table::new(),
            stat: Table::new(),
            walk: Table::new(),
            content: Table::new(),
        }
    }

    /// Forgets every answer. To be called when the file system has changed.
    pub fn clear(&mut self)
        ensures
            final(self)@ == FactsView::empty(),
    {
        self.canonical.clear();
        self.stat.clear();
        self.walk.clear();
        self.content.clear();
    }

    /// Records the canonical form of `path`, or that it has none.
    pub fn record_canonical(&mut self, path: FsPath, answer: Option<FsPath>)
        ensures
            final(self)@ == (FactsView {
                canonical: old(self)@.canonical.insert(path@, answer.deep_view()),
                ..old(self)@
            }),
    {
        self.canonical.insert(path, answer);
    }

    /// Records what the file system says of `path`.
    pub fn record_stat(&mut self, path: FsPath, answer: Stat)
        ensures
            final(self)@ == (FactsView {
                stat: old(self)@.stat.insert(path@, answer),
                ..old(self)@
            }),
    {
        self.stat.insert(path, answer);
    }

    /// Records the tree below `path`, or that it could not be listed.
    pub fn record_walk(&mut self, path: FsPath, answer: Option<Vec<WalkEntry>>)
        ensures
            final(self)@ == (FactsView {
                walk: old(self)@.walk.insert(path@, answer.deep_view()),
                ..old(self)@
            }),
    {
        self.walk.insert(path, answer);
    }

    /// Records the bytes of the file at `path`, or that it could not be read.
    pub fn record_content(&mut self, path: FsPath, answer: Option<Vec<u8>>)
        ensures
            final(self)@ == (FactsView {
                content: old(self)@.content.insert(path@, answer.deep_view()),
                ..old(self)@
            }),
    {
        self.content.insert(path, answer);
    }

    /// The canonical form recorded for `path`.
    pub fn canonical(&self, path: &FsPath) -> (r: Option<&Option<FsPath>>)
        ensures
            match r {
                Some(a) => self@.canonical.contains_key(path@) && self@.canonical[path@]
                    == a.deep_view(),
                None => !self@.canonical.contains_key(path@),
            },
    {
        self.canonical.get(path)
    }

    /// What is recorded of `path`.
    pub fn stat(&self, path: &FsPath) -> (r: Option<Stat>)
        ensures
            match r {
                Some(a) => self@.stat.contains_key(path@) && self@.stat[path@] == a,
                None => !self@.stat.contains_key(path@),
            },
    {
        match self.stat.get(path) {
            Some(s) => Some(*s),
            None => None,
        }
    }

    /// The tree recorded below `path`.
    pub fn walk(&self, path: &FsPath) -> (r: Option<&Option<Vec<WalkEntry>>>)
        ensures
            match r {
                Some(a) => self@.walk.contains_key(path@) && self@.walk[path@] == a.deep_view(),
                None => !self@.walk.contains_key(path@),
            },
    {
        self.walk.get(path)
    }

    /// The bytes recorded for `path`.
    pub fn content(&self, path: &FsPath) -> (r: Option<&Option<Vec<u8>>>)
        ensures
            match r {
                Some(a) => self@.content.contains_key(path@) && self@.content[path@]
                    == a.deep_view(),
                None => !self@.content.contains_key(path@),
            },
    {
        self.content.get(path)
    }
}

} // verus!
