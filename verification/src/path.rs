//! Lexical paths.
//!
//! A path is a flag that says whether it starts at the file-system root and
//! a sequence of components. Everything here is pure: no function looks at
//! the file system. Components are kept exactly as written, so `.` and `..`
//! survive parsing and are only removed by [`FsPath::normalize`].

use vstd::prelude::*;
use vstd::string::*;

verus! {

broadcast use vstd::string::group_string_axioms;

/// The mathematical value of a path.
pub struct PathView {
    pub absolute: bool,
    pub parts: Seq<Seq<char>>,
}

/// Whether a text can be one component of a path: it is not empty and holds
/// no separator.
pub open spec fn valid_part(s: Seq<char>) -> bool {
    s.len() > 0 && plain(s)
}

/// Whether a text holds no separator.
pub open spec fn plain(s: Seq<char>) -> bool {
    forall|i: int| 0 <= i < s.len() ==> s[i] != '/'
}

/// Whether every text of a sequence can be a component.
pub open spec fn valid_parts(parts: Seq<Seq<char>>) -> bool {
    forall|i: int| 0 <= i < parts.len() ==> valid_part(#[trigger] parts[i])
}

/// The component `.`.
pub open spec fn dot() -> Seq<char> {
    seq!['.']
}

/// The component `..`.
pub open spec fn dotdot() -> Seq<char> {
    seq!['.', '.']
}

/// Components of a path after `.` is dropped and `..` has removed the
/// component before it. At the start of an absolute path `..` has nothing to
/// remove and is dropped; at the start of a relative path it is kept, since
/// dropping it would name another place.
pub open spec fn collapse(parts: Seq<Seq<char>>, absolute: bool) -> Seq<Seq<char>>
    decreases parts.len(),
{
    if parts.len() == 0 {
        Seq::empty()
    } else {
        let init = collapse(parts.drop_last(), absolute);
        let last = parts.last();
        if last == dot() {
            init
        } else if last == dotdot() {
            if init.len() > 0 && init.last() != dotdot() {
                init.drop_last()
            } else if absolute {
                init
            } else {
                init.push(last)
            }
        } else {
            init.push(last)
        }
    }
}

/// The scan behind [`split`]: the components closed so far, and the
/// characters read since the last separator.
pub open spec fn scan(s: Seq<char>) -> (Seq<Seq<char>>, Seq<char>)
    decreases s.len(),
{
    if s.len() == 0 {
        (Seq::empty(), Seq::empty())
    } else {
        let (done, cur) = scan(s.drop_last());
        if s.last() == '/' {
            (
                if cur.len() > 0 {
                    done.push(cur)
                } else {
                    done
                },
                Seq::empty(),
            )
        } else {
            (done, cur.push(s.last()))
        }
    }
}

/// The non-empty runs of characters between separators, in order.
pub open spec fn split(s: Seq<char>) -> Seq<Seq<char>> {
    let (done, cur) = scan(s);
    if cur.len() > 0 {
        done.push(cur)
    } else {
        done
    }
}

/// The path that a text denotes.
pub open spec fn parse_text(s: Seq<char>) -> PathView {
    PathView { absolute: s.len() > 0 && s[0] == '/', parts: split(s) }
}

/// Components joined by one separator each.
pub open spec fn join_parts(parts: Seq<Seq<char>>) -> Seq<char>
    decreases parts.len(),
{
    if parts.len() == 0 {
        Seq::empty()
    } else if parts.len() == 1 {
        parts[0]
    } else {
        join_parts(parts.drop_last()) + seq!['/'] + parts.last()
    }
}

/// Index of the last `.` of a file name, or -1.
pub open spec fn last_dot(name: Seq<char>) -> int
    decreases name.len(),
{
    if name.len() == 0 {
        -1
    } else if name.last() == '.' {
        name.len() - 1
    } else {
        last_dot(name.drop_last())
    }
}

/// A file name without its extension. A name whose only `.` is its first
/// character has no extension.
pub open spec fn stem(name: Seq<char>) -> Seq<char> {
    let i = last_dot(name);
    if i <= 0 {
        name
    } else {
        name.take(i)
    }
}

impl PathView {
    /// Whether every component is a component: not empty, and without a
    /// separator inside. Every path that the library holds is well formed.
    pub open spec fn wf(self) -> bool {
        valid_parts(self.parts)
    }

    /// Number of components.
    pub open spec fn len(self) -> nat {
        self.parts.len()
    }

    /// The first `k` components.
    pub open spec fn prefix(self, k: int) -> PathView {
        PathView { absolute: self.absolute, parts: self.parts.take(k) }
    }

    /// Component-wise containment: `base` names this path or one of its
    /// ancestors.
    pub open spec fn starts_with(self, base: PathView) -> bool {
        self.absolute == base.absolute && base.parts.is_prefix_of(self.parts)
    }

    /// `other` appended to this path; an absolute `other` replaces it.
    pub open spec fn join(self, other: PathView) -> PathView {
        if other.absolute {
            other
        } else {
            PathView { absolute: self.absolute, parts: self.parts + other.parts }
        }
    }

    /// This path followed by the given components.
    pub open spec fn extend(self, more: Seq<Seq<char>>) -> PathView {
        PathView { absolute: self.absolute, parts: self.parts + more }
    }

    /// The path without its last component.
    pub open spec fn parent(self) -> Option<PathView> {
        if self.parts.len() == 0 {
            None
        } else {
            Some(PathView { absolute: self.absolute, parts: self.parts.drop_last() })
        }
    }

    /// Lexical normal form.
    pub open spec fn normalize(self) -> PathView {
        PathView { absolute: self.absolute, parts: collapse(self.parts, self.absolute) }
    }

    /// The text appended to the last component. A path without components
    /// is left as it is.
    pub open spec fn with_suffix(self, text: Seq<char>) -> PathView {
        if self.parts.len() == 0 {
            self
        } else {
            PathView {
                absolute: self.absolute,
                parts: self.parts.drop_last().push(self.parts.last() + text),
            }
        }
    }

    /// The extension of the last component replaced. A path without
    /// components is left as it is.
    pub open spec fn with_extension(self, ext: Seq<char>) -> PathView {
        if self.parts.len() == 0 {
            self
        } else {
            PathView {
                absolute: self.absolute,
                parts: self.parts.drop_last().push(stem(self.parts.last()) + seq!['.'] + ext),
            }
        }
    }

    /// What is left of this path below `base`, as a relative path.
    pub open spec fn strip_prefix(self, base: PathView) -> Option<PathView> {
        if self.starts_with(base) {
            Some(PathView { absolute: false, parts: self.parts.skip(base.parts.len() as int) })
        } else {
            None
        }
    }

    /// The path written out.
    pub open spec fn text(self) -> Seq<char> {
        if self.absolute {
            seq!['/'] + join_parts(self.parts)
        } else {
            join_parts(self.parts)
        }
    }
}

/// A path as the library holds it.
#[derive(Debug, PartialEq, Eq)]
pub struct FsPath {
    absolute: bool,
    parts: Vec<String>,
}

impl View for FsPath {
    type V = PathView;

    closed spec fn view(&self) -> PathView {
        PathView { absolute: self.absolute, parts: self.parts.deep_view() }
    }
}

impl DeepView for FsPath {
    type V = PathView;

    open spec fn deep_view(&self) -> PathView {
        self@
    }
}

impl Clone for FsPath {
    fn clone(&self) -> (p: FsPath)
        ensures
            p@ == self@,
    {
        self.duplicate()
    }
}

impl FsPath {
    #[verifier::type_invariant]
    spec fn inv(&self) -> bool {
        valid_parts(self.parts.deep_view())
    }

    /// Does nothing when run. To the verifier it shows that this path, like
    /// every path that the library holds, is well formed.
    pub fn well_formed(&self)
        ensures
            self@.wf(),
    {
        proof {
            use_type_invariant(self);
        }
    }
}

/// What is read up to a separator holds none, and every component closed
/// before it is a component.
pub proof fn lemma_scan_valid(s: Seq<char>)
    ensures
        valid_parts(scan(s).0),
        plain(scan(s).1),
    decreases s.len(),
{
    if s.len() > 0 {
        lemma_scan_valid(s.drop_last());
    }
}

/// Parsing gives a well-formed path.
pub proof fn lemma_parse_wf(s: Seq<char>)
    ensures
        parse_text(s).wf(),
{
    lemma_scan_valid(s);
}

/// Normalizing keeps components as they are.
pub proof fn lemma_collapse_valid(parts: Seq<Seq<char>>, absolute: bool)
    requires
        valid_parts(parts),
    ensures
        valid_parts(collapse(parts, absolute)),
    decreases parts.len(),
{
    if parts.len() > 0 {
        assert(valid_parts(parts.drop_last())) by {
            assert forall|i: int| 0 <= i < parts.drop_last().len() implies valid_part(
                #[trigger] parts.drop_last()[i],
            ) by {
                assert(parts.drop_last()[i] == parts[i]);
            }
        }
        lemma_collapse_valid(parts.drop_last(), absolute);
        assert(valid_part(parts.last()));
    }
}

/// Reading on over text without a separator only lengthens what is read.
proof fn lemma_scan_plain(s: Seq<char>, w: Seq<char>)
    requires
        plain(w),
    ensures
        scan(s + w) == (scan(s).0, scan(s).1 + w),
    decreases w.len(),
{
    if w.len() == 0 {
        assert(s + w =~= s);
        assert(scan(s).1 + w =~= scan(s).1);
    } else {
        assert(plain(w.drop_last()));
        lemma_scan_plain(s, w.drop_last());
        assert((s + w).drop_last() =~= s + w.drop_last());
        assert((s + w).last() == w.last());
        assert(w.last() == w[w.len() - 1]);
        assert(scan(s).1 + w =~= (scan(s).1 + w.drop_last()).push(w.last()));
    }
}

/// Reading components joined by separators gives the components: all but
/// the last closed, the last being read.
proof fn lemma_scan_join(head: Seq<char>, parts: Seq<Seq<char>>)
    requires
        valid_parts(parts),
        parts.len() > 0,
        scan(head) == (Seq::<Seq<char>>::empty(), Seq::<char>::empty()),
    ensures
        scan(head + join_parts(parts)) == (parts.drop_last(), parts.last()),
    decreases parts.len(),
{
    if parts.len() == 1 {
        lemma_scan_plain(head, parts[0]);
        assert(parts.drop_last() =~= Seq::<Seq<char>>::empty());
        assert(Seq::<char>::empty() + parts[0] =~= parts[0]);
    } else {
        let init = parts.drop_last();
        assert(valid_parts(init)) by {
            assert forall|i: int| 0 <= i < init.len() implies valid_part(#[trigger] init[i]) by {
                assert(init[i] == parts[i]);
            }
        }
        lemma_scan_join(head, init);
        let before = head + join_parts(init);
        let cut = before + seq!['/'];
        assert(cut.drop_last() =~= before);
        assert(cut.last() == '/');
        assert(valid_part(init.last()));
        assert(scan(cut) == (init.drop_last().push(init.last()), Seq::<char>::empty()));
        assert(init.drop_last().push(init.last()) =~= init);
        assert(valid_part(parts.last()));
        lemma_scan_plain(cut, parts.last());
        assert(head + join_parts(parts) =~= cut + parts.last());
        assert(Seq::<char>::empty() + parts.last() =~= parts.last());
    }
}

/// Writing a well-formed path out and parsing the text gives the path
/// back.
pub proof fn lemma_round_trip(p: PathView)
    requires
        p.wf(),
    ensures
        parse_text(p.text()) == p,
{
    let slash = seq!['/'];
    let none = Seq::<char>::empty();
    assert(scan(none) == (Seq::<Seq<char>>::empty(), Seq::<char>::empty()));
    assert(slash.drop_last() =~= none);
    assert(scan(slash) == (Seq::<Seq<char>>::empty(), Seq::<char>::empty()));
    if p.parts.len() == 0 {
        assert(join_parts(p.parts) =~= none);
        if p.absolute {
            assert(p.text() =~= slash);
        } else {
            assert(p.text() =~= none);
        }
        assert(split(p.text()) =~= p.parts);
    } else {
        let head = if p.absolute {
            slash
        } else {
            none
        };
        lemma_scan_join(head, p.parts);
        assert(p.text() =~= head + join_parts(p.parts));
        assert(valid_part(p.parts.last()));
        assert(split(p.text()) =~= p.parts.drop_last().push(p.parts.last()));
        assert(p.parts.drop_last().push(p.parts.last()) =~= p.parts);
        if !p.absolute {
            assert(valid_part(p.parts[0]));
            lemma_join_first(p.parts);
        }
    }
}

/// The text of joined components starts with the first character of the
/// first component.
proof fn lemma_join_first(parts: Seq<Seq<char>>)
    requires
        parts.len() > 0,
        parts[0].len() > 0,
    ensures
        join_parts(parts).len() > 0,
        join_parts(parts)[0] == parts[0][0],
    decreases parts.len(),
{
    if parts.len() > 1 {
        assert(parts.drop_last()[0] == parts[0]);
        lemma_join_first(parts.drop_last());
    }
}

fn is_dot(s: &String) -> (r: bool)
    ensures
        r == (s@ == dot()),
{
    let t = s.as_str();
    let r = t.unicode_len() == 1 && t.get_char(0) == '.';
    assert(r == (s@ =~= dot()));
    r
}

fn is_dotdot(s: &String) -> (r: bool)
    ensures
        r == (s@ == dotdot()),
{
    let t = s.as_str();
    let r = t.unicode_len() == 2 && t.get_char(0) == '.' && t.get_char(1) == '.';
    assert(r == (s@ =~= dotdot()));
    r
}

fn copy_parts(v: &Vec<String>, from: usize, to: usize) -> (r: Vec<String>)
    requires
        from <= to <= v.len(),
    ensures
        r.deep_view() == v.deep_view().subrange(from as int, to as int),
{
    let mut r: Vec<String> = Vec::new();
    let mut i: usize = from;
    while i < to
        invariant
            from <= i <= to <= v.len(),
            r.len() == i - from,
            forall|j: int| 0 <= j < r.len() ==> r[j]@ == v[from + j]@,
        decreases to - i,
    {
        r.push(v[i].clone());
        i = i + 1;
    }
    assert(r.deep_view() =~= v.deep_view().subrange(from as int, to as int));
    r
}

impl PathView {
    /// The relative path without components.
    pub open spec fn empty() -> PathView {
        PathView { absolute: false, parts: Seq::empty() }
    }
}

impl FsPath {
    /// The relative path without components.
    pub fn empty() -> (p: FsPath)
        ensures
            p@ == PathView::empty(),
    {
        let parts: Vec<String> = Vec::new();
        assert(parts.deep_view() =~= Seq::<Seq<char>>::empty());
        FsPath { absolute: false, parts }
    }

    /// The components, each as a text.
    pub fn components(&self) -> (r: &Vec<String>)
        ensures
            r.deep_view() == self@.parts,
    {
        &self.parts
    }

    /// The path that `text` denotes: absolute if it starts with `/`, made of
    /// the non-empty runs between separators.
    pub fn parse(text: &str) -> (p: FsPath)
        ensures
            p@ == parse_text(text@),
    {
        let n = text.unicode_len();
        let mut parts: Vec<String> = Vec::new();
        let mut start: usize = 0;
        let mut absolute = false;
        let mut i: usize = 0;
        for c in it: text.chars()
            invariant
                it.seq() == text@,
                n == text@.len(),
                i == it.index(),
                start <= i,
                scan(text@.take(it.index() as int)) == (
                    parts.deep_view(),
                    text@.subrange(start as int, it.index() as int),
                ),
                absolute == (it.index() > 0 && text@[0] == '/'),
        {
            assert(c == text@[i as int]);
            proof {
                let pre = text@.take(i as int + 1);
                assert(pre.drop_last() =~= text@.take(i as int));
                assert(pre.last() == c);
            }
            if i == 0 && c == '/' {
                absolute = true;
            }
            if c == '/' {
                if start < i {
                    let piece = text.substring_char(start, i);
                    let ghost before = parts.deep_view();
                    parts.push(piece.to_owned());
                    assert(parts.deep_view() =~= before.push(piece@));
                }
                start = i + 1;
                assert(text@.subrange(start as int, i as int + 1) =~= Seq::<char>::empty());
            } else {
                assert(text@.subrange(start as int, i as int + 1) =~= text@.subrange(
                    start as int,
                    i as int,
                ).push(c));
            }
            i = i + 1;
        }
        assert(text@.take(n as int) =~= text@);
        if start < n {
            let piece = text.substring_char(start, n);
            let ghost before = parts.deep_view();
            parts.push(piece.to_owned());
            assert(parts.deep_view() =~= before.push(piece@));
        }
        proof {
            lemma_parse_wf(text@);
        }
        FsPath { absolute, parts }
    }

    /// The path written out, components joined by `/`.
    pub fn to_text(&self) -> (s: String)
        ensures
            s@ == self@.text(),
    {
        let mut s = String::new();
        proof {
            reveal_strlit("/");
        }
        if self.absolute {
            s.append("/");
        }
        let ghost head = s@;
        let mut i: usize = 0;
        while i < self.parts.len()
            invariant
                i <= self.parts.len(),
                "/"@ == seq!['/'],
                s@ == head + join_parts(self.parts.deep_view().take(i as int)),
            decreases self.parts.len() - i,
        {
            proof {
                let next = self.parts.deep_view().take(i as int + 1);
                assert(next.drop_last() =~= self.parts.deep_view().take(i as int));
                assert(next.last() == self.parts[i as int]@);
            }
            if i > 0 {
                s.append("/");
            }
            s.append(self.parts[i].as_str());
            i = i + 1;
        }
        assert(self.parts.deep_view().take(i as int) =~= self.parts.deep_view());
        assert(s@ =~= self@.text());
        s
    }

    /// Whether the path starts at the file-system root.
    pub fn is_absolute(&self) -> (r: bool)
        ensures
            r == self@.absolute,
    {
        self.absolute
    }

    /// Number of components.
    pub fn len(&self) -> (n: usize)
        ensures
            n == self@.len(),
    {
        self.parts.len()
    }

    /// A copy of the path.
    pub fn duplicate(&self) -> (p: FsPath)
        ensures
            p@ == self@,
    {
        proof {
            use_type_invariant(self);
        }
        let parts = copy_parts(&self.parts, 0, self.parts.len());
        assert(self.parts.deep_view().subrange(0, self.parts.len() as int)
            =~= self.parts.deep_view());
        FsPath { absolute: self.absolute, parts }
    }

    /// Whether two paths have the same flag and the same components.
    pub fn same(&self, other: &FsPath) -> (r: bool)
        ensures
            r == (self@ == other@),
    {
        if self.absolute != other.absolute || self.parts.len() != other.parts.len() {
            assert(self.parts.deep_view().len() != other.parts.deep_view().len()
                || self.absolute != other.absolute);
            return false;
        }
        let mut i: usize = 0;
        while i < self.parts.len()
            invariant
                i <= self.parts.len(),
                self.parts.len() == other.parts.len(),
                forall|j: int| 0 <= j < i ==> self.parts[j]@ == other.parts[j]@,
            decreases self.parts.len() - i,
        {
            if self.parts[i] != other.parts[i] {
                assert(self.parts.deep_view()[i as int] != other.parts.deep_view()[i as int]);
                return false;
            }
            i = i + 1;
        }
        assert(self.parts.deep_view() =~= other.parts.deep_view());
        true
    }

    /// The first `k` components of the path.
    pub(crate) fn prefix(&self, k: usize) -> (p: FsPath)
        requires
            k <= self@.len(),
        ensures
            p@ == self@.prefix(k as int),
    {
        proof {
            use_type_invariant(self);
        }
        let parts = copy_parts(&self.parts, 0, k);
        assert(self.parts.deep_view().subrange(0, k as int) =~= self.parts.deep_view().take(
            k as int,
        ));
        FsPath { absolute: self.absolute, parts }
    }

    /// Whether `base` names this path or one of its ancestors, component by
    /// component.
    pub fn starts_with(&self, base: &FsPath) -> (r: bool)
        ensures
            r == self@.starts_with(base@),
    {
        if self.absolute != base.absolute || base.parts.len() > self.parts.len() {
            return false;
        }
        let mut i: usize = 0;
        while i < base.parts.len()
            invariant
                i <= base.parts.len() <= self.parts.len(),
                forall|j: int| 0 <= j < i ==> self.parts[j]@ == base.parts[j]@,
            decreases base.parts.len() - i,
        {
            if self.parts[i] != base.parts[i] {
                assert(self.parts.deep_view()[i as int] != base.parts.deep_view()[i as int]);
                return false;
            }
            i = i + 1;
        }
        assert(base.parts.deep_view() =~= self.parts.deep_view().subrange(
            0,
            base.parts.len() as int,
        ));
        true
    }

    /// `other` appended to this path; an absolute `other` replaces it.
    pub fn join(&self, other: &FsPath) -> (p: FsPath)
        ensures
            p@ == self@.join(other@),
    {
        proof {
            use_type_invariant(self);
            use_type_invariant(other);
        }
        if other.absolute {
            other.duplicate()
        } else {
            let mut parts = copy_parts(&self.parts, 0, self.parts.len());
            let mut i: usize = 0;
            while i < other.parts.len()
                invariant
                    i <= other.parts.len(),
                    parts.deep_view() == self.parts.deep_view() + other.parts.deep_view().take(
                        i as int,
                    ),
                decreases other.parts.len() - i,
            {
                let ghost before = parts.deep_view();
                parts.push(other.parts[i].clone());
                assert(parts.deep_view() =~= before.push(other.parts[i as int]@));
                assert(parts.deep_view() =~= self.parts.deep_view()
                    + other.parts.deep_view().take(i as int + 1));
                i = i + 1;
            }
            assert(other.parts.deep_view().take(i as int) =~= other.parts.deep_view());
            FsPath { absolute: self.absolute, parts }
        }
    }

    /// This path followed by the components of `other` from index `from` on.
    pub(crate) fn extend_from(&self, other: &FsPath, from: usize) -> (p: FsPath)
        requires
            from <= other@.len(),
        ensures
            p@ == self@.extend(other@.parts.skip(from as int)),
    {
        proof {
            use_type_invariant(self);
            use_type_invariant(other);
        }
        let mut parts = copy_parts(&self.parts, 0, self.parts.len());
        let mut i: usize = from;
        while i < other.parts.len()
            invariant
                from <= i <= other.parts.len(),
                parts.deep_view() == self.parts.deep_view() + other.parts.deep_view().subrange(
                    from as int,
                    i as int,
                ),
            decreases other.parts.len() - i,
        {
            let ghost before = parts.deep_view();
            parts.push(other.parts[i].clone());
            assert(parts.deep_view() =~= before.push(other.parts[i as int]@));
            assert(parts.deep_view() =~= self.parts.deep_view()
                + other.parts.deep_view().subrange(from as int, i as int + 1));
            i = i + 1;
        }
        assert(other.parts.deep_view().subrange(from as int, i as int)
            =~= other.parts.deep_view().skip(from as int));
        FsPath { absolute: self.absolute, parts }
    }

    /// The path without its last component, if it has one.
    pub fn parent(&self) -> (p: Option<FsPath>)
        ensures
            p.deep_view() == self@.parent(),
    {
        proof {
            use_type_invariant(self);
        }
        let n = self.parts.len();
        if n == 0 {
            None
        } else {
            let parts = copy_parts(&self.parts, 0, n - 1);
            assert(self.parts.deep_view().subrange(0, n - 1) =~= self.parts.deep_view().drop_last());
            Some(FsPath { absolute: self.absolute, parts })
        }
    }

    /// Lexical normal form: `.` dropped, `..` removing the component before
    /// it, never going above the start of an absolute path.
    pub fn normalize(&self) -> (p: FsPath)
        ensures
            p@ == self@.normalize(),
    {
        let mut parts: Vec<String> = Vec::new();
        let mut i: usize = 0;
        while i < self.parts.len()
            invariant
                i <= self.parts.len(),
                parts.deep_view() == collapse(self.parts.deep_view().take(i as int), self.absolute),
            decreases self.parts.len() - i,
        {
            proof {
                let next = self.parts.deep_view().take(i as int + 1);
                assert(next.drop_last() =~= self.parts.deep_view().take(i as int));
                assert(next.last() == self.parts[i as int]@);
            }
            let ghost before = parts.deep_view();
            let part = &self.parts[i];
            if is_dot(part) {
            } else if is_dotdot(part) {
                let n = parts.len();
                if n > 0 && !is_dotdot(&parts[n - 1]) {
                    parts.pop();
                    assert(parts.deep_view() =~= before.drop_last());
                } else if !self.absolute {
                    parts.push(part.clone());
                    assert(parts.deep_view() =~= before.push(part@));
                }
            } else {
                parts.push(part.clone());
                assert(parts.deep_view() =~= before.push(part@));
            }
            i = i + 1;
        }
        assert(self.parts.deep_view().take(i as int) =~= self.parts.deep_view());
        proof {
            use_type_invariant(self);
            lemma_collapse_valid(self.parts.deep_view(), self.absolute);
        }
        FsPath { absolute: self.absolute, parts }
    }

    /// The text appended to the last component.
    pub(crate) fn with_suffix(&self, text: &str) -> (p: FsPath)
        requires
            plain(text@),
        ensures
            p@ == self@.with_suffix(text@),
    {
        proof {
            use_type_invariant(self);
        }
        let n = self.parts.len();
        if n == 0 {
            self.duplicate()
        } else {
            let mut parts = copy_parts(&self.parts, 0, n - 1);
            let name = self.parts[n - 1].clone().concat(text);
            let ghost before = parts.deep_view();
            parts.push(name);
            assert(parts.deep_view() =~= before.push(self.parts[n - 1]@ + text@));
            assert(before =~= self.parts.deep_view().drop_last());
            proof {
                assert(valid_part(self.parts.deep_view()[n - 1]));
                assert(valid_part(self.parts[n - 1]@ + text@));
                assert forall|i: int| 0 <= i < parts.deep_view().len() implies valid_part(
                    #[trigger] parts.deep_view()[i],
                ) by {
                    if i < n - 1 {
                        assert(parts.deep_view()[i] == self.parts.deep_view()[i]);
                    }
                }
            }
            FsPath { absolute: self.absolute, parts }
        }
    }

    /// The extension of the last component replaced by `ext`.
    pub(crate) fn with_extension(&self, ext: &str) -> (p: FsPath)
        requires
            plain(ext@),
        ensures
            p@ == self@.with_extension(ext@),
    {
        proof {
            use_type_invariant(self);
        }
        let n = self.parts.len();
        if n == 0 {
            self.duplicate()
        } else {
            let mut parts = copy_parts(&self.parts, 0, n - 1);
            let name = self.parts[n - 1].as_str();
            let len = name.unicode_len();
            let mut cut: usize = len;
            let mut found = false;
            assert(name@.take(len as int) =~= name@);
            while cut > 0 && !found
                invariant
                    cut <= len,
                    len == name@.len(),
                    found ==> cut < len && last_dot(name@) == cut,
                    !found ==> last_dot(name@) == last_dot(name@.take(cut as int)),
                decreases cut + (if found { 0int } else { 1int }),
            {
                proof {
                    let head = name@.take(cut as int);
                    assert(head.drop_last() =~= name@.take(cut as int - 1));
                    assert(head.last() == name@[cut as int - 1]);
                }
                if name.get_char(cut - 1) == '.' {
                    found = true;
                }
                cut = cut - 1;
            }
            proof {
                if !found {
                    assert(name@.take(0) =~= Seq::<char>::empty());
                }
                assert(name@.take(len as int) =~= name@);
            }
            let keep: usize = if found && cut > 0 {
                cut
            } else {
                len
            };
            proof {
                reveal_strlit(".");
                assert(name@.subrange(0, keep as int) =~= stem(name@));
            }
            let fresh = name.substring_char(0, keep).to_owned().concat(".").concat(ext);
            assert(fresh@ =~= stem(name@) + seq!['.'] + ext@);
            let ghost before = parts.deep_view();
            parts.push(fresh);
            assert(parts.deep_view() =~= before.push(stem(name@) + seq!['.'] + ext@));
            assert(before =~= self.parts.deep_view().drop_last());
            proof {
                assert(valid_part(self.parts.deep_view()[n - 1]));
                assert(plain(stem(name@)));
                assert(valid_part(stem(name@) + seq!['.'] + ext@));
                assert forall|i: int| 0 <= i < parts.deep_view().len() implies valid_part(
                    #[trigger] parts.deep_view()[i],
                ) by {
                    if i < n - 1 {
                        assert(parts.deep_view()[i] == self.parts.deep_view()[i]);
                    }
                }
            }
            FsPath { absolute: self.absolute, parts }
        }
    }

    /// What is left of this path below `base`, as a relative path; `None`
    /// when `base` is not one of its ancestors.
    pub fn strip_prefix(&self, base: &FsPath) -> (p: Option<FsPath>)
        ensures
            p.deep_view() == self@.strip_prefix(base@),
    {
        proof {
            use_type_invariant(self);
        }
        if self.starts_with(base) {
            let k = base.parts.len();
            let parts = copy_parts(&self.parts, k, self.parts.len());
            assert(self.parts.deep_view().subrange(k as int, self.parts.len() as int)
                =~= self.parts.deep_view().skip(k as int));
            Some(FsPath { absolute: false, parts })
        } else {
            None
        }
    }
}

} // verus!
