//! The namespace tree that partitions a datastore.
//!
//! A namespace is a sequence of components, each a safe identifier. Its
//! *name* joins them with `/`; its *path* puts `ns/` in front of every
//! component, so that namespace directories never collide with the
//! directories of backup types.

use crate::error::NamespaceError;
use crate::text::{
    chars_of, check_safe_id, has_char, is_safe_id, join, lemma_safe_id_bytes, split, split_ranges,
};
use vstd::prelude::*;
use vstd::string::StrSliceExecFns;
use vstd::string::StringExecFns;
use vstd::utf8::encode_utf8;

verus! {

/// The deepest level a namespace may have; the root is at depth zero.
pub const MAX_NAMESPACE_DEPTH: usize = 7;

/// The longest name a namespace may have, separators included.
pub const MAX_BACKUP_NAMESPACE_LENGTH: usize = 256;

/// The components of a namespace within the limits: at most seven safe
/// identifiers whose joined name has at most 256 characters.
pub open spec fn valid_components(cs: Seq<Seq<char>>) -> bool {
    &&& cs.len() <= MAX_NAMESPACE_DEPTH
    &&& forall|i: int| 0 <= i < cs.len() ==> is_safe_id(#[trigger] cs[i])
    &&& join(cs, '/').len() <= MAX_BACKUP_NAMESPACE_LENGTH
}

/// The length of the name after `comp`, of `comp_len` bytes, is appended to `cs`.
pub open spec fn extended_len(cs: Seq<Seq<char>>, comp_len: nat) -> nat {
    if cs.len() == 0 {
        comp_len
    } else {
        join(cs, '/').len() + 1 + comp_len
    }
}

/// What entering the sub-namespace `comp` of `cs` gives. The checks come in
/// this order: a slash in `comp`, the depth, the length of the name (with
/// `comp` counted in bytes), the shape of `comp`.
pub open spec fn push_component(cs: Seq<Seq<char>>, comp: Seq<char>) -> Result<
    Seq<Seq<char>>,
    NamespaceError,
> {
    if comp.contains('/') {
        Err(NamespaceError::ComponentContainsSlash)
    } else if cs.len() >= MAX_NAMESPACE_DEPTH {
        Err(NamespaceError::TooDeep)
    } else if extended_len(cs, encode_utf8(comp).len()) > MAX_BACKUP_NAMESPACE_LENGTH {
        Err(NamespaceError::TooLong)
    } else if !is_safe_id(comp) {
        Err(NamespaceError::InvalidComponent)
    } else {
        Ok(cs.push(comp))
    }
}

/// The components of `items` entered one after the other, starting from
/// `cs`; the first one that is refused decides the error.
pub open spec fn push_components(cs: Seq<Seq<char>>, items: Seq<Seq<char>>) -> Result<
    Seq<Seq<char>>,
    NamespaceError,
>
    decreases items.len(),
{
    if items.len() == 0 {
        Ok(cs)
    } else {
        match push_component(cs, items[0]) {
            Ok(next) => push_components(next, items.skip(1)),
            Err(e) => Err(e),
        }
    }
}

/// What parsing the name `s` gives: the root for the empty text, else the
/// pieces between the slashes entered one after the other.
pub open spec fn parse_name(s: Seq<char>) -> Result<Seq<Seq<char>>, NamespaceError> {
    if s.len() == 0 {
        Ok(Seq::<Seq<char>>::empty())
    } else {
        push_components(Seq::<Seq<char>>::empty(), split(s, '/'))
    }
}

/// The text `ns`.
pub open spec fn ns_marker() -> Seq<char> {
    seq!['n', 's']
}

/// The path of a namespace: `ns/` in front of every component, the parts
/// joined by `/`.
pub open spec fn path_of(cs: Seq<Seq<char>>) -> Seq<char>
    decreases cs.len(),
{
    if cs.len() == 0 {
        Seq::<char>::empty()
    } else if cs.len() == 1 {
        ns_marker() + seq!['/'] + cs[0]
    } else {
        path_of(cs.drop_last()) + seq!['/'] + ns_marker() + seq!['/'] + cs.last()
    }
}

/// The pieces of a path read two by two, the marker `ns` and a component,
/// starting from `cs`.
pub open spec fn push_path_pieces(cs: Seq<Seq<char>>, pieces: Seq<Seq<char>>) -> Result<
    Seq<Seq<char>>,
    NamespaceError,
>
    decreases pieces.len(),
{
    if pieces.len() == 0 {
        Ok(cs)
    } else if pieces.len() < 2 || pieces[0] != ns_marker() {
        Err(NamespaceError::InvalidPath)
    } else {
        match push_component(cs, pieces[1]) {
            Ok(next) => push_path_pieces(next, pieces.skip(2)),
            Err(e) => Err(e),
        }
    }
}

/// What parsing the path `s` gives.
pub open spec fn parse_path(s: Seq<char>) -> Result<Seq<Seq<char>>, NamespaceError> {
    if s.len() == 0 {
        Ok(Seq::<Seq<char>>::empty())
    } else {
        push_path_pieces(Seq::<Seq<char>>::empty(), split(s, '/'))
    }
}

/// What replacing the prefix `source` of `cs` by `target` gives.
pub open spec fn map_prefix_components(
    cs: Seq<Seq<char>>,
    source: Seq<Seq<char>>,
    target: Seq<Seq<char>>,
) -> Result<Seq<Seq<char>>, NamespaceError> {
    if source.len() <= cs.len() && cs.take(source.len() as int) == source {
        push_components(target, cs.skip(source.len() as int))
    } else {
        Err(NamespaceError::PrefixMismatch)
    }
}

/// A position in the namespace tree of a datastore. The root is the empty
/// sequence of components.
#[derive(Debug, Hash, PartialOrd, Ord)]
pub struct BackupNamespace {
    /// The components, without the `ns/` markers of the path.
    inner: Vec<String>,
    /// The length of the name, kept up to date by every change.
    len: usize,
}

impl View for BackupNamespace {
    type V = Seq<Seq<char>>;

    /// The components, each as its characters.
    closed spec fn view(&self) -> Seq<Seq<char>> {
        self.inner@.map_values(|s: String| s@)
    }
}

impl BackupNamespace {
    /// The components are within the limits and the cached length is that
    /// of the name.
    pub closed spec fn wf(&self) -> bool {
        &&& valid_components(self@)
        &&& self.len == join(self@, '/').len()
    }

    /// A well-formed namespace has valid components.
    pub proof fn lemma_wf_valid(&self)
        requires
            self.wf(),
        ensures
            valid_components(self@),
    {
    }

    /// The root namespace.
    pub fn root() -> (r: Self)
        ensures
            r@ == Seq::<Seq<char>>::empty(),
            r.wf(),
    {
        let r = Self { inner: Vec::new(), len: 0 };
        assert(r@ =~= Seq::<Seq<char>>::empty());
        r
    }

    /// Whether this is the root namespace.
    pub fn is_root(&self) -> (b: bool)
        ensures
            b == (self@.len() == 0),
    {
        self.inner.len() == 0
    }

    /// The depth of the namespace; the root has depth zero.
    pub fn depth(&self) -> (d: usize)
        ensures
            d == self@.len(),
    {
        self.inner.len()
    }

    /// The length of the name, separating slashes included.
    pub fn name_len(&self) -> (n: usize)
        requires
            self.wf(),
        ensures
            n == join(self@, '/').len(),
            n <= MAX_BACKUP_NAMESPACE_LENGTH,
    {
        self.len
    }

    /// Enters the sub-namespace `subdir`. Fails, and changes nothing, if
    /// `subdir` is no single valid component or the namespace would pass
    /// the limits of depth or length.
    pub fn push(&mut self, subdir: String) -> (r: Result<(), NamespaceError>)
        requires
            old(self).wf(),
        ensures
            final(self).wf(),
            match r {
                Ok(()) => push_component(old(self)@, subdir@) == Ok::<
                    Seq<Seq<char>>,
                    NamespaceError,
                >(final(self)@),
                Err(e) => push_component(old(self)@, subdir@) == Err::<
                    Seq<Seq<char>>,
                    NamespaceError,
                >(e) && final(self)@ == old(self)@,
            },
    {
        let chars = chars_of(subdir.as_str());
        if has_char(&chars, '/') {
            return Err(NamespaceError::ComponentContainsSlash);
        }
        self.push_do(subdir)
    }

    /// The checks of [`push`](Self::push) that remain once `subdir` is known
    /// to hold no slash, and the update of components and length.
    fn push_do(&mut self, subdir: String) -> (r: Result<(), NamespaceError>)
        requires
            old(self).wf(),
            !subdir@.contains('/'),
        ensures
            final(self).wf(),
            match r {
                Ok(()) => push_component(old(self)@, subdir@) == Ok::<
                    Seq<Seq<char>>,
                    NamespaceError,
                >(final(self)@),
                Err(e) => push_component(old(self)@, subdir@) == Err::<
                    Seq<Seq<char>>,
                    NamespaceError,
                >(e) && final(self)@ == old(self)@,
            },
    {
        if self.inner.len() >= MAX_NAMESPACE_DEPTH {
            return Err(NamespaceError::TooDeep);
        }
        let sub_len: usize = subdir.as_str().as_bytes().len();
        let sep: usize = if self.inner.len() == 0 {
            0
        } else {
            1
        };
        proof {
            if self@.len() == 0 {
                assert(self@ =~= Seq::<Seq<char>>::empty());
            }
        }
        if sub_len > MAX_BACKUP_NAMESPACE_LENGTH || self.len + sep + sub_len
            > MAX_BACKUP_NAMESPACE_LENGTH {
            return Err(NamespaceError::TooLong);
        }
        let chars = chars_of(subdir.as_str());
        if !check_safe_id(&chars) {
            return Err(NamespaceError::InvalidComponent);
        }
        proof {
            lemma_safe_id_bytes(subdir@);
            let cs = self@;
            let next = cs.push(subdir@);
            assert(next.drop_last() =~= cs);
            assert(self.inner@.push(subdir).map_values(|s: String| s@) =~= next);
            assert forall|i: int| 0 <= i < next.len() implies is_safe_id(#[trigger] next[i]) by {
                if i < cs.len() {
                    assert(next[i] == cs[i]);
                }
            }
        }
        self.len = self.len + sep + sub_len;
        self.inner.push(subdir);
        Ok(())
    }

    /// Leaves the innermost level and returns its component; the root stays
    /// as it is and gives `None`.
    pub fn pop(&mut self) -> (r: Option<String>)
        requires
            old(self).wf(),
        ensures
            final(self).wf(),
            match r {
                Some(dropped) => old(self)@.len() > 0 && dropped@ == old(self)@.last()
                    && final(self)@ == old(self)@.drop_last(),
                None => old(self)@.len() == 0 && final(self)@ == old(self)@,
            },
    {
        let ghost before = self@;
        let dropped = self.inner.pop();
        match dropped {
            Some(d) => {
                proof {
                    assert(self.inner@.map_values(|s: String| s@) =~= before.drop_last());
                    assert(before.last() == d@);
                    lemma_safe_id_bytes(d@);
                    assert forall|i: int| 0 <= i < before.drop_last().len() implies is_safe_id(
                        #[trigger] before.drop_last()[i],
                    ) by {
                        assert(before.drop_last()[i] == before[i]);
                    }
                    if before.len() == 1 {
                        assert(before.drop_last() =~= Seq::<Seq<char>>::empty());
                    }
                }
                if self.inner.len() == 0 {
                    self.len = 0;
                } else {
                    let dropped_len: usize = d.as_str().as_bytes().len();
                    self.len = self.len - dropped_len - 1;
                }
                Some(d)
            },
            None => {
                proof {
                    assert(self.inner@.map_values(|s: String| s@) =~= before);
                }
                None
            },
        }
    }

    /// The namespace one level up; the parent of the root is the root.
    pub fn parent(&self) -> (r: Self)
        requires
            self.wf(),
        ensures
            r.wf(),
            r@ == if self@.len() == 0 {
                self@
            } else {
                self@.drop_last()
            },
    {
        if self.is_root() {
            return Self::root();
        }
        let mut parent = self.clone();
        let _ = parent.pop();
        parent
    }

    /// The sub-namespace `name` of `parent`.
    pub fn from_parent_ns(parent: &Self, name: String) -> (r: Result<Self, NamespaceError>)
        requires
            parent.wf(),
        ensures
            match r {
                Ok(child) => child.wf() && push_component(parent@, name@) == Ok::<
                    Seq<Seq<char>>,
                    NamespaceError,
                >(child@),
                Err(e) => push_component(parent@, name@) == Err::<
                    Seq<Seq<char>>,
                    NamespaceError,
                >(e),
            },
    {
        let mut child = parent.clone();
        match child.push(name) {
            Ok(()) => Ok(child),
            Err(e) => Err(e),
        }
    }

    /// The components, outermost first.
    pub fn components(&self) -> (r: &Vec<String>)
        ensures
            r@.map_values(|s: String| s@) == self@,
    {
        &self.inner
    }
}

impl BackupNamespace {
    /// The name of the namespace: its components joined by `/`.
    pub fn name(&self) -> (r: String)
        ensures
            r@ == join(self@, '/'),
    {
        let mut r = String::new();
        let mut i: usize = 0;
        proof {
            reveal_strlit("/");
            assert(self@.take(0) =~= Seq::<Seq<char>>::empty());
        }
        while i < self.inner.len()
            invariant
                i <= self.inner@.len(),
                r@ == join(self@.take(i as int), '/'),
                "/"@ =~= seq!['/'],
            decreases self.inner@.len() - i,
        {
            proof {
                let next = self@.take(i as int + 1);
                assert(next.drop_last() =~= self@.take(i as int));
                assert(next.last() == self.inner@[i as int]@);
                if i == 0 {
                    assert(r@ + self.inner@[i as int]@ =~= self.inner@[i as int]@);
                }
            }
            if i > 0 {
                r.append("/");
            }
            r.append(self.inner[i].as_str());
            i += 1;
        }
        proof {
            assert(self@.take(self@.len() as int) =~= self@);
        }
        r
    }

    /// The relative path of the namespace below the datastore: `ns/` in
    /// front of every component.
    pub fn path(&self) -> (r: String)
        ensures
            r@ == path_of(self@),
    {
        let mut r = String::new();
        let mut i: usize = 0;
        proof {
            reveal_strlit("ns/");
            reveal_strlit("/ns/");
            assert(self@.take(0) =~= Seq::<Seq<char>>::empty());
        }
        while i < self.inner.len()
            invariant
                i <= self.inner@.len(),
                r@ == path_of(self@.take(i as int)),
                "ns/"@ =~= ns_marker() + seq!['/'],
                "/ns/"@ =~= seq!['/'] + ns_marker() + seq!['/'],
            decreases self.inner@.len() - i,
        {
            proof {
                let next = self@.take(i as int + 1);
                assert(next.drop_last() =~= self@.take(i as int));
                assert(next.last() == self.inner@[i as int]@);
                let c = self.inner@[i as int]@;
                if i == 0 {
                    assert(r@ + "ns/"@ + c =~= ns_marker() + seq!['/'] + c);
                } else {
                    assert(r@ + "/ns/"@ + c =~= r@ + seq!['/'] + ns_marker() + seq!['/'] + c);
                }
            }
            if i == 0 {
                r.append("ns/");
            } else {
                r.append("/ns/");
            }
            r.append(self.inner[i].as_str());
            i += 1;
        }
        proof {
            assert(self@.take(self@.len() as int) =~= self@);
        }
        r
    }

    /// The length of the path, `ns/` markers included.
    pub fn path_len(&self) -> (n: usize)
        requires
            self.wf(),
        ensures
            n == path_of(self@).len(),
    {
        proof {
            lemma_path_len(self@);
        }
        self.name_len() + 3 * self.inner.len()
    }

    /// An adapter that renders the namespace as its path.
    pub fn display_as_path(&self) -> (r: BackupNamespacePath<'_>)
        ensures
            r@ == self@,
    {
        BackupNamespacePath(self)
    }
}

impl BackupNamespace {
    /// Parses a name such as `a/b/c`. The empty text is the root; else the
    /// pieces between the slashes are entered one after the other, and the
    /// first one that is refused decides the error.
    pub fn new(name: &str) -> (r: Result<Self, NamespaceError>)
        ensures
            match r {
                Ok(ns) => ns.wf() && parse_name(name@) == Ok::<Seq<Seq<char>>, NamespaceError>(
                    ns@,
                ),
                Err(e) => parse_name(name@) == Err::<Seq<Seq<char>>, NamespaceError>(e),
            },
    {
        let mut this = Self::root();
        let chars = chars_of(name);
        if chars.len() == 0 {
            return Ok(this);
        }
        let ranges = split_ranges(&chars, '/');
        let ghost pieces = split(name@, '/');
        let mut k: usize = 0;
        proof {
            assert(pieces.skip(0) =~= pieces);
        }
        while k < ranges.len()
            invariant
                k <= ranges@.len(),
                this.wf(),
                chars@ == name@,
                name@.len() > 0,
                pieces == split(name@, '/'),
                ranges@.len() == pieces.len(),
                forall|j: int|
                    0 <= j < ranges@.len() ==> {
                        &&& (#[trigger] ranges@[j]).0 <= ranges@[j].1 <= chars@.len()
                        &&& chars@.subrange(ranges@[j].0 as int, ranges@[j].1 as int) == pieces[j]
                    },
                push_components(Seq::<Seq<char>>::empty(), pieces) == push_components(
                    this@,
                    pieces.skip(k as int),
                ),
            decreases ranges@.len() - k,
        {
            let (from, to) = ranges[k];
            let piece = name.substring_char(from, to);
            proof {
                let rest = pieces.skip(k as int);
                assert(rest[0] == pieces[k as int]);
                assert(rest.skip(1) =~= pieces.skip(k as int + 1));
                assert(piece@ == rest[0]);
                assert(push_components(this@, rest) == match push_component(this@, rest[0]) {
                    Ok(next) => push_components(next, rest.skip(1)),
                    Err(e) => Err(e),
                });
            }
            match this.push(String::from_str(piece)) {
                Ok(()) => {},
                Err(e) => {
                    return Err(e);
                },
            }
            k += 1;
        }
        Ok(this)
    }

    /// Parses a path such as `ns/a/ns/b`. The empty text is the root; else
    /// the pieces between the slashes are read two by two, the marker `ns`
    /// and a component.
    pub fn from_path(path: &str) -> (r: Result<Self, NamespaceError>)
        ensures
            match r {
                Ok(ns) => ns.wf() && parse_path(path@) == Ok::<Seq<Seq<char>>, NamespaceError>(
                    ns@,
                ),
                Err(e) => parse_path(path@) == Err::<Seq<Seq<char>>, NamespaceError>(e),
            },
    {
        let mut this = Self::root();
        let chars = chars_of(path);
        if chars.len() == 0 {
            return Ok(this);
        }
        let ranges = split_ranges(&chars, '/');
        let ghost pieces = split(path@, '/');
        let mut k: usize = 0;
        proof {
            assert(pieces.skip(0) =~= pieces);
        }
        while k < ranges.len()
            invariant
                k <= ranges@.len(),
                this.wf(),
                chars@ == path@,
                path@.len() > 0,
                pieces == split(path@, '/'),
                ranges@.len() == pieces.len(),
                forall|j: int|
                    0 <= j < ranges@.len() ==> {
                        &&& (#[trigger] ranges@[j]).0 <= ranges@[j].1 <= chars@.len()
                        &&& chars@.subrange(ranges@[j].0 as int, ranges@[j].1 as int) == pieces[j]
                    },
                push_path_pieces(Seq::<Seq<char>>::empty(), pieces) == push_path_pieces(
                    this@,
                    pieces.skip(k as int),
                ),
            decreases ranges@.len() - k,
        {
            let ghost rest = pieces.skip(k as int);
            proof {
                assert(rest[0] == pieces[k as int]);
            }
            if ranges.len() - k < 2 {
                return Err(NamespaceError::InvalidPath);
            }
            let (m_from, m_to) = ranges[k];
            if !(m_to - m_from == 2 && chars[m_from] == 'n' && chars[m_from + 1] == 's') {
                proof {
                    let m = chars@.subrange(m_from as int, m_to as int);
                    assert(m == rest[0]);
                    assert(ns_marker().len() == 2);
                    if m.len() == 2 {
                        assert(m[0] == chars@[m_from as int]);
                        assert(m[1] == chars@[m_from as int + 1]);
                        assert(ns_marker()[0] == 'n' && ns_marker()[1] == 's');
                    }
                    assert(m != ns_marker());
                }
                return Err(NamespaceError::InvalidPath);
            }
            proof {
                let m = chars@.subrange(m_from as int, m_to as int);
                assert(m =~= ns_marker());
                assert(rest[1] == pieces[k as int + 1]);
                assert(rest.skip(2) =~= pieces.skip(k as int + 2));
            }
            let (from, to) = ranges[k + 1];
            let piece = path.substring_char(from, to);
            proof {
                assert(piece@ == rest[1]);
                assert(push_path_pieces(this@, rest) == match push_component(this@, rest[1]) {
                    Ok(next) => push_path_pieces(next, rest.skip(2)),
                    Err(e) => Err(e),
                });
            }
            match this.push(String::from_str(piece)) {
                Ok(()) => {},
                Err(e) => {
                    return Err(e);
                },
            }
            k += 2;
        }
        Ok(this)
    }

    /// This namespace with its prefix `source_prefix` replaced by
    /// `target_prefix`. Fails if the namespace does not lie below
    /// `source_prefix`, or if the result would pass the limits.
    pub fn map_prefix(
        &self,
        source_prefix: &BackupNamespace,
        target_prefix: &BackupNamespace,
    ) -> (r: Result<Self, NamespaceError>)
        requires
            self.wf(),
            source_prefix.wf(),
            target_prefix.wf(),
        ensures
            match r {
                Ok(ns) => ns.wf() && map_prefix_components(self@, source_prefix@, target_prefix@)
                    == Ok::<Seq<Seq<char>>, NamespaceError>(ns@),
                Err(e) => map_prefix_components(self@, source_prefix@, target_prefix@) == Err::<
                    Seq<Seq<char>>,
                    NamespaceError,
                >(e),
            },
    {
        let n = source_prefix.inner.len();
        if n > self.inner.len() {
            return Err(NamespaceError::PrefixMismatch);
        }
        let mut i: usize = 0;
        while i < n
            invariant
                i <= n,
                n == source_prefix.inner@.len(),
                n <= self.inner@.len(),
                forall|j: int| 0 <= j < i ==> self@[j] == source_prefix@[j],
            decreases n - i,
        {
            if self.inner[i] != source_prefix.inner[i] {
                proof {
                    assert(self@.take(n as int)[i as int] == self@[i as int]);
                    assert(self@[i as int] != source_prefix@[i as int]);
                }
                return Err(NamespaceError::PrefixMismatch);
            }
            i += 1;
        }
        proof {
            assert(self@.take(n as int) =~= source_prefix@);
        }
        let ghost suffix = self@.skip(n as int);
        let mut new = target_prefix.clone();
        let mut k: usize = n;
        proof {
            assert(suffix.skip(0) =~= suffix);
        }
        while k < self.inner.len()
            invariant
                n <= k <= self.inner@.len(),
                new.wf(),
                n == source_prefix@.len(),
                self@.take(n as int) == source_prefix@,
                suffix == self@.skip(n as int),
                push_components(target_prefix@, suffix) == push_components(
                    new@,
                    suffix.skip(k - n),
                ),
            decreases self.inner@.len() - k,
        {
            proof {
                let rest = suffix.skip(k - n);
                assert(rest[0] == self@[k as int]);
                assert(rest.skip(1) =~= suffix.skip(k - n + 1));
                assert(push_components(new@, rest) == match push_component(new@, rest[0]) {
                    Ok(next) => push_components(next, rest.skip(1)),
                    Err(e) => Err(e),
                });
            }
            match new.push(self.inner[k].clone()) {
                Ok(()) => {},
                Err(e) => {
                    return Err(e);
                },
            }
            k += 1;
        }
        Ok(new)
    }
}

/// A namespace seen as a path: it renders with `ns/` in front of every
/// component.
pub struct BackupNamespacePath<'a>(&'a BackupNamespace);

impl<'a> View for BackupNamespacePath<'a> {
    type V = Seq<Seq<char>>;

    /// The components of the namespace.
    closed spec fn view(&self) -> Seq<Seq<char>> {
        self.0@
    }
}

impl<'a> BackupNamespacePath<'a> {
    /// The path as text.
    pub fn to_string(&self) -> (r: String)
        ensures
            r@ == path_of(self@),
    {
        self.0.path()
    }
}

/// A path is longer than the name by the three characters of each marker.
pub proof fn lemma_path_len(cs: Seq<Seq<char>>)
    ensures
        path_of(cs).len() == join(cs, '/').len() + 3 * cs.len(),
    decreases cs.len(),
{
    if cs.len() >= 2 {
        lemma_path_len(cs.drop_last());
    }
}

impl PartialEq for BackupNamespace {
    /// Whether both have the same components.
    fn eq(&self, other: &Self) -> (r: bool) {
        if self.inner.len() != other.inner.len() {
            assert(self@.len() != other@.len());
            return false;
        }
        let mut i: usize = 0;
        while i < self.inner.len()
            invariant
                i <= self.inner@.len(),
                self.inner@.len() == other.inner@.len(),
                forall|j: int| 0 <= j < i ==> self@[j] == other@[j],
            decreases self.inner@.len() - i,
        {
            if self.inner[i] != other.inner[i] {
                assert(self@[i as int] != other@[i as int]);
                return false;
            }
            i += 1;
        }
        assert(self@ =~= other@);
        true
    }
}

impl vstd::std_specs::cmp::PartialEqSpecImpl for BackupNamespace {
    open spec fn obeys_eq_spec() -> bool {
        true
    }

    open spec fn eq_spec(&self, other: &Self) -> bool {
        self@ == other@
    }
}

impl Eq for BackupNamespace {

}

impl Clone for BackupNamespace {
    /// A namespace with the same components.
    fn clone(&self) -> (r: Self)
        ensures
            r@ == self@,
            self.wf() ==> r.wf(),
    {
        let mut inner: Vec<String> = Vec::new();
        let mut i: usize = 0;
        while i < self.inner.len()
            invariant
                i <= self.inner@.len(),
                inner@.len() == i,
                forall|j: int| 0 <= j < i ==> (#[trigger] inner@[j])@ == self.inner@[j]@,
            decreases self.inner@.len() - i,
        {
            inner.push(self.inner[i].clone());
            i += 1;
        }
        let r = Self { inner, len: self.len };
        assert(r@ =~= self@);
        r
    }
}

impl Default for BackupNamespace {
    /// The root namespace.
    fn default() -> (r: Self)
        ensures
            r@ == Seq::<Seq<char>>::empty(),
            r.wf(),
    {
        Self::root()
    }
}

} // verus!

verus! {

/// A name that parses: the empty one, or one whose pieces are valid components.
pub open spec fn valid_name(s: Seq<char>) -> bool {
    s.len() == 0 || valid_components(split(s, '/'))
}

/// The name of the first `k` components is no longer than the whole name.
pub proof fn lemma_join_prefix_len(cs: Seq<Seq<char>>, k: int)
    requires
        0 <= k <= cs.len(),
    ensures
        join(cs.take(k), '/').len() <= join(cs, '/').len(),
    decreases cs.len(),
{
    if k == cs.len() {
        assert(cs.take(k) =~= cs);
    } else {
        assert(cs.drop_last().take(k) =~= cs.take(k));
        lemma_join_prefix_len(cs.drop_last(), k);
    }
}

/// Entering components one after the other succeeds exactly when the whole
/// sequence is within the limits, and then gives that sequence.
pub proof fn lemma_push_components(base: Seq<Seq<char>>, items: Seq<Seq<char>>)
    requires
        valid_components(base),
    ensures
        match push_components(base, items) {
            Ok(r) => r == base + items && valid_components(base + items),
            Err(_) => !valid_components(base + items),
        },
    decreases items.len(),
{
    let all = base + items;
    if items.len() == 0 {
        assert(all =~= base);
    } else {
        let c = items[0];
        let next = base.push(c);
        assert(all[base.len() as int] == c);
        assert(all.take(base.len() as int + 1) =~= next);
        assert(next.drop_last() =~= base);
        if is_safe_id(c) {
            lemma_safe_id_bytes(c);
            lemma_join_prefix_len(all, base.len() as int + 1);
            if base.len() == 0 {
                assert(base =~= Seq::<Seq<char>>::empty());
            }
        }
        match push_component(base, c) {
            Ok(n) => {
                assert(n == next);
                assert forall|i: int| 0 <= i < next.len() implies is_safe_id(
                    #[trigger] next[i],
                ) by {
                    if i < base.len() {
                        assert(next[i] == base[i]);
                    }
                }
                lemma_push_components(next, items.skip(1));
                assert(next + items.skip(1) =~= all);
            },
            Err(_) => {},
        }
    }
}

/// A valid sequence of components with at least one component has a
/// non-empty name.
pub proof fn lemma_join_nonempty(cs: Seq<Seq<char>>)
    requires
        cs.len() > 0,
        cs.last().len() > 0,
    ensures
        join(cs, '/').len() > 0,
{
}

/// Parsing a name succeeds exactly on the valid names, and gives the
/// pieces between the slashes.
pub proof fn lemma_parse_name(s: Seq<char>)
    ensures
        parse_name(s) is Ok <==> valid_name(s),
        parse_name(s) is Ok ==> parse_name(s)->Ok_0 == if s.len() == 0 {
            Seq::<Seq<char>>::empty()
        } else {
            split(s, '/')
        },
{
    if s.len() > 0 {
        let empty = Seq::<Seq<char>>::empty();
        lemma_push_components(empty, split(s, '/'));
        assert(empty + split(s, '/') =~= split(s, '/'));
    }
}

/// A parsed namespace renders as the text it was parsed from.
pub proof fn lemma_name_round_trip(s: Seq<char>)
    requires
        parse_name(s) is Ok,
    ensures
        join(parse_name(s)->Ok_0, '/') == s,
{
    lemma_parse_name(s);
    if s.len() > 0 {
        crate::text::lemma_join_split(s, '/');
    }
}

/// The name of a namespace parses to that namespace.
pub proof fn lemma_parse_rendered_name(cs: Seq<Seq<char>>)
    requires
        valid_components(cs),
    ensures
        parse_name(join(cs, '/')) == Ok::<Seq<Seq<char>>, NamespaceError>(cs),
{
    if cs.len() == 0 {
        assert(cs =~= Seq::<Seq<char>>::empty());
    } else {
        assert(is_safe_id(cs.last()));
        lemma_join_nonempty(cs);
        lemma_components_free_of_slash(cs);
        crate::text::lemma_split_join(cs, '/');
        lemma_parse_name(join(cs, '/'));
    }
}

/// Safe identifiers hold no slash.
pub proof fn lemma_components_free_of_slash(cs: Seq<Seq<char>>)
    requires
        forall|i: int| 0 <= i < cs.len() ==> is_safe_id(#[trigger] cs[i]),
    ensures
        crate::text::free_of(cs, '/'),
{
    assert forall|k: int, i: int| 0 <= k < cs.len() && 0 <= i < cs[k].len() implies (
    #[trigger] cs[k][i]) != '/' by {
        assert(is_safe_id(cs[k]));
        lemma_safe_id_bytes(cs[k]);
        assert(!cs[k].contains('/'));
    }
}

/// The limits of depth and length: a name parses only if it has at most
/// seven pieces and 256 characters, and a name within these limits whose
/// pieces are safe identifiers does parse.
pub proof fn lemma_name_limits(s: Seq<char>)
    ensures
        parse_name(s) is Ok ==> s.len() <= MAX_BACKUP_NAMESPACE_LENGTH && (s.len() > 0
            ==> split(s, '/').len() <= MAX_NAMESPACE_DEPTH),
        s.len() > 0 && s.len() <= MAX_BACKUP_NAMESPACE_LENGTH && split(s, '/').len()
            <= MAX_NAMESPACE_DEPTH && (forall|i: int|
            0 <= i < split(s, '/').len() ==> is_safe_id(#[trigger] split(s, '/')[i]))
            ==> parse_name(s) is Ok,
{
    lemma_parse_name(s);
    crate::text::lemma_join_split(s, '/');
}

} // verus!

verus! {

/// `source` is the beginning of `cs`.
pub open spec fn is_prefix_of(source: Seq<Seq<char>>, cs: Seq<Seq<char>>) -> bool {
    source.len() <= cs.len() && cs.take(source.len() as int) == source
}

/// Replacing a prefix fails on a namespace that does not lie below the
/// source prefix; below it, the result is the target prefix followed by
/// what came after the source prefix, if that is within the limits.
pub proof fn lemma_map_prefix(cs: Seq<Seq<char>>, source: Seq<Seq<char>>, target: Seq<Seq<char>>)
    requires
        valid_components(target),
    ensures
        !is_prefix_of(source, cs) ==> map_prefix_components(cs, source, target) == Err::<
            Seq<Seq<char>>,
            NamespaceError,
        >(NamespaceError::PrefixMismatch),
        map_prefix_components(cs, source, target) is Ok <==> is_prefix_of(source, cs)
            && valid_components(target + cs.skip(source.len() as int)),
        map_prefix_components(cs, source, target) is Ok ==> map_prefix_components(
            cs,
            source,
            target,
        )->Ok_0 == target + cs.skip(source.len() as int),
{
    if is_prefix_of(source, cs) {
        lemma_push_components(target, cs.skip(source.len() as int));
    }
}

/// The pieces of a path: the marker `ns` in front of every component.
pub open spec fn path_pieces(cs: Seq<Seq<char>>) -> Seq<Seq<char>>
    decreases cs.len(),
{
    if cs.len() == 0 {
        Seq::<Seq<char>>::empty()
    } else {
        path_pieces(cs.drop_last()).push(ns_marker()).push(cs.last())
    }
}

/// The components of a path's pieces: every second piece.
pub open spec fn components_of_pieces(pieces: Seq<Seq<char>>) -> Seq<Seq<char>> {
    Seq::new((pieces.len() / 2) as nat, |i: int| pieces[2 * i + 1])
}

/// The pieces of a path have twice the length of the components, and
/// begin with the marker and the first component.
proof fn lemma_path_pieces_front(cs: Seq<Seq<char>>)
    ensures
        path_pieces(cs).len() == 2 * cs.len(),
        cs.len() > 0 ==> path_pieces(cs) == seq![ns_marker(), cs[0]] + path_pieces(cs.skip(1)),
    decreases cs.len(),
{
    if cs.len() == 1 {
        assert(cs.drop_last() =~= Seq::<Seq<char>>::empty());
        assert(cs.skip(1) =~= Seq::<Seq<char>>::empty());
        assert(path_pieces(cs) =~= seq![ns_marker(), cs[0]] + path_pieces(cs.skip(1)));
    } else if cs.len() > 1 {
        let front = cs.drop_last();
        lemma_path_pieces_front(front);
        lemma_path_pieces_front(cs.skip(1));
        assert(cs.skip(1).drop_last() =~= front.skip(1));
        assert(path_pieces(cs) =~= seq![ns_marker(), cs[0]] + path_pieces(cs.skip(1)));
    }
}

/// The path is its pieces joined by `/`.
proof fn lemma_path_is_joined_pieces(cs: Seq<Seq<char>>)
    ensures
        path_of(cs) == join(path_pieces(cs), '/'),
    decreases cs.len(),
{
    if cs.len() > 0 {
        let front = cs.drop_last();
        lemma_path_is_joined_pieces(front);
        lemma_path_pieces_front(front);
        let a = path_pieces(front);
        let b = a.push(ns_marker());
        let c = b.push(cs.last());
        assert(c.drop_last() =~= b);
        assert(b.drop_last() =~= a);
        if cs.len() == 1 {
            assert(a =~= Seq::<Seq<char>>::empty());
            assert(join(b, '/') == ns_marker());
        } else {
            assert(join(b, '/') == join(a, '/') + seq!['/'] + ns_marker());
            assert(join(c, '/') =~= path_of(cs));
        }
    }
}

/// Reading the pieces of a path is entering its components.
proof fn lemma_push_path_pieces(base: Seq<Seq<char>>, cs: Seq<Seq<char>>)
    ensures
        push_path_pieces(base, path_pieces(cs)) == push_components(base, cs),
    decreases cs.len(),
{
    lemma_path_pieces_front(cs);
    if cs.len() > 0 {
        let pieces = path_pieces(cs);
        assert(pieces[0] == ns_marker());
        assert(pieces[1] == cs[0]);
        assert(pieces.skip(2) =~= path_pieces(cs.skip(1)));
        match push_component(base, cs[0]) {
            Ok(next) => {
                lemma_push_path_pieces(next, cs.skip(1));
            },
            Err(_) => {},
        }
    }
}

/// Pieces that read as a path are the path pieces of their components.
proof fn lemma_read_pieces(base: Seq<Seq<char>>, pieces: Seq<Seq<char>>)
    requires
        push_path_pieces(base, pieces) is Ok,
    ensures
        pieces == path_pieces(components_of_pieces(pieces)),
        push_path_pieces(base, pieces) == push_components(base, components_of_pieces(pieces)),
    decreases pieces.len(),
{
    let cs = components_of_pieces(pieces);
    if pieces.len() == 0 {
        assert(cs =~= Seq::<Seq<char>>::empty());
        assert(pieces =~= Seq::<Seq<char>>::empty());
    } else {
        let next = push_component(base, pieces[1])->Ok_0;
        let rest = pieces.skip(2);
        lemma_read_pieces(next, rest);
        assert(components_of_pieces(rest) =~= cs.skip(1));
        lemma_path_pieces_front(cs);
        assert(pieces =~= seq![ns_marker(), cs[0]] + rest);
        lemma_push_path_pieces(base, cs);
    }
}

/// The path of a namespace parses to that namespace.
pub proof fn lemma_parse_rendered_path(cs: Seq<Seq<char>>)
    requires
        valid_components(cs),
    ensures
        parse_path(path_of(cs)) == Ok::<Seq<Seq<char>>, NamespaceError>(cs),
{
    if cs.len() == 0 {
        assert(cs =~= Seq::<Seq<char>>::empty());
    } else {
        let pieces = path_pieces(cs);
        lemma_path_is_joined_pieces(cs);
        lemma_path_pieces_front(cs);
        lemma_path_len(cs);
        lemma_components_free_of_slash(cs);
        assert(crate::text::free_of(pieces, '/')) by {
            lemma_path_pieces_free(cs);
        }
        crate::text::lemma_split_join(pieces, '/');
        lemma_push_path_pieces(Seq::<Seq<char>>::empty(), cs);
        lemma_push_components(Seq::<Seq<char>>::empty(), cs);
        assert(Seq::<Seq<char>>::empty() + cs =~= cs);
    }
}

/// The pieces of a path of slash-free components hold no slash.
proof fn lemma_path_pieces_free(cs: Seq<Seq<char>>)
    requires
        crate::text::free_of(cs, '/'),
    ensures
        crate::text::free_of(path_pieces(cs), '/'),
    decreases cs.len(),
{
    if cs.len() > 0 {
        let front = cs.drop_last();
        assert(crate::text::free_of(front, '/')) by {
            assert forall|k: int, i: int|
                0 <= k < front.len() && 0 <= i < front[k].len() implies (#[trigger] front[k][i])
                != '/' by {
                assert(front[k][i] == cs[k][i]);
            }
        }
        lemma_path_pieces_free(front);
        let a = path_pieces(front);
        let pieces = path_pieces(cs);
        assert forall|k: int, i: int|
            0 <= k < pieces.len() && 0 <= i < pieces[k].len() implies (#[trigger] pieces[k][i])
            != '/' by {
            if k < a.len() {
                assert(pieces[k][i] == a[k][i]);
            } else if k == a.len() {
                assert(pieces[k] == ns_marker());
            } else {
                assert(pieces[k][i] == cs[cs.len() - 1][i]);
            }
        }
    }
}

/// A namespace parsed from a path has that path.
pub proof fn lemma_path_round_trip(s: Seq<char>)
    requires
        parse_path(s) is Ok,
    ensures
        path_of(parse_path(s)->Ok_0) == s,
{
    if s.len() > 0 {
        let pieces = split(s, '/');
        let empty = Seq::<Seq<char>>::empty();
        let cs = components_of_pieces(pieces);
        lemma_read_pieces(empty, pieces);
        lemma_push_components(empty, cs);
        assert(empty + cs =~= cs);
        lemma_path_is_joined_pieces(cs);
        crate::text::lemma_join_split(s, '/');
    }
}

} // verus!
