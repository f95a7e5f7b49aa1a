//! Paths as sequences of components.
//!
//! A path is held as the list of its components, root first. Two paths are the
//! same when their components are the same text, one path lies under another
//! when the other's components are a prefix of its own, and joining appends
//! components. This is how paths compare component by component on disk; the
//! separator never appears.

use vstd::prelude::*;

verus! {

/// A path in specifications: the text of its components.
pub type PathModel = Seq<Seq<char>>;

/// The text of each component of a path, in order.
pub open spec fn component_texts(parts: Seq<String>) -> Seq<Seq<char>> {
    Seq::new(parts.len(), |i: int| parts[i]@)
}

/// A path: its components, outermost first.
#[derive(Debug)]
pub struct FilePath {
    pub components: Vec<String>,
}

impl View for FilePath {
    type V = Seq<Seq<char>>;

    open spec fn view(&self) -> Seq<Seq<char>> {
        component_texts(self.components@)
    }
}

/// The views of a list of paths.
pub open spec fn path_models(paths: Seq<FilePath>) -> Seq<PathModel> {
    Seq::new(paths.len(), |i: int| paths[i]@)
}

/// The view of a path that may be missing.
pub open spec fn optional_path(path: Option<FilePath>) -> Option<PathModel> {
    match path {
        Some(p) => Some(p@),
        None => None,
    }
}

impl FilePath {
    /// The path with no components.
    pub fn new() -> (path: FilePath)
        ensures
            path@ == Seq::<Seq<char>>::empty(),
    {
        let path = FilePath { components: Vec::new() };
        assert(path@ =~= Seq::<Seq<char>>::empty());
        path
    }

    /// The path made of the given components.
    pub fn from_components(components: Vec<String>) -> (path: FilePath)
        ensures
            path@ == component_texts(components@),
            path.components == components,
    {
        FilePath { components }
    }

    /// How many components the path has.
    pub fn len(&self) -> (n: usize)
        ensures
            n == self@.len(),
    {
        self.components.len()
    }

    /// Appends one component.
    pub fn push(&mut self, name: &str)
        ensures
            final(self)@ == old(self)@.push(name@),
    {
        let owned = String::from_str(name);
        self.components.push(owned);
        assert(self@ =~= old(self)@.push(name@));
    }

    /// The components from position `from` up to, not including, `to`.
    fn slice(&self, from: usize, to: usize) -> (part: FilePath)
        requires
            from <= to <= self@.len(),
        ensures
            part@ == self@.subrange(from as int, to as int),
    {
        let mut parts: Vec<String> = Vec::new();
        let mut i: usize = from;
        while i < to
            invariant
                from <= i <= to <= self.components.len(),
                parts.len() == i - from,
                forall|k: int| 0 <= k < parts.len() ==> parts[k]@ == self.components[from + k]@,
            decreases to - i,
        {
            parts.push(self.components[i].clone());
            i += 1;
        }
        let part = FilePath { components: parts };
        assert(part@ =~= self@.subrange(from as int, to as int));
        part
    }

    /// This path followed by the components of `rest`.
    pub fn join(&self, rest: &FilePath) -> (joined: FilePath)
        ensures
            joined@ == self@ + rest@,
    {
        let mut parts: Vec<String> = Vec::new();
        let mut i: usize = 0;
        while i < self.components.len()
            invariant
                i <= self.components.len(),
                parts.len() == i,
                forall|k: int| 0 <= k < i ==> parts[k]@ == self.components[k]@,
            decreases self.components.len() - i,
        {
            parts.push(self.components[i].clone());
            i += 1;
        }
        let mut j: usize = 0;
        while j < rest.components.len()
            invariant
                j <= rest.components.len(),
                parts.len() == self.components.len() + j,
                forall|k: int| 0 <= k < self.components.len() ==> parts[k]@ == self.components[k]@,
                forall|k: int| 0 <= k < j ==> parts[self.components.len() + k]@ == rest.components[k]@,
            decreases rest.components.len() - j,
        {
            parts.push(rest.components[j].clone());
            j += 1;
        }
        let joined = FilePath { components: parts };
        assert(joined@ =~= self@ + rest@);
        joined
    }

    /// This path followed by one more component.
    pub fn child(&self, name: &str) -> (path: FilePath)
        ensures
            path@ == self@.push(name@),
    {
        let mut path = self.slice(0, self.components.len());
        assert(path@ =~= self@);
        path.push(name);
        path
    }

    /// Whether this path is `base` or lies under it: whether the components
    /// of `base` are the first components of this path.
    pub fn starts_with(&self, base: &FilePath) -> (under: bool)
        ensures
            under == base@.is_prefix_of(self@),
    {
        if base.components.len() > self.components.len() {
            return false;
        }
        let mut i: usize = 0;
        while i < base.components.len()
            invariant
                i <= base.components.len() <= self.components.len(),
                forall|k: int| 0 <= k < i ==> self@[k] == base@[k],
            decreases base.components.len() - i,
        {
            if !(self.components[i] == base.components[i]) {
                assert(self@.subrange(0, base@.len() as int)[i as int] != base@[i as int]);
                return false;
            }
            i += 1;
        }
        assert(base@ =~= self@.subrange(0, base@.len() as int));
        true
    }

    /// What is left of this path below `base`, if it lies under `base`.
    pub fn strip_prefix(&self, base: &FilePath) -> (rest: Option<FilePath>)
        ensures
            rest is Some <==> base@.is_prefix_of(self@),
            rest matches Some(r) ==> r@ == self@.skip(base@.len() as int) && self@ == base@ + r@,
    {
        if self.starts_with(base) {
            let r = self.slice(base.components.len(), self.components.len());
            assert(r@ =~= self@.skip(base@.len() as int));
            assert(self@ =~= base@ + r@);
            Some(r)
        } else {
            None
        }
    }

    /// The last component, if there is one.
    pub fn file_name(&self) -> (name: Option<&String>)
        ensures
            name is Some <==> self@.len() > 0,
            name matches Some(n) ==> n@ == self@.last(),
    {
        let n = self.components.len();
        if n == 0 {
            None
        } else {
            Some(&self.components[n - 1])
        }
    }

    /// The path without its last component, if it has one.
    pub fn parent(&self) -> (dir: Option<FilePath>)
        ensures
            dir is Some <==> self@.len() > 0,
            dir matches Some(d) ==> d@ == self@.drop_last(),
    {
        let n = self.components.len();
        if n == 0 {
            None
        } else {
            let d = self.slice(0, n - 1);
            assert(d@ =~= self@.drop_last());
            Some(d)
        }
    }
}

impl Clone for FilePath {
    fn clone(&self) -> (copy: FilePath)
        ensures
            copy@ == self@,
    {
        let copy = self.slice(0, self.components.len());
        assert(copy@ =~= self@);
        copy
    }
}

impl PartialEq for FilePath {
    fn eq(&self, other: &FilePath) -> (same: bool) {
        if self.components.len() != other.components.len() {
            assert(self@.len() != other@.len());
            return false;
        }
        let mut i: usize = 0;
        while i < self.components.len()
            invariant
                i <= self.components.len(),
                self.components.len() == other.components.len(),
                forall|k: int| 0 <= k < i ==> self@[k] == other@[k],
            decreases self.components.len() - i,
        {
            if !(self.components[i] == other.components[i]) {
                assert(self@[i as int] != other@[i as int]);
                return false;
            }
            i += 1;
        }
        assert(self@ =~= other@);
        true
    }
}

impl vstd::std_specs::cmp::PartialEqSpecImpl for FilePath {
    open spec fn obeys_eq_spec() -> bool {
        true
    }

    open spec fn eq_spec(&self, other: &FilePath) -> bool {
        self@ == other@
    }
}

} // verus!
