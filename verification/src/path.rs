//! Paths as values: an opaque root and the names that lead down from it.

use vstd::prelude::*;
use vstd::string::StringExecFns;

verus! {

/// What a path is: the text of its root (empty for a relative path) and the
/// names of the directories and the file below it, outermost first.
pub struct PathView {
    pub root: Seq<char>,
    pub segments: Seq<Seq<char>>,
}

impl PathView {
    /// The path one name further down.
    pub open spec fn join(self, name: Seq<char>) -> PathView {
        PathView { root: self.root, segments: self.segments.push(name) }
    }

    /// The path one name further up; a path without names has none.
    pub open spec fn parent(self) -> Option<PathView> {
        if self.segments.len() == 0 {
            None
        } else {
            Some(PathView { root: self.root, segments: self.segments.drop_last() })
        }
    }

    /// The ancestor with the first `n` names of this path.
    pub open spec fn prefix(self, n: int) -> PathView {
        PathView { root: self.root, segments: self.segments.subrange(0, n) }
    }

    /// `self` is `other` or one of its ancestors.
    pub open spec fn is_prefix_of(self, other: PathView) -> bool {
        self.segments.len() <= other.segments.len() && self == other.prefix(
            self.segments.len() as int,
        )
    }
}

/// What joining a name to a path gives: a path one name longer, whose parent
/// and whose ancestor of the old length is the old path.
pub proof fn lemma_join(p: PathView, name: Seq<char>)
    ensures
        p.join(name).parent() == Some(p),
        p.join(name).segments.len() == p.segments.len() + 1,
        p.join(name).segments.last() == name,
        p.is_prefix_of(p.join(name)),
        p.join(name).prefix(p.segments.len() as int) == p,
        p.join(name).prefix(p.segments.len() as int + 1) == p.join(name),
{
    let longer = p.join(name);
    assert(longer.segments.drop_last() =~= p.segments);
    assert(longer.segments.subrange(0, p.segments.len() as int) =~= p.segments);
    assert(longer.segments.subrange(0, p.segments.len() as int + 1) =~= longer.segments);
}

/// The ancestors of a path one name longer than `p` are that path and the
/// ancestors of `p`.
pub proof fn lemma_prefix_of_join(q: PathView, p: PathView, name: Seq<char>)
    ensures
        q.is_prefix_of(p.join(name)) <==> (q.is_prefix_of(p) || q == p.join(name)),
{
    let longer = p.join(name);
    let n = q.segments.len() as int;
    lemma_join(p, name);
    if n <= p.segments.len() {
        assert(longer.prefix(n).segments =~= p.prefix(n).segments);
        if q == longer {
            assert(false);
        }
    } else if n == longer.segments.len() {
        assert(longer.prefix(n).segments =~= longer.segments);
    }
}

/// A path is its own ancestor, and an ancestor of an ancestor is an ancestor.
pub proof fn lemma_prefix_order(a: PathView, b: PathView, c: PathView)
    ensures
        a.is_prefix_of(a),
        a.is_prefix_of(b) && b.is_prefix_of(c) ==> a.is_prefix_of(c),
{
    assert(a.prefix(a.segments.len() as int).segments =~= a.segments);
    if a.is_prefix_of(b) && b.is_prefix_of(c) {
        let n = a.segments.len() as int;
        let k = b.segments.len() as int;
        assert(c.prefix(n).segments =~= c.prefix(k).segments.subrange(0, n));
    }
}

/// The texts of a list of names.
pub open spec fn names(list: Seq<String>) -> Seq<Seq<char>> {
    Seq::new(list.len(), |i: int| list[i]@)
}

/// A path in a file tree.
#[derive(Debug)]
pub struct FilePath {
    pub root: String,
    pub segments: Vec<String>,
}

impl View for FilePath {
    type V = PathView;

    open spec fn view(&self) -> PathView {
        PathView { root: self.root@, segments: names(self.segments@) }
    }
}

impl Clone for FilePath {
    fn clone(&self) -> (copy: FilePath)
        ensures
            copy@ == self@,
    {
        let mut segments: Vec<String> = Vec::new();
        let mut i: usize = 0;
        while i < self.segments.len()
            invariant
                i <= self.segments.len(),
                segments@.len() == i,
                names(segments@) == names(self.segments@).subrange(0, i as int),
            decreases self.segments.len() - i,
        {
            let ghost before = segments@;
            segments.push(self.segments[i].clone());
            proof {
                assert forall|k: int| 0 <= k <= i implies names(segments@)[k] == names(
                    self.segments@,
                )[k] by {
                    if k < i {
                        assert(names(before)[k] == names(self.segments@).subrange(0, i as int)[k]);
                        assert(segments@[k] == before[k]);
                    }
                }
                assert(names(segments@) =~= names(self.segments@).subrange(0, i as int + 1));
            }
            i += 1;
        }
        assert(names(segments@) =~= names(self.segments@));
        FilePath { root: self.root.clone(), segments }
    }
}

impl FilePath {
    /// The path that is the root `root` itself, with no names below it.
    pub fn new(root: &str) -> (path: FilePath)
        ensures
            path@ == (PathView { root: root@, segments: Seq::empty() }),
    {
        let segments: Vec<String> = Vec::new();
        assert(names(segments@) =~= Seq::<Seq<char>>::empty());
        FilePath { root: String::from_str(root), segments }
    }

    /// The path one name further down.
    pub fn join(&self, name: &str) -> (path: FilePath)
        ensures
            path@ == self@.join(name@),
    {
        let mut path = self.clone();
        path.segments.push(String::from_str(name));
        assert(names(path.segments@) =~= names(self.segments@).push(name@));
        path
    }

    /// The path one name further up, or `None` for a path without names.
    pub fn parent(&self) -> (path: Option<FilePath>)
        ensures
            match path {
                Some(p) => self@.parent() == Some(p@),
                None => self@.parent() is None,
            },
    {
        if self.segments.len() == 0 {
            assert(names(self.segments@).len() == 0);
            return None;
        }
        let n = self.segments.len() - 1;
        let path = self.ancestor(n);
        assert(self@.segments.subrange(0, n as int) =~= self@.segments.drop_last());
        Some(path)
    }

    /// The ancestor with the first `n` names of this path.
    pub fn ancestor(&self, n: usize) -> (path: FilePath)
        requires
            n <= self@.segments.len(),
        ensures
            path@ == self@.prefix(n as int),
    {
        let mut segments: Vec<String> = Vec::new();
        let mut i: usize = 0;
        assert(names(self.segments@).len() == self.segments.len());
        while i < n
            invariant
                i <= n <= self.segments.len(),
                segments@.len() == i,
                names(segments@) == names(self.segments@).subrange(0, i as int),
            decreases n - i,
        {
            let ghost before = segments@;
            segments.push(self.segments[i].clone());
            proof {
                assert forall|k: int| 0 <= k <= i implies names(segments@)[k] == names(
                    self.segments@,
                )[k] by {
                    if k < i {
                        assert(names(before)[k] == names(self.segments@).subrange(0, i as int)[k]);
                        assert(segments@[k] == before[k]);
                    }
                }
                assert(names(segments@) =~= names(self.segments@).subrange(0, i as int + 1));
            }
            i += 1;
        }
        FilePath { root: self.root.clone(), segments }
    }

    /// The number of names below the root.
    pub fn depth(&self) -> (n: usize)
        ensures
            n == self@.segments.len(),
    {
        assert(names(self.segments@).len() == self.segments.len());
        self.segments.len()
    }

    /// Whether two paths have the same root and the same names.
    pub fn same(&self, other: &FilePath) -> (equal: bool)
        ensures
            equal == (self@ == other@),
    {
        assert(names(self.segments@).len() == self.segments.len());
        assert(names(other.segments@).len() == other.segments.len());
        if self.root != other.root || self.segments.len() != other.segments.len() {
            return false;
        }
        let mut i: usize = 0;
        while i < self.segments.len()
            invariant
                i <= self.segments.len(),
                self.segments.len() == other.segments.len(),
                forall|k: int|
                    0 <= k < i ==> names(self.segments@)[k] == names(other.segments@)[k],
            decreases self.segments.len() - i,
        {
            if self.segments[i] != other.segments[i] {
                assert(names(self.segments@)[i as int] != names(other.segments@)[i as int]);
                return false;
            }
            i += 1;
        }
        assert(names(self.segments@) =~= names(other.segments@));
        true
    }
}

} // verus!
