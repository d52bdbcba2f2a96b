//! A file tree as a value: which paths are known to exist, and what each one
//! holds. The store and the repository read and change such a tree; a caller
//! that keeps its objects on disk loads the part that an operation touches
//! and writes back what the operation added.

use crate::error::Error;
use crate::path::{FilePath, PathView};
use vstd::prelude::*;

verus! {

/// What a path holds.
#[derive(Debug)]
pub enum Node {
    Directory,
    File(Vec<u8>),
}

/// What a path holds, as a mathematical value.
pub enum NodeView {
    Directory,
    File(Seq<u8>),
}

impl View for Node {
    type V = NodeView;

    open spec fn view(&self) -> NodeView {
        match self {
            Node::Directory => NodeView::Directory,
            Node::File(content) => NodeView::File(content@),
        }
    }
}

/// The parent of `p` is a directory of `m`.
pub open spec fn parent_is_dir(m: Map<PathView, NodeView>, p: PathView) -> bool {
    p.parent() is Some && m.dom().contains(p.parent().unwrap()) && m[p.parent().unwrap()]
        is Directory
}

/// Whatever exists below a root lies in a directory that exists.
pub open spec fn is_tree(m: Map<PathView, NodeView>) -> bool {
    forall|q: PathView|
        #![trigger m.dom().contains(q)]
        m.dom().contains(q) && q.segments.len() > 0 ==> parent_is_dir(m, q)
}

/// One of the listed paths is `p`.
pub open spec fn listed(list: Seq<FilePath>, p: PathView) -> bool {
    exists|i: int| 0 <= i < list.len() && (#[trigger] list[i])@ == p
}

/// `p` or one of its ancestors is a file of `m`, so that no directory can be
/// made at `p`.
pub open spec fn blocked(m: Map<PathView, NodeView>, p: PathView) -> bool {
    exists|k: int|
        0 <= k <= p.segments.len() && m.dom().contains(#[trigger] p.prefix(k)) && m[p.prefix(k)]
            is File
}

/// `m` with a directory at each ancestor of `p` that has fewer than `k` names,
/// where `m` holds nothing yet.
pub open spec fn with_dirs_to(m: Map<PathView, NodeView>, p: PathView, k: int) -> Map<
    PathView,
    NodeView,
> {
    Map::new(
        |q: PathView| m.dom().contains(q) || (q.is_prefix_of(p) && q.segments.len() < k),
        |q: PathView|
            if m.dom().contains(q) {
                m[q]
            } else {
                NodeView::Directory
            },
    )
}

/// `m` with a directory at `p` and at each of its ancestors, where `m` holds
/// nothing yet.
pub open spec fn with_dirs(m: Map<PathView, NodeView>, p: PathView) -> Map<PathView, NodeView> {
    with_dirs_to(m, p, p.segments.len() as int + 1)
}

/// Whatever exists in `before` exists in `after` and holds the same there.
pub open spec fn extends(after: Map<PathView, NodeView>, before: Map<PathView, NodeView>) -> bool {
    forall|q: PathView|
        #![trigger before.dom().contains(q)]
        before.dom().contains(q) ==> after.dom().contains(q) && after[q] == before[q]
}

/// What exists once directories are made down to `a`: what existed, unchanged,
/// and a directory at `a` and at each of its ancestors where nothing existed.
pub proof fn lemma_with_dirs(m: Map<PathView, NodeView>, a: PathView, q: PathView)
    ensures
        with_dirs(m, a).dom().contains(q) <==> (m.dom().contains(q) || q.is_prefix_of(a)),
        m.dom().contains(q) ==> with_dirs(m, a)[q] == m[q],
        !m.dom().contains(q) && q.is_prefix_of(a) ==> with_dirs(m, a)[q] == NodeView::Directory,
{
}

/// In a tree, nothing exists below a path at which nothing exists.
pub proof fn lemma_absent_below(m: Map<PathView, NodeView>, g: PathView, q: PathView)
    requires
        is_tree(m),
        !m.dom().contains(g),
        g.is_prefix_of(q),
    ensures
        !m.dom().contains(q),
    decreases q.segments.len(),
{
    if q != g && m.dom().contains(q) {
        let n = g.segments.len() as int;
        assert(n < q.segments.len()) by {
            if n == q.segments.len() {
                assert(q.prefix(n).segments =~= q.segments);
            }
        }
        let up = q.parent().unwrap();
        assert(up.prefix(n).segments =~= q.prefix(n).segments);
        assert(g.is_prefix_of(up));
        lemma_absent_below(m, g, up);
    }
}

/// In a tree, a directory can be made anywhere below a path at which nothing
/// exists and at which one can be made.
pub proof fn lemma_not_blocked_below(m: Map<PathView, NodeView>, g: PathView, b: PathView)
    requires
        is_tree(m),
        !blocked(m, g),
        !m.dom().contains(g),
        g.is_prefix_of(b),
    ensures
        !blocked(m, b),
{
    assert forall|k: int| 0 <= k <= b.segments.len() && m.dom().contains(
        #[trigger] b.prefix(k),
    ) implies !(m[b.prefix(k)] is File) by {
        let n = g.segments.len() as int;
        if k <= n {
            assert(b.prefix(k) == g.prefix(k)) by {
                assert(b.prefix(n).segments.subrange(0, k) =~= b.prefix(k).segments);
            }
        } else {
            assert(g.is_prefix_of(b.prefix(k))) by {
                assert(b.prefix(k).prefix(n).segments =~= b.prefix(n).segments);
            }
            lemma_absent_below(m, g, b.prefix(k));
        }
    }
}

/// Making directories turns no path into a file: where a directory could be
/// made before, it still can.
pub proof fn lemma_with_dirs_keeps(m: Map<PathView, NodeView>, a: PathView, b: PathView)
    requires
        !blocked(m, b),
    ensures
        !blocked(with_dirs(m, a), b),
{
    let more = with_dirs(m, a);
    assert forall|k: int| 0 <= k <= b.segments.len() && more.dom().contains(
        #[trigger] b.prefix(k),
    ) implies !(more[b.prefix(k)] is File) by {
        if m.dom().contains(b.prefix(k)) {
            assert(!(m[b.prefix(k)] is File));
        }
    }
}

#[derive(Debug)]
struct Entry {
    path: FilePath,
    node: Node,
}

spec fn holds(entries: Seq<Entry>, p: PathView) -> bool {
    exists|i: int| 0 <= i < entries.len() && (#[trigger] entries[i]).path@ == p
}

spec fn index_of(entries: Seq<Entry>, p: PathView) -> int {
    choose|i: int| 0 <= i < entries.len() && (#[trigger] entries[i]).path@ == p
}

spec fn distinct(entries: Seq<Entry>) -> bool {
    forall|i: int, j: int|
        0 <= i < j < entries.len() ==> (#[trigger] entries[i]).path@ != (#[trigger] entries[j]).path@
}

spec fn as_map(entries: Seq<Entry>) -> Map<PathView, NodeView> {
    Map::new(|p: PathView| holds(entries, p), |p: PathView| entries[index_of(entries, p)].node@)
}

proof fn lemma_entry(entries: Seq<Entry>, i: int)
    requires
        distinct(entries),
        0 <= i < entries.len(),
    ensures
        holds(entries, entries[i].path@),
        index_of(entries, entries[i].path@) == i,
        as_map(entries).dom().contains(entries[i].path@),
        as_map(entries)[entries[i].path@] == entries[i].node@,
{
    let j = index_of(entries, entries[i].path@);
    if j < i {
        assert(entries[j].path@ != entries[i].path@);
    } else if i < j {
        assert(entries[i].path@ != entries[j].path@);
    }
}

proof fn lemma_pushed(entries: Seq<Entry>, entry: Entry)
    requires
        distinct(entries),
        !holds(entries, entry.path@),
    ensures
        distinct(entries.push(entry)),
        as_map(entries.push(entry)) == as_map(entries).insert(entry.path@, entry.node@),
{
    let more = entries.push(entry);
    assert forall|i: int, j: int| 0 <= i < j < more.len() implies (#[trigger] more[i]).path@ != (
    #[trigger] more[j]).path@ by {
        if j == entries.len() {
            assert(entries[i].path@ != entry.path@);
        } else {
            assert(entries[i].path@ != entries[j].path@);
        }
    }
    let target = as_map(entries).insert(entry.path@, entry.node@);
    assert forall|q: PathView| as_map(more).dom().contains(q) <==> target.dom().contains(q) by {
        if holds(more, q) {
            let i = index_of(more, q);
            if i < entries.len() {
                assert(entries[i].path@ == q);
            }
        }
        if holds(entries, q) {
            let i = index_of(entries, q);
            assert(more[i].path@ == q);
        }
        if q == entry.path@ {
            assert(more[entries.len() as int].path@ == q);
        }
    }
    assert forall|q: PathView| as_map(more).dom().contains(q) implies as_map(more)[q] == target[q] by {
        let i = index_of(more, q);
        lemma_entry(more, i);
        if i < entries.len() {
            assert(entries[i].path@ == q);
            lemma_entry(entries, i);
        }
    }
    assert(as_map(more) =~= target);
}

/// The ancestor of `p` with `k` names is the only path of `k` names that is
/// `p` or an ancestor of it.
proof fn lemma_prefix_of_depth(p: PathView, k: int)
    requires
        0 <= k <= p.segments.len(),
    ensures
        forall|q: PathView|
            (q.is_prefix_of(p) && q.segments.len() == k) <==> q == p.prefix(k),
{
    let own = p.prefix(k);
    assert(own.prefix(k) == own) by {
        assert(own.segments.subrange(0, k) =~= own.segments);
    }
}

/// Once the ancestors of `p` with fewer than `k` names are directories, the
/// parent of the ancestor with `k` names is one.
proof fn lemma_parent_made(m: Map<PathView, NodeView>, p: PathView, k: int)
    requires
        0 <= k <= p.segments.len(),
        !blocked(m, p),
    ensures
        k > 0 ==> parent_is_dir(with_dirs_to(m, p, k), p.prefix(k)),
{
    if k > 0 {
        let up = p.prefix(k - 1);
        assert(p.prefix(k).parent() == Some(up)) by {
            assert(p.prefix(k).segments.drop_last() =~= up.segments);
        }
        lemma_prefix_of_depth(p, k - 1);
        assert(up.is_prefix_of(p));
        if m.dom().contains(up) {
            assert(!(m[up] is File));
        }
    }
}

/// Whether one of the listed paths is `path`.
pub fn is_listed(list: &Vec<FilePath>, path: &FilePath) -> (found: bool)
    ensures
        found == listed(list@, path@),
{
    let mut i: usize = 0;
    while i < list.len()
        invariant
            i <= list.len(),
            forall|k: int| 0 <= k < i ==> (#[trigger] list@[k])@ != path@,
        decreases list.len() - i,
    {
        if list[i].same(path) {
            return true;
        }
        i += 1;
    }
    false
}

/// The paths known to exist and what each holds. No path occurs twice, and
/// whatever exists below a root lies in a directory that exists.
#[derive(Debug)]
pub struct FileTree {
    entries: Vec<Entry>,
}

impl View for FileTree {
    type V = Map<PathView, NodeView>;

    closed spec fn view(&self) -> Map<PathView, NodeView> {
        as_map(self.entries@)
    }
}

impl FileTree {
    #[verifier::type_invariant]
    spec fn well_formed(&self) -> bool {
        distinct(self.entries@) && is_tree(as_map(self.entries@))
    }

    /// The tree in which nothing exists.
    pub fn new() -> (tree: FileTree)
        ensures
            tree@ == Map::<PathView, NodeView>::empty(),
    {
        let tree = FileTree { entries: Vec::new() };
        assert(tree@ =~= Map::<PathView, NodeView>::empty());
        tree
    }

    fn position(&self, path: &FilePath) -> (found: Option<usize>)
        ensures
            match found {
                Some(i) => i < self.entries@.len() && self.entries@[i as int].path@ == path@,
                None => !holds(self.entries@, path@),
            },
    {
        let mut i: usize = 0;
        while i < self.entries.len()
            invariant
                i <= self.entries.len(),
                forall|k: int| 0 <= k < i ==> (#[trigger] self.entries@[k]).path@ != path@,
            decreases self.entries.len() - i,
        {
            if self.entries[i].path.same(path) {
                return Some(i);
            }
            i += 1;
        }
        None
    }

    fn add(&mut self, path: FilePath, node: Node)
        requires
            !old(self)@.dom().contains(path@),
            path@.segments.len() > 0 ==> parent_is_dir(old(self)@, path@),
        ensures
            final(self)@ == old(self)@.insert(path@, node@),
    {
        proof {
            use_type_invariant(&*self);
            lemma_pushed(self.entries@, Entry { path, node });
            let before = as_map(self.entries@);
            let after = before.insert(path@, node@);
            assert forall|q: PathView|
                #![trigger after.dom().contains(q)]
                after.dom().contains(q) && q.segments.len() > 0 implies parent_is_dir(after, q) by {
                if q != path@ {
                    assert(before.dom().contains(q));
                }
            }
        }
        let mut taken = FileTree::new();
        core::mem::swap(self, &mut taken);
        let mut entries = taken.entries;
        entries.push(Entry { path, node });
        *self = FileTree { entries };
    }

    /// Whether anything exists at `path`.
    pub fn contains(&self, path: &FilePath) -> (found: bool)
        ensures
            found == self@.dom().contains(path@),
            is_tree(self@),
    {
        proof {
            use_type_invariant(self);
        }
        self.position(path).is_some()
    }

    /// Whether a directory exists at `path`.
    pub fn is_dir(&self, path: &FilePath) -> (found: bool)
        ensures
            found == (self@.dom().contains(path@) && self@[path@] is Directory),
    {
        proof {
            use_type_invariant(self);
        }
        match self.position(path) {
            Some(i) => {
                proof {
                    lemma_entry(self.entries@, i as int);
                }
                match &self.entries[i].node {
                    Node::Directory => true,
                    Node::File(_) => false,
                }
            },
            None => false,
        }
    }

    /// The content of the file at `path`, or `None` where no file exists
    /// there.
    pub fn read(&self, path: &FilePath) -> (content: Option<&Vec<u8>>)
        ensures
            match content {
                Some(bytes) => self@.dom().contains(path@) && self@[path@] == NodeView::File(
                    bytes@,
                ),
                None => !(self@.dom().contains(path@) && self@[path@] is File),
            },
            is_tree(self@),
    {
        proof {
            use_type_invariant(self);
        }
        match self.position(path) {
            Some(i) => {
                proof {
                    lemma_entry(self.entries@, i as int);
                }
                match &self.entries[i].node {
                    Node::Directory => None,
                    Node::File(bytes) => Some(bytes),
                }
            },
            None => None,
        }
    }

    /// Makes a directory at `path` and at each of its ancestors where nothing
    /// exists yet. Fails with `IOError`, and changes nothing, where `path` or
    /// one of its ancestors is a file.
    pub fn create_dir_all(&mut self, path: &FilePath) -> (result: Result<(), Error>)
        ensures
            match result {
                Ok(()) => !blocked(old(self)@, path@) && final(self)@ == with_dirs(
                    old(self)@,
                    path@,
                ) && extends(final(self)@, old(self)@) && final(self)@.dom().contains(path@)
                    && final(self)@[path@] is Directory,
                Err(e) => e == Error::IOError && blocked(old(self)@, path@) && final(self)@ == old(
                    self,
                )@,
            },
    {
        let depth = path.depth();
        proof {
            assert(path@.prefix(depth as int) == path@) by {
                assert(path@.segments.subrange(0, depth as int) =~= path@.segments);
            }
        }
        let mut k: usize = 0;
        while k < depth
            invariant
                k <= depth,
                depth == path@.segments.len(),
                *self == *old(self),
                forall|j: int|
                    0 <= j < k ==> !(self@.dom().contains(#[trigger] path@.prefix(j))
                        && self@[path@.prefix(j)] is File),
            decreases depth - k,
        {
            let prefix = path.ancestor(k);
            if self.read(&prefix).is_some() {
                return Err(Error::IOError);
            }
            k += 1;
        }
        if self.read(path).is_some() {
            return Err(Error::IOError);
        }
        let ghost before = self@;
        assert(!blocked(before, path@));
        let mut k: usize = 0;
        while k < depth
            invariant
                k <= depth,
                depth == path@.segments.len(),
                before == old(self)@,
                !blocked(before, path@),
                self@ == with_dirs_to(before, path@, k as int),
            decreases depth - k,
        {
            let prefix = path.ancestor(k);
            proof {
                lemma_prefix_of_depth(path@, k as int);
                lemma_parent_made(before, path@, k as int);
            }
            if !self.contains(&prefix) {
                self.add(prefix, Node::Directory);
            }
            assert(self@ =~= with_dirs_to(before, path@, k as int + 1));
            k += 1;
        }
        proof {
            lemma_prefix_of_depth(path@, depth as int);
            lemma_parent_made(before, path@, depth as int);
        }
        if !self.contains(path) {
            self.add(path.clone(), Node::Directory);
        }
        assert(self@ =~= with_dirs_to(before, path@, depth as int + 1));
        proof {
            lemma_prefix_of_depth(path@, depth as int);
            if before.dom().contains(path@) {
                assert(!(before[path@.prefix(depth as int)] is File));
            }
        }
        Ok(())
    }

    /// Makes a file with the given content at `path`, unless something exists
    /// there already (`AlreadyExists`) or the parent of `path` is not a
    /// directory of the tree (`IOError`). A failure changes nothing.
    pub fn create_new(&mut self, path: &FilePath, content: Vec<u8>) -> (result: Result<
        (),
        Error,
    >)
        ensures
            match result {
                Ok(()) => !old(self)@.dom().contains(path@) && parent_is_dir(old(self)@, path@)
                    && final(self)@ == old(self)@.insert(path@, NodeView::File(content@)),
                Err(e) => final(self)@ == old(self)@ && e == (if old(self)@.dom().contains(
                    path@,
                ) {
                    Error::AlreadyExists
                } else {
                    Error::IOError
                }) && (old(self)@.dom().contains(path@) || !parent_is_dir(old(self)@, path@)),
            },
    {
        if self.contains(path) {
            return Err(Error::AlreadyExists);
        }
        match path.parent() {
            None => Err(Error::IOError),
            Some(parent) => {
                if !self.is_dir(&parent) {
                    return Err(Error::IOError);
                }
                self.add(path.clone(), Node::File(content));
                Ok(())
            },
        }
    }

    /// The paths that exist beyond the `known` ones, each once: what was
    /// added to a tree whose paths were the `known` ones before.
    pub fn added_since(&self, known: &Vec<FilePath>) -> (list: Vec<FilePath>)
        ensures
            forall|i: int|
                0 <= i < list@.len() ==> self@.dom().contains(#[trigger] list@[i]@) && !listed(
                    known@,
                    list@[i]@,
                ),
            forall|p: PathView|
                #![trigger self@.dom().contains(p)]
                self@.dom().contains(p) && !listed(known@, p) ==> listed(list@, p),
            forall|i: int, j: int|
                0 <= i < j < list@.len() ==> (#[trigger] list@[i])@ != (#[trigger] list@[j])@,
    {
        proof {
            use_type_invariant(self);
        }
        let mut list: Vec<FilePath> = Vec::new();
        let ghost mut from: Seq<int> = Seq::empty();
        let mut i: usize = 0;
        while i < self.entries.len()
            invariant
                i <= self.entries.len(),
                distinct(self.entries@),
                from.len() == list@.len(),
                forall|k: int|
                    0 <= k < from.len() ==> 0 <= #[trigger] from[k] < i && list@[k]@
                        == self.entries@[from[k]].path@ && !listed(known@, list@[k]@),
                forall|a: int, b: int| 0 <= a < b < from.len() ==> from[a] < from[b],
                forall|e: int|
                    0 <= e < i && !listed(known@, (#[trigger] self.entries@[e]).path@) ==> listed(
                        list@,
                        self.entries@[e].path@,
                    ),
            decreases self.entries.len() - i,
        {
            if !is_listed(known, &self.entries[i].path) {
                let ghost before = list@;
                list.push(self.entries[i].path.clone());
                proof {
                    from = from.push(i as int);
                    assert forall|e: int|
                        0 <= e <= i && !listed(
                            known@,
                            (#[trigger] self.entries@[e]).path@,
                        ) implies listed(list@, self.entries@[e].path@) by {
                        if e < i {
                            let k = choose|k: int|
                                0 <= k < before.len() && (#[trigger] before[k])@
                                    == self.entries@[e].path@;
                            assert(list@[k]@ == self.entries@[e].path@);
                        } else {
                            assert(list@[before.len() as int]@ == self.entries@[e].path@);
                        }
                    }
                }
            }
            i += 1;
        }
        proof {
            assert forall|k: int| 0 <= k < list@.len() implies self@.dom().contains(
                #[trigger] list@[k]@,
            ) && !listed(known@, list@[k]@) by {
                lemma_entry(self.entries@, from[k]);
            }
            assert forall|p: PathView|
                #![trigger self@.dom().contains(p)]
                self@.dom().contains(p) && !listed(known@, p) implies listed(list@, p) by {
                let e = index_of(self.entries@, p);
                assert(self.entries@[e].path@ == p);
            }
            assert forall|a: int, b: int| 0 <= a < b < list@.len() implies (#[trigger] list@[a])@ != (
            #[trigger] list@[b])@ by {
                assert(from[a] < from[b]);
                assert(self.entries@[from[a]].path@ != self.entries@[from[b]].path@);
            }
        }
        list
    }

    /// The paths that exist, each once.
    pub fn paths(&self) -> (list: Vec<FilePath>)
        ensures
            forall|i: int| 0 <= i < list@.len() ==> self@.dom().contains(#[trigger] list@[i]@),
            forall|p: PathView|
                self@.dom().contains(p) ==> exists|i: int|
                    0 <= i < list@.len() && (#[trigger] list@[i])@ == p,
            forall|i: int, j: int|
                0 <= i < j < list@.len() ==> (#[trigger] list@[i])@ != (#[trigger] list@[j])@,
    {
        proof {
            use_type_invariant(self);
        }
        let mut list: Vec<FilePath> = Vec::new();
        let mut i: usize = 0;
        while i < self.entries.len()
            invariant
                i <= self.entries.len(),
                list@.len() == i,
                forall|k: int| 0 <= k < i ==> (#[trigger] list@[k])@ == self.entries@[k].path@,
            decreases self.entries.len() - i,
        {
            list.push(self.entries[i].path.clone());
            i += 1;
        }
        proof {
            assert forall|k: int| 0 <= k < list@.len() implies self@.dom().contains(
                #[trigger] list@[k]@,
            ) by {
                lemma_entry(self.entries@, k);
            }
            assert forall|p: PathView| self@.dom().contains(p) implies exists|k: int|
                0 <= k < list@.len() && (#[trigger] list@[k])@ == p by {
                let k = index_of(self.entries@, p);
                assert(list@[k]@ == p);
            }
            assert forall|a: int, b: int| 0 <= a < b < list@.len() implies (#[trigger] list@[a])@ != (
            #[trigger] list@[b])@ by {
                assert(self.entries@[a].path@ != self.entries@[b].path@);
            }
        }
        list
    }
}

} // verus!
