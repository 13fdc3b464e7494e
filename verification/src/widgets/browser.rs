use std::cmp::Ordering;
use vstd::prelude::*;
use vstd::std_specs::cmp::PartialOrdSpecImpl;

use crate::text::{join, join_spec, push_repeat, push_str, repeat_char};
use vstd::utf8::encode_utf8;

verus! {

/// The location of a node in a `BrowserNode` hierarchy: the child index taken
/// at each level, starting from the root.
#[derive(PartialEq, Eq, Debug)]
pub struct BrowserNodePath(pub Vec<usize>);

impl Clone for BrowserNodePath {
    fn clone(&self) -> (r: Self)
        ensures
            r@ == self@,
    {
        let mut v: Vec<usize> = Vec::new();
        let mut i: usize = 0;
        while i < self.0.len()
            invariant
                i <= self@.len(),
                v@ == self@.take(i as int),
            decreases self@.len() - i,
        {
            v.push(self.0[i]);
            i += 1;
            assert(v@ =~= self@.take(i as int));
        }
        assert(self@.take(i as int) =~= self@);
        BrowserNodePath(v)
    }
}

/// Lexicographic order on paths: a path is before its extensions, and at the
/// first differing level the smaller index comes first.
pub open spec fn lex_lt(a: Seq<usize>, b: Seq<usize>) -> bool
    decreases a.len(),
{
    if a.len() == 0 {
        b.len() > 0
    } else if b.len() == 0 {
        false
    } else if a[0] < b[0] {
        true
    } else if a[0] > b[0] {
        false
    } else {
        lex_lt(a.drop_first(), b.drop_first())
    }
}

/// Inserts `x` after every element that is not after it.
pub open spec fn insert_sorted(s: Seq<Seq<usize>>, x: Seq<usize>) -> Seq<Seq<usize>>
    decreases s.len(),
{
    if s.len() == 0 || !lex_lt(x, s.last()) {
        s.push(x)
    } else {
        insert_sorted(s.drop_last(), x).push(s.last())
    }
}

/// The paths in lexicographic order (insertion sort, which keeps equal
/// paths in their original order).
pub open spec fn sort_paths_spec(s: Seq<Seq<usize>>) -> Seq<Seq<usize>>
    decreases s.len(),
{
    if s.len() == 0 {
        Seq::empty()
    } else {
        insert_sorted(sort_paths_spec(s.drop_last()), s.last())
    }
}

/// Keeps a path only when the last path kept does not contain it.
pub open spec fn condense_seq(s: Seq<Seq<usize>>) -> Seq<Seq<usize>>
    decreases s.len(),
{
    if s.len() == 0 {
        Seq::empty()
    } else {
        let prev = condense_seq(s.drop_last());
        if prev.len() > 0 && path_contains(prev.last(), s.last()) {
            prev
        } else {
            prev.push(s.last())
        }
    }
}

pub open spec fn paths_view(v: Seq<BrowserNodePath>) -> Seq<Seq<usize>> {
    v.map_values(|p: BrowserNodePath| p@)
}

proof fn lemma_lex_lt_step(a: Seq<usize>, b: Seq<usize>, i: int)
    requires
        0 <= i < a.len(),
        i < b.len(),
        a[i] == b[i],
    ensures
        lex_lt(a.skip(i), b.skip(i)) == lex_lt(a.skip(i + 1), b.skip(i + 1)),
{
    assert(a.skip(i).drop_first() =~= a.skip(i + 1));
    assert(b.skip(i).drop_first() =~= b.skip(i + 1));
}

proof fn lemma_insert_len(s: Seq<Seq<usize>>, x: Seq<usize>)
    ensures
        insert_sorted(s, x).len() == s.len() + 1,
    decreases s.len(),
{
    if s.len() > 0 && lex_lt(x, s.last()) {
        lemma_insert_len(s.drop_last(), x);
    }
}

proof fn lemma_sort_len(s: Seq<Seq<usize>>)
    ensures
        sort_paths_spec(s).len() == s.len(),
    decreases s.len(),
{
    if s.len() > 0 {
        lemma_sort_len(s.drop_last());
        lemma_insert_len(sort_paths_spec(s.drop_last()), s.last());
    }
}

/// Position at which `insert_sorted` puts `x`.
proof fn lemma_insert_sorted_at(s: Seq<Seq<usize>>, x: Seq<usize>, j: int)
    requires
        0 <= j <= s.len(),
        forall|k: int| j <= k < s.len() ==> lex_lt(x, #[trigger] s[k]),
        j == 0 || !lex_lt(x, s[j - 1]),
    ensures
        insert_sorted(s, x) == s.insert(j, x),
    decreases s.len(),
{
    if j == s.len() {
        assert(s.insert(j, x) =~= s.push(x));
    } else {
        lemma_insert_sorted_at(s.drop_last(), x, j);
        assert(s.insert(j, x) =~= s.drop_last().insert(j, x).push(s.last()));
    }
}


/// `a` is a (not necessarily strict) prefix of `b`.
pub open spec fn is_prefix(a: Seq<usize>, b: Seq<usize>) -> bool {
    a.len() <= b.len() && b.subrange(0, a.len() as int) == a
}

/// `outer` contains `inner` in the hierarchy: `inner` is not empty and
/// `outer` is a prefix of it (so every non-empty path contains itself).
pub open spec fn path_contains(outer: Seq<usize>, inner: Seq<usize>) -> bool {
    inner.len() > 0 && is_prefix(outer, inner)
}

impl View for BrowserNodePath {
    type V = Seq<usize>;

    open spec fn view(&self) -> Seq<usize> {
        self.0@
    }
}

impl BrowserNodePath {
    pub fn new(path: Vec<usize>) -> (r: Self)
        ensures
            r@ == path@,
    {
        Self(path)
    }

    pub fn to_vec(self) -> (r: Vec<usize>)
        ensures
            r@ == self@,
    {
        self.0
    }

    pub fn is_empty(&self) -> (r: bool)
        ensures
            r == (self@.len() == 0),
    {
        self.0.len() == 0
    }

    /// `self` comes strictly before `other` in lexicographic order.
    pub fn lex_less(&self, other: &Self) -> (r: bool)
        ensures
            r == lex_lt(self@, other@),
    {
        let mut i: usize = 0;
        proof {
            assert(self@.skip(0) =~= self@);
            assert(other@.skip(0) =~= other@);
        }
        while i < self.0.len()
            invariant
                i <= self@.len(),
                i <= other@.len(),
                lex_lt(self@, other@) == lex_lt(self@.skip(i as int), other@.skip(i as int)),
            decreases self@.len() - i,
        {
            if i >= other.0.len() {
                return false;
            }
            if self.0[i] > other.0[i] {
                return false;
            } else if self.0[i] < other.0[i] {
                return true;
            }
            proof {
                lemma_lex_lt_step(self@, other@, i as int);
            }
            i += 1;
        }
        i < other.0.len()
    }

    fn sort_paths(paths: &Vec<Self>) -> (r: Vec<Self>)
        ensures
            paths_view(r@) == sort_paths_spec(paths_view(paths@)),
    {
        let mut sorted: Vec<Self> = Vec::new();
        let mut i: usize = 0;
        while i < paths.len()
            invariant
                i <= paths@.len(),
                paths_view(sorted@) == sort_paths_spec(paths_view(paths@).take(i as int)),
            decreases paths@.len() - i,
        {
            let x = paths[i].clone();
            let mut j = sorted.len();
            while j > 0 && x.lex_less(&sorted[j - 1])
                invariant
                    j <= sorted@.len(),
                    forall|k: int| j <= k < sorted@.len() ==> lex_lt(x@, #[trigger] sorted@[k]@),
                decreases j,
            {
                j -= 1;
            }
            proof {
                let sv = paths_view(sorted@);
                assert forall|k: int| j <= k < sv.len() implies lex_lt(x@, #[trigger] sv[k]) by {
                    assert(sv[k] == sorted@[k]@);
                }
                if j > 0 {
                    assert(sv[j - 1] == sorted@[j - 1]@);
                }
                lemma_insert_sorted_at(sv, x@, j as int);
                assert(paths_view(paths@).take(i + 1).drop_last() =~= paths_view(paths@).take(
                    i as int,
                ));
            }
            sorted.insert(j, x);
            assert(paths_view(sorted@) =~= sort_paths_spec(paths_view(paths@).take(i + 1)));
            i += 1;
        }
        assert(paths_view(paths@).take(i as int) =~= paths_view(paths@));
        sorted
    }

    /// Sorts the paths and drops every path contained by the path kept just
    /// before it, so that no kept path contains another.
    pub fn condense_paths(paths: Vec<Self>) -> (r: Vec<Self>)
        requires
            paths@.len() > 0,
        ensures
            paths_view(r@) == condense_seq(sort_paths_spec(paths_view(paths@))),
    {
        let ghost sorted_spec = sort_paths_spec(paths_view(paths@));
        let mut paths = Self::sort_paths(&paths);
        proof {
            lemma_sort_len(paths_view(paths@));
        }
        let ghost sorted = paths_view(paths@);
        let ghost mut m: int = 1;
        let mut i: usize = 0;
        proof {
            assert(sorted.take(1).drop_last() =~= Seq::<Seq<usize>>::empty());
            assert(condense_seq(Seq::<Seq<usize>>::empty()) == Seq::<Seq<usize>>::empty());
            assert(condense_seq(sorted.take(1)) =~= seq![sorted[0]]);
            assert(paths_view(paths@).take(1) =~= condense_seq(sorted.take(1)));
        }
        while i < paths.len() - 1
            invariant
                1 <= m <= sorted.len(),
                paths@.len() >= 1,
                i < paths@.len(),
                paths_view(paths@).take(i + 1) == condense_seq(sorted.take(m)),
                paths_view(paths@).skip(i + 1) == sorted.skip(m),
            decreases paths@.len() - i,
        {
            proof {
                assert(paths_view(paths@).skip(i + 1).len() == paths@.len() - (i + 1));
                assert(sorted.skip(m).len() == sorted.len() - m);
                assert(paths_view(paths@).skip(i + 1)[0] == sorted.skip(m)[0]);
                assert(paths_view(paths@)[i + 1] == sorted[m]);
                assert(sorted.take(m + 1).drop_last() =~= sorted.take(m));
                assert(paths_view(paths@).take(i + 1).last() == paths@[i as int]@);
            }
            let ghost old_v = paths_view(paths@);
            let ghost old_i = i as int;
            if paths[i].contains(&paths[i + 1]) {
                paths.remove(i + 1);
                proof {
                    assert forall|k: int| 0 <= k < sorted.len() - (m + 1) implies #[trigger] paths_view(
                        paths@,
                    ).skip(i + 1)[k] == sorted.skip(m + 1)[k] by {
                        assert(old_v.skip(old_i + 1)[k + 1] == sorted.skip(m)[k + 1]);
                    }
                    assert(paths_view(paths@).take(i + 1) =~= condense_seq(sorted.take(m + 1)));
                    assert(paths_view(paths@).skip(i + 1) =~= sorted.skip(m + 1));
                    m = m + 1;
                }
            } else {
                i += 1;
                proof {
                    assert forall|k: int| 0 <= k < sorted.len() - (m + 1) implies #[trigger] paths_view(
                        paths@,
                    ).skip(i + 1)[k] == sorted.skip(m + 1)[k] by {
                        assert(old_v.skip(old_i + 1)[k + 1] == sorted.skip(m)[k + 1]);
                    }
                    assert(paths_view(paths@).take(i + 1) =~= condense_seq(sorted.take(m + 1)));
                    assert(paths_view(paths@).skip(i + 1) =~= sorted.skip(m + 1));
                    m = m + 1;
                }
            }
        }
        proof {
            assert(sorted.skip(m).len() == 0);
            assert(sorted.take(m) =~= sorted);
            assert(paths_view(paths@) =~= paths_view(paths@).take(i + 1));
        }
        paths
    }

    /// Returns true if self contains other in the hierarchy (comparing the same
    /// paths results in true as well)
    pub fn contains(&self, other: &Self) -> (r: bool)
        ensures
            r == path_contains(self@, other@),
    {
        if other.is_empty() {
            return false;
        }
        let mut i: usize = 0;
        while i < self.0.len()
            invariant
                0 <= i <= self@.len(),
                i <= other@.len(),
                other@.len() > 0,
                forall|j: int| 0 <= j < i ==> j < other@.len() && #[trigger] other@[j] == self@[j],
            decreases self@.len() - i,
        {
            if i >= other.0.len() {
                return false;
            }
            if other.0[i] != self.0[i] {
                return false;
            }
            i += 1;
        }
        assert(other@.subrange(0, self@.len() as int) =~= self@);
        true
    }
}


/// A node of a hierarchy shown by a browser: an optional entry, whether the
/// node is expanded (its children are shown), and its children.
pub struct BrowserNode<E> {
    entry: Option<E>,
    expanded: bool,
    children: Vec<BrowserNode<E>>,
}

/// Number of rendered lines of a sequence of sibling nodes.
pub closed spec fn seq_render_len<E>(s: Seq<BrowserNode<E>>) -> nat
    decreases s,
{
    if s.len() == 0 {
        0
    } else {
        seq_render_len(s.drop_last()) + s.last().render_len()
    }
}

/// Path of the line at `index`, counted from the `k`-th child of `children`.
///
/// The first line of a child is the child itself; when `index` falls inside a
/// child's rendered lines, the path continues into the child's children.
pub closed spec fn path_from<E>(children: Seq<BrowserNode<E>>, k: int, index: int) -> Seq<usize>
    decreases children, children.len() - k,
{
    if k < 0 || k >= children.len() {
        Seq::empty()
    } else if index == 0 {
        seq![k as usize]
    } else if index < children[k].render_len() {
        seq![k as usize] + path_from(children[k].children@, 0, index - 1)
    } else {
        path_from(children, k + 1, index - children[k].render_len())
    }
}

/// Number of nodes in a sequence of sibling subtrees.
pub closed spec fn seq_node_count<E>(s: Seq<BrowserNode<E>>) -> nat
    decreases s,
{
    if s.len() == 0 {
        0
    } else {
        seq_node_count(s.drop_last()) + s.last().node_count()
    }
}

impl<E> BrowserNode<E> {
    /// Number of nodes in this subtree. A tree held in memory has at most
    /// `usize::MAX` nodes; the functions that walk a tree rely on that bound.
    pub closed spec fn node_count(self) -> nat
        decreases self,
    {
        1 + seq_node_count(self.children@)
    }

    pub closed spec fn entry_spec(self) -> Option<E> {
        self.entry
    }

    pub closed spec fn expanded_spec(self) -> bool {
        self.expanded
    }

    pub closed spec fn children_spec(self) -> Seq<BrowserNode<E>> {
        self.children@
    }

    /// Number of lines this node renders: itself if it has an entry, plus the
    /// lines of its children when it is expanded.
    pub closed spec fn render_len(self) -> nat
        decreases self,
    {
        (if self.expanded {
            seq_render_len(self.children@)
        } else {
            0
        }) + (if self.entry is Some {
            1nat
        } else {
            0nat
        })
    }

    /// Path of the rendered line `index` below this node.
    pub closed spec fn path_at(self, index: int) -> Seq<usize> {
        path_from(self.children@, 0, index)
    }

    /// The paths of the lines `start..end`, in order; with `condense`, a path
    /// is left out when the last path kept contains it.
    pub closed spec fn paths_in(self, start: int, end: int, condense: bool) -> Seq<Seq<usize>>
        decreases end - start,
    {
        if end <= start {
            Seq::empty()
        } else {
            let prev = self.paths_in(start, end - 1, condense);
            let p = self.path_at(end - 1);
            if condense && prev.len() > 0 && path_contains(prev.last(), p) {
                prev
            } else {
                prev.push(p)
            }
        }
    }

    /// A path can be followed without indexing past the children of a node
    /// that it passes through (its last index may be out of range).
    pub closed spec fn path_walkable(self, path: Seq<usize>) -> bool
        decreases path.len(),
    {
        path.len() <= 1 || (path[0] < self.children@.len() && self.children@[path[0] as int].path_walkable(
            path.drop_first(),
        ))
    }

    /// The node that `path` leads to, if any.
    pub closed spec fn node_at(self, path: Seq<usize>) -> Option<BrowserNode<E>>
        decreases path.len(),
    {
        if path.len() == 0 || path[0] >= self.children@.len() {
            None
        } else if path.len() == 1 {
            Some(self.children@[path[0] as int])
        } else {
            self.children@[path[0] as int].node_at(path.drop_first())
        }
    }

    /// `new` is `self` with the node at `path` replaced by `sub`, all else
    /// left as it was.
    pub closed spec fn replaced_at(self, new: BrowserNode<E>, path: Seq<usize>, sub: BrowserNode<E>) -> bool
        decreases path.len(),
    {
        &&& path.len() > 0
        &&& path[0] < self.children@.len()
        &&& new.entry == self.entry
        &&& new.expanded == self.expanded
        &&& new.children@.len() == self.children@.len()
        &&& forall|j: int|
            0 <= j < self.children@.len() && j != path[0] ==> #[trigger] new.children@[j]
                == self.children@[j]
        &&& if path.len() == 1 {
            new.children@[path[0] as int] == sub
        } else {
            self.children@[path[0] as int].replaced_at(
                new.children@[path[0] as int],
                path.drop_first(),
                sub,
            )
        }
    }

    /// Every index of `path` is in range for the node it is applied to.
    pub closed spec fn path_in_range(self, path: Seq<usize>) -> bool
        decreases path.len(),
    {
        path.len() == 0 || (path[0] < self.children@.len() && self.children@[path[0] as int].path_in_range(
            path.drop_first(),
        ))
    }

    /// The entries met when following `path` from this node, this node's
    /// entry first.
    pub closed spec fn entries_along(self, path: Seq<usize>) -> Seq<E>
        decreases path.len(),
    {
        (if self.entry is Some {
            seq![self.entry->0]
        } else {
            Seq::empty()
        }) + (if path.len() == 0 || path[0] >= self.children@.len() {
            Seq::empty()
        } else {
            self.children@[path[0] as int].entries_along(path.drop_first())
        })
    }

    pub fn new(entry: Option<E>) -> (r: Self)
        ensures
            r.entry_spec() == entry,
            !r.expanded_spec(),
            r.children_spec() == Seq::<BrowserNode<E>>::empty(),
    {
        Self { entry, expanded: false, children: Vec::new() }
    }

    pub fn from(entry: Option<E>, children: Vec<BrowserNode<E>>) -> (r: Self)
        ensures
            r.entry_spec() == entry,
            !r.expanded_spec(),
            r.children_spec() == children@,
    {
        Self { entry, expanded: false, children }
    }

    pub fn from_expanded(entry: Option<E>, expanded: bool, children: Vec<BrowserNode<E>>) -> (r:
        Self)
        ensures
            r.entry_spec() == entry,
            r.expanded_spec() == expanded,
            r.children_spec() == children@,
    {
        Self { entry, expanded, children }
    }

    pub fn is_parent(&self) -> (r: bool)
        ensures
            r == (self.children_spec().len() > 0),
    {
        self.children.len() > 0
    }

    pub fn is_expanded(&self) -> (r: bool)
        ensures
            r == self.expanded_spec(),
    {
        self.expanded
    }

    pub fn set_expanded(&mut self, expanded: bool)
        ensures
            *final(self) == old(self).with_expanded(expanded),
            final(self).expanded_spec() == expanded,
            final(self).entry_spec() == old(self).entry_spec(),
            final(self).children_spec() == old(self).children_spec(),
    {
        self.expanded = expanded;
    }

    pub fn get_children(&self) -> (r: &Vec<BrowserNode<E>>)
        ensures
            r@ == self.children_spec(),
    {
        &self.children
    }

    pub fn get_children_mut(&mut self) -> (r: &mut Vec<BrowserNode<E>>)
        ensures
            r@ == old(self).children_spec(),
            final(self).children_spec() == final(r)@,
            final(self).entry_spec() == old(self).entry_spec(),
            final(self).expanded_spec() == old(self).expanded_spec(),
    {
        &mut self.children
    }

    pub fn get_entry_mut(&mut self) -> (r: &mut Option<E>)
        ensures
            *r == old(self).entry_spec(),
            final(self).entry_spec() == *final(r),
            final(self).children_spec() == old(self).children_spec(),
            final(self).expanded_spec() == old(self).expanded_spec(),
    {
        &mut self.entry
    }

    pub fn get_entry(&self) -> (r: &Option<E>)
        ensures
            *r == self.entry_spec(),
    {
        &self.entry
    }

    /// Path of the rendered line `index` below this node. An index past the
    /// end gives the empty path.
    pub fn get_path(&self, index: usize) -> (r: BrowserNodePath)
        requires
            self.node_count() <= usize::MAX,
        ensures
            r@ == self.path_at(index as int),
        decreases self,
    {
        let mut rest = index;
        let mut i: usize = 0;
        while i < self.children.len()
            invariant
                i <= self.children@.len(),
                self.node_count() <= usize::MAX,
                path_from(self.children@, 0, index as int) == path_from(
                    self.children@,
                    i as int,
                    rest as int,
                ),
            decreases self.children@.len() - i,
        {
            proof {
                lemma_seq_node_count_elem(self.children@, i as int);
                lemma_render_len_le_node_count(self.children@[i as int]);
                assert(decreases_to!(self => self.children));
            }
            if rest == 0 {
                let v = vec![i];
                assert(v@ =~= path_from(self.children@, i as int, rest as int));
                assert(v@ == self.path_at(index as int));
                return BrowserNodePath(v);
            }
            let len = self.children[i].get_render_len();
            if rest < len {
                let mut v = vec![i];
                let mut sub = self.children[i].get_path(rest - 1).0;
                v.append(&mut sub);
                assert(v@ =~= path_from(self.children@, i as int, rest as int));
                assert(v@ == self.path_at(index as int));
                return BrowserNodePath(v);
            } else {
                rest -= len;
            }
            i += 1;
        }
        BrowserNodePath(Vec::new())
    }

    /// The paths of the lines in `range`, in order. With `condense`, a path
    /// contained by the path kept just before it is left out.
    pub fn get_paths(&self, range: std::ops::Range<usize>, condense: bool) -> (r: Vec<
        BrowserNodePath,
    >)
        requires
            self.node_count() <= usize::MAX,
        ensures
            r@.map_values(|p: BrowserNodePath| p@) == self.paths_in(
                range.start as int,
                range.end as int,
                condense,
            ),
    {
        let mut paths: Vec<BrowserNodePath> = Vec::new();
        let mut index = range.start;
        while index < range.end
            invariant
                range.start <= index,
                index <= range.end || index == range.start,
                self.node_count() <= usize::MAX,
                paths@.map_values(|p: BrowserNodePath| p@) == self.paths_in(
                    range.start as int,
                    index as int,
                    condense,
                ),
            decreases range.end - index,
        {
            let path = self.get_path(index);
            let ghost prev = paths@.map_values(|p: BrowserNodePath| p@);
            let n = paths.len();
            if n > 0 {
                if !condense || !paths[n - 1].contains(&path) {
                    paths.push(path);
                }
            } else {
                paths.push(path);
            }
            assert(paths@.map_values(|p: BrowserNodePath| p@) =~= self.paths_in(
                range.start as int,
                index + 1,
                condense,
            ));
            index += 1;
        }
        paths
    }

    fn node_from(&self, path: &Vec<usize>, start: usize) -> (r: Option<&BrowserNode<E>>)
        requires
            start <= path@.len(),
            self.path_walkable(path@.skip(start as int)),
        ensures
            match r {
                Some(n) => self.node_at(path@.skip(start as int)) == Some(*n),
                None => self.node_at(path@.skip(start as int)) is None,
            },
        decreases path@.len() - start,
    {
        let rest = path.len() - start;
        if rest == 0 {
            None
        } else if rest == 1 {
            if path[start] < self.children.len() {
                Some(&self.children[path[start]])
            } else {
                None
            }
        } else {
            assert(path@.skip(start as int).drop_first() =~= path@.skip(start + 1));
            self.children[path[start]].node_from(path, start + 1)
        }
    }

    fn node_from_mut(&mut self, path: &Vec<usize>, start: usize) -> (r: &mut BrowserNode<E>)
        requires
            start <= path@.len(),
            old(self).node_at(path@.skip(start as int)) is Some,
        ensures
            old(self).node_at(path@.skip(start as int)) == Some(*r),
            old(self).replaced_at(*final(self), path@.skip(start as int), *final(r)),
        decreases path@.len() - start,
    {
        let rest = path.len() - start;
        assert(path@.skip(start as int)[0] == path@[start as int]);
        if rest == 1 {
            &mut self.children[path[start]]
        } else {
            assert(path@.skip(start as int).drop_first() =~= path@.skip(start + 1));
            self.children[path[start]].node_from_mut(path, start + 1)
        }
    }

    /// The node that `path` leads to, to be changed in place; `None` (and
    /// nothing changed) for the empty path or a last index out of range.
    /// Where the node is left as it was, so is the tree.
    pub fn get_node_mut(&mut self, path: &BrowserNodePath) -> (r: Option<&mut BrowserNode<E>>)
        requires
            old(self).path_walkable(path@),
        ensures
            match r {
                Some(n) => {
                    &&& old(self).node_at(path@) == Some(*n)
                    &&& old(self).replaced_at(*final(self), path@, *final(n))
                    &&& *final(n) == *n ==> same_tree(*final(self), *old(self))
                },
                None => {
                    &&& old(self).node_at(path@) is None
                    &&& *final(self) == *old(self)
                },
            },
    {
        assert(path.0@.skip(0) =~= path@);
        if self.node_from(&path.0, 0).is_none() {
            return None;
        }
        let r = self.node_from_mut(&path.0, 0);
        proof {
            lemma_replaced_by_itself_any(*old(self), path@);
        }
        Some(r)
    }

    /// The node that `path` leads to; `None` for the empty path or a last
    /// index out of range.
    pub fn get_node(&self, path: &BrowserNodePath) -> (r: Option<&BrowserNode<E>>)
        requires
            self.path_walkable(path@),
        ensures
            match r {
                Some(n) => self.node_at(path@) == Some(*n),
                None => self.node_at(path@) is None,
            },
    {
        assert(path.0@.skip(0) =~= path@);
        self.node_from(&path.0, 0)
    }

    pub fn get_render_len(&self) -> (r: usize)
        requires
            self.render_len() <= usize::MAX,
        ensures
            r == self.render_len(),
        decreases self,
    {
        let mut sum: usize = 0;
        if self.expanded {
            let mut i: usize = 0;
            while i < self.children.len()
                invariant
                    self.expanded,
                    i <= self.children@.len(),
                    self.render_len() <= usize::MAX,
                    sum == seq_render_len(self.children@.take(i as int)),
                decreases self.children@.len() - i,
            {
                proof {
                    lemma_seq_render_len_take(self.children@, i as int);
                    lemma_seq_render_len_prefix(self.children@, i as int + 1);
                    assert(decreases_to!(self => self.children));
                }
                let c = self.children[i].get_render_len();
                sum = sum + c;
                i += 1;
            }
            assert(self.children@.take(i as int) =~= self.children@);
        }
        if self.entry.is_some() {
            sum + 1
        } else {
            sum
        }
    }
}

/// An entry that a browser can show: it has a label.
pub trait BrowserEntry {
    /// The text of the label.
    spec fn label_spec(&self) -> Seq<char>;

    /// The label of the entry.
    fn label(&self) -> (r: String)
        ensures
            r@ == self.label_spec(),
    ;
}

impl<'a> BrowserEntry for &'a str {
    open spec fn label_spec(&self) -> Seq<char> {
        (*self)@
    }

    fn label(&self) -> (r: String) {
        let mut s = String::new();
        push_str(&mut s, *self);
        s
    }
}

impl BrowserEntry for String {
    open spec fn label_spec(&self) -> Seq<char> {
        self@
    }

    fn label(&self) -> (r: String) {
        self.clone()
    }
}

/// The labels of a list of entries.
pub open spec fn labels<E: BrowserEntry>(es: Seq<E>) -> Seq<Seq<char>> {
    es.map_values(|e: E| e.label_spec())
}

impl<E: BrowserEntry> BrowserNode<E> {
    fn full_name_from(&self, path: &Vec<usize>, start: usize) -> (r: Vec<String>)
        requires
            start <= path@.len(),
            self.path_in_range(path@.skip(start as int)),
        ensures
            r@.map_values(|s: String| s@) == labels(self.entries_along(path@.skip(start as int))),
        decreases path@.len() - start,
    {
        let mut name: Vec<String> = Vec::new();
        match &self.entry {
            Some(entry) => name.push(entry.label()),
            None => {},
        }
        if start < path.len() {
            assert(path@.skip(start as int)[0] == path@[start as int]);
            assert(path@.skip(start as int).drop_first() =~= path@.skip(start + 1));
            let mut suffix = self.children[path[start]].full_name_from(path, start + 1);
            let ghost a = name@;
            let ghost b = suffix@;
            name.append(&mut suffix);
            assert((a + b).map_values(|s: String| s@) =~= a.map_values(|s: String| s@) + b.map_values(
                |s: String| s@,
            ));
        }
        assert(name@.map_values(|s: String| s@) =~= labels(self.entries_along(path@.skip(start as int))));
        name
    }

    /// The labels of the entries met when following `path` from this node,
    /// this node's own entry first.
    pub fn get_full_name(&self, path: &BrowserNodePath) -> (r: Vec<String>)
        requires
            self.path_in_range(path@),
        ensures
            r@.map_values(|s: String| s@) == labels(self.entries_along(path@)),
    {
        assert(path.0@.skip(0) =~= path@);
        self.full_name_from(&path.0, 0)
    }
}

/// The path of a rendered line only takes indices that exist.
proof fn lemma_path_from_in_range<E>(n: BrowserNode<E>, k: int, index: int)
    ensures
        n.path_in_range(path_from(n.children@, k, index)),
    decreases n, n.children@.len() - k,
{
    let children = n.children@;
    assert(children.len() <= usize::MAX) by {
        broadcast use vstd::std_specs::vec::axiom_spec_len;
        assert(n.children@.len() == n.children.len());
    }
    if k < 0 || k >= children.len() {
    } else if index == 0 {
        assert(seq![k as usize].drop_first() =~= Seq::<usize>::empty());
        assert(children[k].path_in_range(Seq::empty()));
    } else if index < children[k].render_len() {
        assert(decreases_to!(n => n.children));
        assert(decreases_to!(n.children => children));
        assert(decreases_to!(children => children[k]));
        lemma_path_from_in_range(children[k], 0, index - 1);
        let rest = path_from(children[k].children@, 0, index - 1);
        assert((seq![k as usize] + rest).drop_first() =~= rest);
    } else {
        lemma_path_from_in_range(n, k + 1, index - children[k].render_len());
    }
}

/// A path whose indices all exist can be walked.
pub proof fn lemma_in_range_walkable<E>(n: BrowserNode<E>, path: Seq<usize>)
    requires
        n.path_in_range(path),
    ensures
        n.path_walkable(path),
    decreases path.len(),
{
    if path.len() > 1 {
        lemma_in_range_walkable(n.children@[path[0] as int], path.drop_first());
    }
}

/// Every path of a range of rendered lines takes only indices that exist.
pub proof fn lemma_paths_in_in_range<E>(n: BrowserNode<E>, start: int, end: int, condense: bool)
    ensures
        forall|i: int|
            0 <= i < n.paths_in(start, end, condense).len() ==> {
                &&& n.path_in_range(#[trigger] n.paths_in(start, end, condense)[i])
                &&& n.path_walkable(n.paths_in(start, end, condense)[i])
            },
    decreases end - start,
{
    if end > start {
        lemma_paths_in_in_range(n, start, end - 1, condense);
        lemma_path_from_in_range(n, 0, end - 1);
        lemma_in_range_walkable(n, n.path_at(end - 1));
        let prev = n.paths_in(start, end - 1, condense);
        let all = n.paths_in(start, end, condense);
        assert forall|i: int| 0 <= i < all.len() implies n.path_in_range(#[trigger] all[i]) && n.path_walkable(all[i]) by {
            if i < prev.len() {
                assert(all[i] == prev[i]);
            } else {
                assert(all[i] == n.path_at(end - 1));
            }
        }
    }
}

/// For termination: a node is larger than the list of its children.
pub proof fn lemma_children_decrease<E>(n: BrowserNode<E>)
    ensures
        decreases_to!(n => n.children_spec()),
{
    assert(decreases_to!(n => n.children));
    assert(decreases_to!(n.children => n.children@));
}

/// Each sibling subtree is counted in the count of the sequence.
proof fn lemma_seq_node_count_elem<E>(s: Seq<BrowserNode<E>>, i: int)
    requires
        0 <= i < s.len(),
    ensures
        s[i].node_count() <= seq_node_count(s),
    decreases s.len(),
{
    if i < s.len() - 1 {
        lemma_seq_node_count_elem(s.drop_last(), i);
    }
}

impl<E> BrowserNode<E> {
    /// This node with its expansion set to `expanded`, all else kept.
    pub closed spec fn with_expanded(self, expanded: bool) -> Self {
        BrowserNode { entry: self.entry, expanded, children: self.children }
    }
}

/// Setting the expansion changes nothing else, the count included.
pub proof fn lemma_with_expanded<E>(n: BrowserNode<E>, expanded: bool)
    ensures
        n.with_expanded(expanded).expanded_spec() == expanded,
        n.with_expanded(expanded).entry_spec() == n.entry_spec(),
        n.with_expanded(expanded).children_spec() == n.children_spec(),
        n.with_expanded(expanded).node_count() == n.node_count(),
{
}

/// A node counts itself and the nodes of its children.
pub proof fn lemma_node_count_unfold<E>(n: BrowserNode<E>)
    ensures
        n.node_count() == 1 + seq_node_count(n.children_spec()),
{
}

/// The nodes of a list of siblings: those of all but the last, and the
/// last's.
pub proof fn lemma_seq_node_count_unfold<E>(s: Seq<BrowserNode<E>>)
    ensures
        s.len() == 0 ==> seq_node_count(s) == 0,
        s.len() > 0 ==> seq_node_count(s) == seq_node_count(s.drop_last()) + s.last().node_count(),
{
}

/// Counting two lists of siblings one after the other adds their counts.
pub proof fn lemma_seq_node_count_concat<E>(a: Seq<BrowserNode<E>>, b: Seq<BrowserNode<E>>)
    ensures
        seq_node_count(a + b) == seq_node_count(a) + seq_node_count(b),
    decreases b.len(),
{
    if b.len() > 0 {
        lemma_seq_node_count_concat(a, b.drop_last());
        assert((a + b).drop_last() =~= a + b.drop_last());
    } else {
        assert(a + b =~= a);
    }
}

proof fn lemma_seq_node_count_update<E>(s: Seq<BrowserNode<E>>, i: int, x: BrowserNode<E>)
    requires
        0 <= i < s.len(),
    ensures
        seq_node_count(s.update(i, x)) == seq_node_count(s) - s[i].node_count() + x.node_count(),
    decreases s.len(),
{
    if i < s.len() - 1 {
        lemma_seq_node_count_update(s.drop_last(), i, x);
        assert(s.update(i, x).drop_last() =~= s.drop_last().update(i, x));
    } else {
        assert(s.update(i, x).drop_last() =~= s.drop_last());
    }
}

/// Replacing a subtree by one with as many nodes keeps the count of the
/// tree.
pub proof fn lemma_replaced_node_count<E>(
    before: BrowserNode<E>,
    after: BrowserNode<E>,
    path: Seq<usize>,
    sub: BrowserNode<E>,
)
    requires
        before.replaced_at(after, path, sub),
        before.node_at(path) matches Some(o) && o.node_count() == sub.node_count(),
    ensures
        after.node_count() == before.node_count(),
    decreases path.len(),
{
    let i = path[0] as int;
    let c = before.children@;
    let d = after.children@;
    if path.len() == 1 {
        assert(d =~= c.update(i, sub));
    } else {
        lemma_replaced_node_count(c[i], d[i], path.drop_first(), sub);
        assert(d =~= c.update(i, d[i]));
    }
    lemma_seq_node_count_update(c, i, d[i]);
}

/// The path of any line only takes indices that exist.
pub proof fn lemma_path_at_walkable<E>(n: BrowserNode<E>, index: int)
    ensures
        n.path_in_range(n.path_at(index)),
        n.path_walkable(n.path_at(index)),
{
    lemma_path_from_in_range(n, 0, index);
    lemma_in_range_walkable(n, n.path_at(index));
}

/// A prefix of siblings has no more nodes than all of them.
proof fn lemma_seq_node_count_prefix<E>(s: Seq<BrowserNode<E>>, i: int)
    requires
        0 <= i <= s.len(),
    ensures
        seq_node_count(s.take(i)) <= seq_node_count(s),
    decreases s.len() - i,
{
    if i < s.len() {
        assert(s.take(i + 1).drop_last() =~= s.take(i));
        lemma_seq_node_count_prefix(s, i + 1);
    } else {
        assert(s.take(i) =~= s);
    }
}

/// The number of nodes in the subtrees `nodes`, or `limit + 1` where there
/// are more than `limit`.
pub fn count_seq_upto<E>(nodes: &Vec<BrowserNode<E>>, limit: usize) -> (r: usize)
    requires
        limit < usize::MAX,
    ensures
        r == (if seq_node_count(nodes@) <= limit {
            seq_node_count(nodes@)
        } else {
            limit as nat + 1
        }),
    decreases nodes@, 0nat,
{
    let mut total: usize = 0;
    let mut i: usize = 0;
    while i < nodes.len()
        invariant
            i <= nodes@.len(),
            limit < usize::MAX,
            total == seq_node_count(nodes@.take(i as int)),
            total <= limit,
        decreases nodes@.len() - i,
    {
        proof {
            assert(nodes@.take(i + 1).drop_last() =~= nodes@.take(i as int));
            lemma_seq_node_count_prefix(nodes@, i + 1);
            lemma_seq_node_count_elem(nodes@, i as int);
        }
        let c = nodes[i].count_nodes_upto(limit);
        if c > limit - total {
            return limit + 1;
        }
        total = total + c;
        i += 1;
    }
    assert(nodes@.take(i as int) =~= nodes@);
    total
}

impl<E> BrowserNode<E> {
    /// The number of nodes in this tree, or `limit + 1` where there are more
    /// than `limit`.
    pub fn count_nodes_upto(&self, limit: usize) -> (r: usize)
        requires
            limit < usize::MAX,
        ensures
            r == (if self.node_count() <= limit {
                self.node_count()
            } else {
                limit as nat + 1
            }),
        decreases self, 1nat,
    {
        proof {
            lemma_children_decrease(*self);
        }
        let c = count_seq_upto(&self.children, limit);
        if c >= limit {
            limit + 1
        } else {
            c + 1
        }
    }
}

/// A node never renders more lines than it has nodes.
pub proof fn lemma_render_len_le_node_count<E>(n: BrowserNode<E>)
    ensures
        n.render_len() <= n.node_count(),
    decreases n,
{
    assert(decreases_to!(n => n.children));
    lemma_seq_render_len_le_node_count(n.children@);
}

proof fn lemma_seq_render_len_le_node_count<E>(s: Seq<BrowserNode<E>>)
    ensures
        seq_render_len(s) <= seq_node_count(s),
    decreases s,
{
    if s.len() > 0 {
        lemma_seq_render_len_le_node_count(s.drop_last());
        lemma_render_len_le_node_count(s.last());
    }
}

/// Adding the next sibling to a prefix adds its rendered lines.
proof fn lemma_seq_render_len_take<E>(s: Seq<BrowserNode<E>>, i: int)
    requires
        0 <= i < s.len(),
    ensures
        seq_render_len(s.take(i + 1)) == seq_render_len(s.take(i)) + s[i].render_len(),
{
    assert(s.take(i + 1).drop_last() =~= s.take(i));
}

/// A prefix of siblings renders no more lines than all of them.
proof fn lemma_seq_render_len_prefix<E>(s: Seq<BrowserNode<E>>, i: int)
    requires
        0 <= i <= s.len(),
    ensures
        seq_render_len(s.take(i)) <= seq_render_len(s),
    decreases s.len() - i,
{
    if i < s.len() {
        lemma_seq_render_len_take(s, i);
        lemma_seq_render_len_prefix(s, i + 1);
    } else {
        assert(s.take(i) =~= s);
    }
}


impl<E> BrowserNode<E> {
    /// Every node below this one (not this one itself) has an entry.
    pub open spec fn entries_below(self) -> bool {
        forall|p: Seq<usize>|
            #[trigger] self.node_at(p) is Some ==> self.node_at(p)->0.entry_spec() is Some
    }

    /// Number of rendered lines of this node's children.
    pub open spec fn child_rows(self) -> nat {
        seq_render_len(self.children_spec())
    }

    /// `path` leads to a node below this one that is shown: every node that
    /// it passes through on the way is expanded.
    pub open spec fn is_shown(self, path: Seq<usize>) -> bool {
        &&& self.node_at(path) is Some
        &&& forall|m: int|
            1 <= m < path.len() ==> (#[trigger] self.node_at(path.take(m)) matches Some(a)
                && a.expanded_spec())
    }
}

/// Rendered lines of the siblings `k..` of `s`.
spec fn suffix_rows<E>(s: Seq<BrowserNode<E>>, k: int) -> nat {
    seq_render_len(s.subrange(k, s.len() as int))
}

/// Rendering two lists of siblings one after the other adds their lines.
proof fn lemma_seq_render_len_concat<E>(a: Seq<BrowserNode<E>>, b: Seq<BrowserNode<E>>)
    ensures
        seq_render_len(a + b) == seq_render_len(a) + seq_render_len(b),
    decreases b.len(),
{
    if b.len() > 0 {
        lemma_seq_render_len_concat(a, b.drop_last());
        assert((a + b).drop_last() =~= a + b.drop_last());
        assert((a + b).last() == b.last());
    } else {
        assert(a + b =~= a);
    }
}

proof fn lemma_suffix_rows_ends<E>(s: Seq<BrowserNode<E>>)
    ensures
        suffix_rows(s, 0) == seq_render_len(s),
        suffix_rows(s, s.len() as int) == 0,
{
    assert(s.subrange(0, s.len() as int) =~= s);
    assert(s.subrange(s.len() as int, s.len() as int) =~= Seq::<BrowserNode<E>>::empty());
}

proof fn lemma_suffix_rows_step<E>(s: Seq<BrowserNode<E>>, k: int)
    requires
        0 <= k < s.len(),
    ensures
        suffix_rows(s, k) == s[k].render_len() + suffix_rows(s, k + 1),
{
    let t = s.subrange(k + 1, s.len() as int);
    assert(s.subrange(k, s.len() as int) =~= seq![s[k]] + t);
    lemma_seq_render_len_concat(seq![s[k]], t);
    let one = seq![s[k]];
    assert(one.drop_last() =~= Seq::<BrowserNode<E>>::empty());
    assert(seq_render_len(Seq::<BrowserNode<E>>::empty()) == 0);
    assert(seq_render_len(one) == s[k].render_len());
}

/// A child of a node whose descendants all have entries has an entry, renders
/// at least one line, and its own descendants have entries.
proof fn lemma_child_entries<E>(n: BrowserNode<E>, k: int)
    requires
        n.entries_below(),
        0 <= k < n.children@.len(),
    ensures
        n.children@[k].entry is Some,
        n.children@[k].entries_below(),
        n.children@[k].render_len() >= 1,
{
    assert(n.children@.len() <= usize::MAX) by {
        broadcast use vstd::std_specs::vec::axiom_spec_len;
        assert(n.children@.len() == n.children.len());
    }
    let ck = n.children@[k];
    assert(n.node_at(seq![k as usize]) == Some(ck));
    assert forall|q: Seq<usize>| #[trigger] ck.node_at(q) is Some implies ck.node_at(
        q,
    )->0.entry_spec() is Some by {
        let p = seq![k as usize] + q;
        assert(p.drop_first() =~= q);
        assert(n.node_at(p) == ck.node_at(q));
    }
}

/// Past the lines of the siblings `k..`, the path is empty.
proof fn lemma_path_from_past<E>(n: BrowserNode<E>, k: int, index: int)
    requires
        n.entries_below(),
        0 <= k <= n.children@.len(),
        index >= suffix_rows(n.children@, k),
    ensures
        path_from(n.children@, k, index) == Seq::<usize>::empty(),
    decreases n.children@.len() - k,
{
    if k < n.children@.len() {
        lemma_suffix_rows_step(n.children@, k);
        lemma_child_entries(n, k);
        lemma_path_from_past(n, k + 1, index - n.children@[k].render_len());
    }
}

/// Within the lines of the siblings `k..`, the path leads to a shown node
/// below one of those siblings.
proof fn lemma_path_from_found<E>(n: BrowserNode<E>, k: int, index: int)
    requires
        n.entries_below(),
        0 <= k <= n.children@.len(),
        0 <= index < suffix_rows(n.children@, k),
    ensures
        path_from(n.children@, k, index).len() > 0,
        k <= path_from(n.children@, k, index)[0] < n.children@.len(),
        n.is_shown(path_from(n.children@, k, index)),
    decreases n, n.children@.len() - k,
{
    let c = n.children@;
    assert(c.len() <= usize::MAX) by {
        broadcast use vstd::std_specs::vec::axiom_spec_len;
        assert(n.children@.len() == n.children.len());
    }
    lemma_suffix_rows_ends(c);
    lemma_suffix_rows_step(c, k);
    lemma_child_entries(n, k);
    let ck = c[k];
    let r = ck.render_len();
    let p = path_from(c, k, index);
    if index == 0 {
        assert(p =~= seq![k as usize]);
        assert(n.node_at(p) == Some(ck));
    } else if index < r {
        assert(ck.expanded);
        lemma_suffix_rows_ends(ck.children@);
        assert(decreases_to!(n => n.children));
        assert(decreases_to!(n.children => c));
        assert(decreases_to!(c => ck));
        lemma_path_from_found(ck, 0, index - 1);
        let sub = path_from(ck.children@, 0, index - 1);
        assert(p == seq![k as usize] + sub);
        assert(p.drop_first() =~= sub);
        assert(n.node_at(p) == ck.node_at(sub));
        assert forall|m: int| 1 <= m < p.len() implies (#[trigger] n.node_at(p.take(m)) matches Some(
            a,
        ) && a.expanded_spec()) by {
            if m == 1 {
                assert(p.take(1) =~= seq![k as usize]);
            } else {
                assert(p.take(m).drop_first() =~= sub.take(m - 1));
                assert(n.node_at(p.take(m)) == ck.node_at(sub.take(m - 1)));
            }
        }
    } else {
        lemma_path_from_found(n, k + 1, index - r);
    }
}

/// Within the lines of the siblings `k..`, a later line has a later path.
proof fn lemma_path_from_ordered<E>(n: BrowserNode<E>, k: int, i: int, j: int)
    requires
        n.entries_below(),
        0 <= k <= n.children@.len(),
        0 <= i < j < suffix_rows(n.children@, k),
    ensures
        lex_lt(path_from(n.children@, k, i), path_from(n.children@, k, j)),
    decreases n, n.children@.len() - k,
{
    let c = n.children@;
    assert(c.len() <= usize::MAX) by {
        broadcast use vstd::std_specs::vec::axiom_spec_len;
        assert(n.children@.len() == n.children.len());
    }
    lemma_suffix_rows_ends(c);
    lemma_suffix_rows_step(c, k);
    lemma_child_entries(n, k);
    let ck = c[k];
    let r = ck.render_len();
    if j < r {
        assert(ck.expanded);
        lemma_suffix_rows_ends(ck.children@);
        assert(decreases_to!(n => n.children));
        assert(decreases_to!(n.children => c));
        assert(decreases_to!(c => ck));
        lemma_path_from_found(ck, 0, j - 1);
        let sj = path_from(ck.children@, 0, j - 1);
        assert((seq![k as usize] + sj).drop_first() =~= sj);
        if i == 0 {
            assert(seq![k as usize].drop_first() =~= Seq::<usize>::empty());
            assert(lex_lt(Seq::<usize>::empty(), sj));
        } else {
            let si = path_from(ck.children@, 0, i - 1);
            lemma_path_from_ordered(ck, 0, i - 1, j - 1);
            assert((seq![k as usize] + si).drop_first() =~= si);
        }
    } else {
        lemma_path_from_found(n, k + 1, j - r);
        if i >= r {
            lemma_path_from_ordered(n, k + 1, i - r, j - r);
        }
    }
}

/// Rows of the siblings before the `k`-th are skipped on the way to it.
proof fn lemma_path_from_skip<E>(n: BrowserNode<E>, k: int, index: int)
    requires
        n.entries_below(),
        0 <= k <= n.children@.len(),
        index >= seq_render_len(n.children@.take(k)),
    ensures
        path_from(n.children@, 0, index) == path_from(
            n.children@,
            k,
            index - seq_render_len(n.children@.take(k)),
        ),
    decreases k,
{
    let c = n.children@;
    if k > 0 {
        lemma_seq_render_len_take(c, k - 1);
        lemma_child_entries(n, k - 1);
        lemma_path_from_skip(n, k - 1, index);
    } else {
        assert(c.take(0) =~= Seq::<BrowserNode<E>>::empty());
    }
}

/// The row on which the node at `p` is rendered.
spec fn row_of<E>(n: BrowserNode<E>, p: Seq<usize>) -> int
    decreases p.len(),
{
    let before = seq_render_len(n.children@.take(p[0] as int)) as int;
    if p.len() <= 1 {
        before
    } else {
        before + 1 + row_of(n.children@[p[0] as int], p.drop_first())
    }
}

proof fn lemma_row_of<E>(n: BrowserNode<E>, p: Seq<usize>)
    requires
        n.entries_below(),
        n.is_shown(p),
    ensures
        0 <= row_of(n, p) < seq_render_len(n.children@),
        path_from(n.children@, 0, row_of(n, p)) == p,
    decreases p.len(),
{
    let c = n.children@;
    assert(c.len() <= usize::MAX) by {
        broadcast use vstd::std_specs::vec::axiom_spec_len;
        assert(n.children@.len() == n.children.len());
    }
    let k = p[0] as int;
    let ck = c[k];
    lemma_child_entries(n, k);
    lemma_seq_render_len_take(c, k);
    lemma_seq_render_len_prefix(c, k + 1);
    let before = seq_render_len(c.take(k)) as int;
    if p.len() == 1 {
        lemma_path_from_skip(n, k, before);
        assert(p =~= seq![k as usize]);
    } else {
        let q = p.drop_first();
        assert(p.take(1) =~= seq![p[0]]);
        assert(n.node_at(p.take(1)) == Some(ck));
        assert(ck.node_at(q) == n.node_at(p));
        assert forall|m: int| 1 <= m < q.len() implies (#[trigger] ck.node_at(q.take(m)) matches Some(
            a,
        ) && a.expanded_spec()) by {
            assert(p.take(m + 1).drop_first() =~= q.take(m));
            assert(n.node_at(p.take(m + 1)) == ck.node_at(q.take(m)));
        }
        lemma_row_of(ck, q);
        lemma_path_from_skip(n, k, row_of(n, p));
        assert(seq![k as usize] + q =~= p);
    }
}

/// Past the rows of its children, a node gives the empty path.
pub proof fn lemma_path_at_past_rows<E>(n: BrowserNode<E>, index: int)
    requires
        n.entries_below(),
        index >= n.child_rows(),
    ensures
        n.path_at(index) == Seq::<usize>::empty(),
{
    lemma_suffix_rows_ends(n.children@);
    lemma_path_from_past(n, 0, index);
}

/// Each row of the children of a node leads to a node below it that is shown.
pub proof fn lemma_path_at_row_shown<E>(n: BrowserNode<E>, index: int)
    requires
        n.entries_below(),
        0 <= index < n.child_rows(),
    ensures
        n.path_at(index).len() > 0,
        n.is_shown(n.path_at(index)),
{
    lemma_suffix_rows_ends(n.children@);
    lemma_path_from_found(n, 0, index);
}

/// The rows come in pre-order: a later row has a later path, so no two rows
/// lead to the same node.
pub proof fn lemma_path_at_rows_ordered<E>(n: BrowserNode<E>, i: int, j: int)
    requires
        n.entries_below(),
        0 <= i < j < n.child_rows(),
    ensures
        lex_lt(n.path_at(i), n.path_at(j)),
        n.path_at(i) != n.path_at(j),
{
    lemma_suffix_rows_ends(n.children@);
    lemma_path_from_ordered(n, 0, i, j);
    lemma_lex_lt_irreflexive(n.path_at(i));
}

/// Every shown node below a node has a row.
pub proof fn lemma_shown_has_row<E>(n: BrowserNode<E>, path: Seq<usize>)
    requires
        n.entries_below(),
        n.is_shown(path),
    ensures
        exists|row: int| 0 <= row < n.child_rows() && n.path_at(row) == path,
{
    lemma_row_of(n, path);
    let row = row_of(n, path);
    assert(n.path_at(row) == path);
}

/// `a` and `b` agree at their roots: the same entry, the same expansion and
/// as many children.
pub open spec fn same_root<E>(a: BrowserNode<E>, b: BrowserNode<E>) -> bool {
    &&& a.entry_spec() == b.entry_spec()
    &&& a.expanded_spec() == b.expanded_spec()
    &&& a.children_spec().len() == b.children_spec().len()
}

/// `a` and `b` hold the same tree: they agree at their roots, the same paths
/// lead to nodes in both, and the nodes at each path agree.
pub open spec fn same_tree<E>(a: BrowserNode<E>, b: BrowserNode<E>) -> bool {
    &&& same_root(a, b)
    &&& forall|p: Seq<usize>|
        #![trigger a.node_at(p)]
        #![trigger b.node_at(p)]
        (a.node_at(p) is Some <==> b.node_at(p) is Some) && (a.node_at(p) is Some ==> same_root(
            a.node_at(p)->0,
            b.node_at(p)->0,
        ))
}

proof fn lemma_replaced_by_itself_at<E>(
    before: BrowserNode<E>,
    after: BrowserNode<E>,
    path: Seq<usize>,
    sub: BrowserNode<E>,
    p: Seq<usize>,
)
    requires
        before.replaced_at(after, path, sub),
        before.node_at(path) == Some(sub),
    ensures
        same_root(after, before),
        after.node_at(p) is Some <==> before.node_at(p) is Some,
        after.node_at(p) is Some ==> same_root(after.node_at(p)->0, before.node_at(p)->0),
    decreases p.len(),
{
    let c = before.children@;
    let d = after.children@;
    let i = path[0] as int;
    if p.len() > 0 && p[0] < c.len() && p[0] == i && path.len() > 1 {
        lemma_replaced_by_itself_at(c[i], d[i], path.drop_first(), sub, p.drop_first());
    }
}

/// Taking the node at `path` to change in place, and changing nothing, leaves
/// the tree as it was.
pub proof fn lemma_replaced_by_itself<E>(
    before: BrowserNode<E>,
    after: BrowserNode<E>,
    path: Seq<usize>,
    sub: BrowserNode<E>,
)
    requires
        before.replaced_at(after, path, sub),
        before.node_at(path) == Some(sub),
    ensures
        same_tree(after, before),
{
    assert forall|p: Seq<usize>|
        #![trigger after.node_at(p)]
        #![trigger before.node_at(p)]
        (after.node_at(p) is Some <==> before.node_at(p) is Some) && (after.node_at(p) is Some
            ==> same_root(after.node_at(p)->0, before.node_at(p)->0)) by {
        lemma_replaced_by_itself_at(before, after, path, sub, p);
    }
    lemma_replaced_by_itself_at(before, after, path, sub, Seq::empty());
}

/// `lemma_replaced_by_itself` for every tree that replaces the node at
/// `path` of `before`.
pub proof fn lemma_replaced_by_itself_any<E>(before: BrowserNode<E>, path: Seq<usize>)
    ensures
        forall|after: BrowserNode<E>, sub: BrowserNode<E>|
            #[trigger] before.replaced_at(after, path, sub) && before.node_at(path) == Some(sub)
                ==> same_tree(after, before),
{
    assert forall|after: BrowserNode<E>, sub: BrowserNode<E>|
        #[trigger] before.replaced_at(after, path, sub) && before.node_at(path) == Some(sub)
            implies same_tree(after, before) by {
        lemma_replaced_by_itself(before, after, path, sub);
    }
}

/// The lines of a list of siblings: those of all but the last, and the last's.
pub proof fn lemma_seq_render_len_unfold<E>(s: Seq<BrowserNode<E>>)
    ensures
        s.len() == 0 ==> seq_render_len(s) == 0,
        s.len() > 0 ==> seq_render_len(s) == seq_render_len(s.drop_last()) + s.last().render_len(),
{
}

/// A node renders a line for its entry, if it has one, and the lines of its
/// children while it is expanded.
pub proof fn lemma_render_len_unfold<E>(n: BrowserNode<E>)
    ensures
        n.render_len() == (if n.expanded_spec() {
            seq_render_len(n.children_spec())
        } else {
            0
        }) + (if n.entry_spec() is Some {
            1nat
        } else {
            0nat
        }),
{
}

/// One step of the walk that finds the path of a line among siblings.
pub proof fn lemma_path_from_unfold<E>(children: Seq<BrowserNode<E>>, k: int, index: int)
    ensures
        path_from(children, k, index) == (if k < 0 || k >= children.len() {
            Seq::empty()
        } else if index == 0 {
            seq![k as usize]
        } else if index < children[k].render_len() {
            seq![k as usize] + path_from(children[k].children_spec(), 0, index - 1)
        } else {
            path_from(children, k + 1, index - children[k].render_len())
        }),
{
}

/// The path of a line below a node is found among its children, from the
/// first.
pub proof fn lemma_path_at_unfold<E>(n: BrowserNode<E>, index: int)
    ensures
        n.path_at(index) == path_from(n.children_spec(), 0, index),
{
}

/// The paths of `start..end` are those of `start..end - 1`, then the path of
/// the last line unless it is condensed away.
pub proof fn lemma_paths_in_unfold<E>(n: BrowserNode<E>, start: int, end: int, condense: bool)
    ensures
        n.paths_in(start, end, condense) == (if end <= start {
            Seq::<Seq<usize>>::empty()
        } else {
            let prev = n.paths_in(start, end - 1, condense);
            let p = n.path_at(end - 1);
            if condense && prev.len() > 0 && path_contains(prev.last(), p) {
                prev
            } else {
                prev.push(p)
            }
        }),
{
}

/// A path is walkable when it has at most one index, or its first index
/// exists and the rest is walkable from that child.
pub proof fn lemma_path_walkable_unfold<E>(n: BrowserNode<E>, path: Seq<usize>)
    ensures
        n.path_walkable(path) == (path.len() <= 1 || (path[0] < n.children_spec().len()
            && n.children_spec()[path[0] as int].path_walkable(path.drop_first()))),
{
}

/// The node at a path: none for the empty path or a missing child, the child
/// for a path of one index, and otherwise the node at the rest of the path
/// from that child.
pub proof fn lemma_node_at_unfold<E>(n: BrowserNode<E>, path: Seq<usize>)
    ensures
        n.node_at(path) == (if path.len() == 0 || path[0] >= n.children_spec().len() {
            None
        } else if path.len() == 1 {
            Some(n.children_spec()[path[0] as int])
        } else {
            n.children_spec()[path[0] as int].node_at(path.drop_first())
        }),
{
}

/// What it takes for `new` to be `n` with the node at `path` replaced by
/// `sub`.
pub proof fn lemma_replaced_at_unfold<E>(
    n: BrowserNode<E>,
    new: BrowserNode<E>,
    path: Seq<usize>,
    sub: BrowserNode<E>,
)
    ensures
        n.replaced_at(new, path, sub) == {
            &&& path.len() > 0
            &&& path[0] < n.children_spec().len()
            &&& new.entry_spec() == n.entry_spec()
            &&& new.expanded_spec() == n.expanded_spec()
            &&& new.children_spec().len() == n.children_spec().len()
            &&& forall|j: int|
                0 <= j < n.children_spec().len() && j != path[0] ==> #[trigger] new.children_spec()[j]
                    == n.children_spec()[j]
            &&& if path.len() == 1 {
                new.children_spec()[path[0] as int] == sub
            } else {
                n.children_spec()[path[0] as int].replaced_at(
                    new.children_spec()[path[0] as int],
                    path.drop_first(),
                    sub,
                )
            }
        },
{
}

/// A path is in range when it is empty, or its first index exists and the
/// rest is in range from that child.
pub proof fn lemma_path_in_range_unfold<E>(n: BrowserNode<E>, path: Seq<usize>)
    ensures
        n.path_in_range(path) == (path.len() == 0 || (path[0] < n.children_spec().len()
            && n.children_spec()[path[0] as int].path_in_range(path.drop_first()))),
{
}

/// The entries along a path: the node's own entry, if any, then those along
/// the rest of the path from the child it names, if that child exists.
pub proof fn lemma_entries_along_unfold<E>(n: BrowserNode<E>, path: Seq<usize>)
    ensures
        n.entries_along(path) == (if n.entry_spec() is Some {
            seq![n.entry_spec()->0]
        } else {
            Seq::<E>::empty()
        }) + (if path.len() == 0 || path[0] >= n.children_spec().len() {
            Seq::<E>::empty()
        } else {
            n.children_spec()[path[0] as int].entries_along(path.drop_first())
        }),
{
}

/// `value` limited to `lo..=hi`.
pub open spec fn clamp_spec(value: int, lo: int, hi: int) -> int {
    if value < lo {
        lo
    } else if value > hi {
        hi
    } else {
        value
    }
}

/// `value` limited to `lo..=hi` (as `Ord::clamp` on integers).
fn clamp_isize(value: isize, lo: isize, hi: isize) -> (r: isize)
    requires
        lo <= hi,
    ensures
        r == clamp_spec(value as int, lo as int, hi as int),
{
    if value < lo {
        lo
    } else if value > hi {
        hi
    } else {
        value
    }
}

/// The scroll position after making the cursor visible in a window of
/// `render_height` lines.
pub open spec fn follow_cursor(scroll: int, cursor: int, render_height: int) -> int {
    if cursor < scroll {
        cursor
    } else if cursor > scroll + (render_height - 1) {
        cursor - (render_height - 1)
    } else {
        scroll
    }
}

/// Making the cursor visible needs no value outside `isize`.
pub open spec fn follow_cursor_ok(scroll: int, cursor: int, render_height: int) -> bool {
    cursor < scroll || (isize::MIN <= scroll + render_height - 1 <= isize::MAX && (cursor > scroll
        + render_height - 1 ==> cursor - render_height + 1 <= isize::MAX))
}

/// The scroll and selection state of a browser.
pub struct BrowserStateView {
    pub bounds_enabled: bool,
    pub indent_enabled: bool,
    pub full_name_enabled: bool,
    pub scroll: int,
    pub cursor: int,
    pub cursor_secondary: Option<int>,
    pub height: int,
}

pub struct BrowserState {
    // Enables display up and down arrows at the top and bottom of the component
    // to indicate if scrolling is available
    bounds_enabled: bool,
    // Enables indenting for hierarchical entries
    indent_enabled: bool,
    // Enables displaying full hierarchical names
    full_name_enabled: bool,
    scroll: isize,
    cursor: isize,
    cursor_secondary: Option<isize>,
    height: isize,
}

impl View for BrowserState {
    type V = BrowserStateView;

    closed spec fn view(&self) -> BrowserStateView {
        BrowserStateView {
            bounds_enabled: self.bounds_enabled,
            indent_enabled: self.indent_enabled,
            full_name_enabled: self.full_name_enabled,
            scroll: self.scroll as int,
            cursor: self.cursor as int,
            cursor_secondary: match self.cursor_secondary {
                Some(c) => Some(c as int),
                None => None,
            },
            height: self.height as int,
        }
    }
}

impl BrowserStateView {
    /// Lines reserved for the scroll markers.
    pub open spec fn margin(self) -> int {
        if self.bounds_enabled {
            2
        } else {
            0
        }
    }

    /// Number of lines that show nodes.
    pub open spec fn render_height(self) -> int {
        if self.height - self.margin() > 0 {
            self.height - self.margin()
        } else {
            0
        }
    }

    /// First and last selected line (both included).
    pub open spec fn selected_bounds(self) -> (int, int) {
        match self.cursor_secondary {
            Some(c) => if self.cursor > c {
                (c, self.cursor)
            } else {
                (self.cursor, c)
            },
            None => (self.cursor, self.cursor),
        }
    }

    /// The last line the cursor may reach among `render_len` lines.
    pub open spec fn last_line(render_len: nat) -> int {
        if render_len - 1 > 0 {
            render_len - 1
        } else {
            0
        }
    }

    /// The state after the window moves by `delta` lines over `render_len`
    /// lines and then follows the cursor.
    pub open spec fn after_scroll(self, render_len: nat, delta: int) -> BrowserStateView {
        let scroll = clamp_spec(self.scroll + delta, 0, Self::last_line(render_len));
        BrowserStateView { scroll: follow_cursor(scroll, self.cursor, self.render_height()), ..self }
    }

    /// The state after the cursor moves by `delta` lines over `render_len`
    /// lines; a move that is not primary keeps (or starts) the secondary
    /// cursor.
    pub open spec fn after_select(self, render_len: nat, delta: int, primary: bool) -> BrowserStateView {
        let cursor = clamp_spec(self.cursor + delta, 0, Self::last_line(render_len));
        BrowserStateView {
            cursor,
            cursor_secondary: if primary {
                None
            } else {
                Some(
                    match self.cursor_secondary {
                        Some(c) => c,
                        None => self.cursor,
                    },
                )
            },
            scroll: follow_cursor(self.scroll, cursor, self.render_height()),
            ..self
        }
    }

    /// The line that row `render_offset` of the window shows.
    pub open spec fn line_at_row(self, render_offset: int) -> int {
        if self.bounds_enabled {
            render_offset + self.scroll - 1
        } else {
            render_offset + self.scroll
        }
    }

    /// Whether a click on row `render_offset` selects anything: the row
    /// shows a node (not a scroll marker) among `render_len` lines.
    pub open spec fn row_selectable(self, render_len: nat, render_offset: int) -> bool {
        !(self.bounds_enabled && (render_offset < 1 || render_offset > self.render_height()))
            && self.line_at_row(render_offset) <= render_len
    }

    /// The state after a click on row `render_offset` over `render_len`
    /// lines, and whether the click hit the line the cursor was already on.
    pub open spec fn after_click(self, render_len: nat, render_offset: int, primary: bool) -> (
        BrowserStateView,
        bool,
    ) {
        if !self.row_selectable(render_len, render_offset) {
            (self, false)
        } else if primary {
            (
                BrowserStateView {
                    cursor: self.line_at_row(render_offset),
                    cursor_secondary: None,
                    ..self
                },
                self.cursor == self.line_at_row(render_offset),
            )
        } else {
            (
                BrowserStateView {
                    cursor_secondary: Some(
                        match self.cursor_secondary {
                            Some(c) => c,
                            None => self.cursor,
                        },
                    ),
                    ..self
                },
                false,
            )
        }
    }

    /// Every field is representable as `isize`.
    pub open spec fn in_range(self) -> bool {
        &&& isize::MIN <= self.scroll <= isize::MAX
        &&& isize::MIN <= self.cursor <= isize::MAX
        &&& isize::MIN <= self.height <= isize::MAX
        &&& (self.cursor_secondary matches Some(c) ==> isize::MIN <= c <= isize::MAX)
    }
}

impl BrowserState {
    pub fn new(bounds_enabled: bool, indent_enabled: bool, full_name_enabled: bool) -> (r: Self)
        ensures
            r@ == (BrowserStateView {
                bounds_enabled,
                indent_enabled,
                full_name_enabled,
                scroll: 0,
                cursor: 0,
                cursor_secondary: None,
                height: 0,
            }),
    {
        Self {
            bounds_enabled,
            indent_enabled,
            full_name_enabled,
            scroll: 0,
            cursor: 0,
            cursor_secondary: None,
            height: 0,
        }
    }

    proof fn lemma_in_range(&self)
        ensures
            self@.in_range(),
            self@.scroll == self.scroll,
            self@.cursor == self.cursor,
            self@.height == self.height,
    {
    }

    /// The selected lines: from the smaller to the larger of the cursor and
    /// the secondary cursor, both included.
    pub fn get_selected_range(&self) -> (r: std::ops::Range<usize>)
        requires
            self@.selected_bounds().1 < isize::MAX,
        ensures
            r.start == self@.selected_bounds().0 as usize,
            r.end == (self@.selected_bounds().1 + 1) as usize,
    {
        if let Some(cursor_secondary) = self.cursor_secondary {
            if self.cursor > cursor_secondary {
                cursor_secondary as usize..(self.cursor + 1) as usize
            } else {
                self.cursor as usize..(cursor_secondary + 1) as usize
            }
        } else {
            self.cursor as usize..(self.cursor + 1) as usize
        }
    }

    pub fn get_primary_selected(&self) -> (r: usize)
        ensures
            r == self@.cursor as usize,
    {
        self.cursor as usize
    }

    /// Paths of the lines in the window, from the scroll position on.
    pub fn get_visible_paths<E>(&self, node: &BrowserNode<E>) -> (r: Vec<BrowserNodePath>)
        requires
            node.node_count() <= usize::MAX,
            self@.scroll + self@.height <= isize::MAX,
            self@.scroll + self@.height >= isize::MIN,
        ensures
            paths_view(r@) == node.paths_in(
                self@.scroll as usize as int,
                (self@.scroll + self@.height) as usize as int,
                false,
            ),
    {
        node.get_paths(self.scroll as usize..(self.scroll + self.height) as usize, false)
    }

    /// Paths of the selected lines, condensed or not.
    pub fn get_selected_paths<E>(&self, node: &BrowserNode<E>, condense: bool) -> (r: Vec<
        BrowserNodePath,
    >)
        requires
            node.node_count() <= usize::MAX,
            self@.selected_bounds().1 < isize::MAX,
        ensures
            paths_view(r@) == node.paths_in(
                self@.selected_bounds().0 as usize as int,
                (self@.selected_bounds().1 + 1) as usize as int,
                condense,
            ),
    {
        node.get_paths(self.get_selected_range(), condense)
    }

    /// Path of the line under the cursor.
    pub fn get_primary_selected_path<E>(&self, node: &BrowserNode<E>) -> (r: BrowserNodePath)
        requires
            node.node_count() <= usize::MAX,
        ensures
            r@ == node.path_at(self@.cursor as usize as int),
    {
        node.get_path(self.get_primary_selected())
    }

    fn clamp_scroll(&mut self, render_height: isize)
        requires
            render_height >= 0,
            follow_cursor_ok(old(self)@.scroll, old(self)@.cursor, render_height as int),
        ensures
            final(self)@ == (BrowserStateView {
                scroll: follow_cursor(old(self)@.scroll, old(self)@.cursor, render_height as int),
                ..old(self)@
            }),
    {
        if self.cursor < self.scroll {
            self.scroll = self.cursor;
        } else if self.cursor > self.scroll + (render_height - 1) {
            self.scroll = self.cursor - (render_height - 1);
        }
    }

    /// Scrolls by `delta` lines, within the node's lines, then moves the
    /// window so that the cursor stays visible.
    pub fn scroll_relative<E>(&mut self, node: &BrowserNode<E>, delta: isize)
        requires
            node.node_count() <= isize::MAX,
            old(self)@.height - old(self)@.margin() >= isize::MIN,
            old(self)@.scroll + delta <= isize::MAX,
            old(self)@.scroll + delta >= isize::MIN,
            follow_cursor_ok(
                clamp_spec(
                    old(self)@.scroll + delta,
                    0,
                    if node.render_len() - 1 > 0 {
                        node.render_len() - 1
                    } else {
                        0
                    },
                ),
                old(self)@.cursor,
                old(self)@.render_height(),
            ),
        ensures
            final(self)@ == old(self)@.after_scroll(node.render_len(), delta as int),
    {
        proof {
            lemma_render_len_le_node_count(*node);
        }
        let node_height = node.get_render_len();
        let render_height = (self.height - if self.bounds_enabled {
            2
        } else {
            0
        }).max(0);
        self.scroll = clamp_isize(self.scroll + delta, 0, (node_height as isize - 1).max(0));
        self.clamp_scroll(render_height);
    }

    /// Selects the line at `render_offset` in the window. Returns true when
    /// that line already was the primary selection.
    pub fn select_absolute<E>(&mut self, node: &BrowserNode<E>, render_offset: isize, primary: bool) -> (r:
        bool)
        requires
            node.node_count() <= isize::MAX,
            old(self)@.height - old(self)@.margin() >= isize::MIN,
            old(self)@.bounds_enabled ==> render_offset + old(self)@.scroll - 1 >= isize::MIN,
            render_offset + old(self)@.scroll <= isize::MAX,
            render_offset + old(self)@.scroll >= isize::MIN,
        ensures
            (final(self)@, r) == old(self)@.after_click(node.render_len(), render_offset as int, primary),
            !primary && old(self)@.cursor_secondary is Some ==> final(self)@.cursor_secondary
                == old(self)@.cursor_secondary,
            !primary ==> final(self)@.cursor == old(self)@.cursor,
    {
        proof {
            lemma_render_len_le_node_count(*node);
        }
        let render_height = (self.height - if self.bounds_enabled {
            2
        } else {
            0
        }).max(0);
        let node_height = node.get_render_len();
        let offset = if self.bounds_enabled {
            if render_offset < 1 || render_offset > render_height {
                return false;
            } else {
                render_offset + self.scroll - 1
            }
        } else {
            render_offset + self.scroll
        };
        if offset > node_height as isize {
            return false;
        }
        if primary {
            self.cursor_secondary = None;
            if self.cursor == offset {
                true
            } else {
                self.cursor = offset;
                false
            }
        } else {
            self.cursor_secondary = Some(self.cursor_secondary.unwrap_or(self.cursor));
            false
        }
    }

    /// Moves the cursor by `delta` lines within the node's lines; a
    /// non-primary move keeps (or starts) the secondary cursor so that a
    /// range gets selected. The window follows the cursor.
    pub fn select_relative<E>(&mut self, node: &BrowserNode<E>, delta: isize, primary: bool)
        requires
            node.node_count() <= isize::MAX,
            old(self)@.height - old(self)@.margin() >= isize::MIN,
            old(self)@.cursor + delta <= isize::MAX,
            old(self)@.cursor + delta >= isize::MIN,
            follow_cursor_ok(
                old(self)@.scroll,
                clamp_spec(
                    old(self)@.cursor + delta,
                    0,
                    if node.render_len() - 1 > 0 {
                        node.render_len() - 1
                    } else {
                        0
                    },
                ),
                old(self)@.render_height(),
            ),
        ensures
            final(self)@ == old(self)@.after_select(node.render_len(), delta as int, primary),
            primary ==> final(self)@.cursor_secondary is None,
            !primary && old(self)@.cursor_secondary is Some ==> final(self)@.cursor_secondary
                == old(self)@.cursor_secondary,
            !primary && old(self)@.cursor_secondary is None ==> final(self)@.cursor_secondary == Some(
                old(self)@.cursor,
            ),
            0 <= final(self)@.cursor,
            final(self)@.cursor < node.render_len() || final(self)@.cursor == 0,
            0 <= old(self)@.cursor + delta < node.render_len()
                ==> final(self)@.cursor == old(self)@.cursor + delta,
            old(self)@.render_height() >= 1 ==> final(self)@.scroll <= final(self)@.cursor,
            old(self)@.render_height() >= 1 ==> final(self)@.cursor < final(self)@.scroll + old(
                self,
            )@.render_height(),
            old(self)@.scroll <= final(self)@.cursor < old(self)@.scroll + old(self)@.render_height()
                ==> final(self)@.scroll == old(self)@.scroll,
    {
        proof {
            lemma_select_keeps_anchor(old(self)@, node.render_len(), delta as int, primary);
        }
        proof {
            lemma_render_len_le_node_count(*node);
        }
        let render_height = (self.height - if self.bounds_enabled {
            2
        } else {
            0
        }).max(0);
        let node_height = node.get_render_len();
        self.cursor_secondary = if primary {
            None
        } else {
            Some(self.cursor_secondary.unwrap_or(self.cursor))
        };
        self.cursor = clamp_isize(self.cursor + delta, 0, (node_height as isize - 1).max(0));
        self.clamp_scroll(render_height);
    }

    pub fn get_height(&self) -> (r: isize)
        ensures
            r == self@.height,
    {
        self.height
    }

    /// Whether the end of the window (scroll position plus height) is an
    /// `isize`: what listing the lines in the window needs.
    pub fn window_end_in_range(&self) -> (r: bool)
        ensures
            r == (isize::MIN <= self@.scroll + self@.height <= isize::MAX),
    {
        self.scroll.checked_add(self.height).is_some()
    }

    /// Whether the line after the selection is an `isize`: what listing the
    /// selected lines needs.
    pub fn selection_end_in_range(&self) -> (r: bool)
        ensures
            r == (self@.selected_bounds().1 < isize::MAX),
    {
        let last = match self.cursor_secondary {
            Some(c) => if self.cursor > c {
                self.cursor
            } else {
                c
            },
            None => self.cursor,
        };
        last < isize::MAX
    }

    pub fn set_height(&mut self, height: isize)
        ensures
            final(self)@ == (BrowserStateView { height: height as int, ..old(self)@ }),
    {
        self.height = height;
    }

    pub fn is_bounds_enabled(&self) -> (r: bool)
        ensures
            r == self@.bounds_enabled,
    {
        self.bounds_enabled
    }

    pub fn is_indent_enabled(&self) -> (r: bool)
        ensures
            r == self@.indent_enabled,
    {
        self.indent_enabled
    }

    pub fn is_full_name_enabled(&self) -> (r: bool)
        ensures
            r == self@.full_name_enabled,
    {
        self.full_name_enabled
    }

    pub fn set_bounds_enabled(&mut self, bounds_enabled: bool)
        ensures
            final(self)@ == (BrowserStateView { bounds_enabled, ..old(self)@ }),
    {
        self.bounds_enabled = bounds_enabled
    }

    pub fn set_indent_enabled(&mut self, indent_enabled: bool)
        ensures
            final(self)@ == (BrowserStateView { indent_enabled, ..old(self)@ }),
    {
        self.indent_enabled = indent_enabled
    }

    pub fn set_full_name_enabled(&mut self, full_name_enabled: bool)
        ensures
            final(self)@ == (BrowserStateView { full_name_enabled, ..old(self)@ }),
    {
        self.full_name_enabled = full_name_enabled
    }
}

impl PartialOrd for BrowserNodePath {
    fn partial_cmp(&self, other: &Self) -> (r: Option<Ordering>) {
        if self.lex_less(other) {
            Some(Ordering::Less)
        } else if other.lex_less(self) {
            Some(Ordering::Greater)
        } else {
            Some(Ordering::Equal)
        }
    }
}

impl PartialOrdSpecImpl for BrowserNodePath {
    open spec fn obeys_partial_cmp_spec() -> bool {
        true
    }

    open spec fn partial_cmp_spec(&self, other: &Self) -> Option<Ordering> {
        if lex_lt(self@, other@) {
            Some(Ordering::Less)
        } else if lex_lt(other@, self@) {
            Some(Ordering::Greater)
        } else {
            Some(Ordering::Equal)
        }
    }
}

/// Moving the cursor: a primary move drops the anchor of the selection; an
/// extending move keeps the anchor it had, or anchors at the line the
/// cursor left. The cursor moves by `delta`, kept within the lines (line 0
/// when there are none). A window of at least one line then shows the
/// cursor, and does not scroll where it showed it already.
pub proof fn lemma_select_keeps_anchor(s: BrowserStateView, render_len: nat, delta: int, primary: bool)
    ensures
        primary ==> s.after_select(render_len, delta, primary).cursor_secondary is None,
        !primary && s.cursor_secondary is Some ==> s.after_select(render_len, delta, primary).cursor_secondary
            == s.cursor_secondary,
        !primary && s.cursor_secondary is None ==> s.after_select(render_len, delta, primary).cursor_secondary
            == Some(s.cursor),
        0 <= s.after_select(render_len, delta, primary).cursor,
        s.after_select(render_len, delta, primary).cursor < render_len || s.after_select(
            render_len,
            delta,
            primary,
        ).cursor == 0,
        0 <= s.cursor + delta < render_len ==> s.after_select(render_len, delta, primary).cursor
            == s.cursor + delta,
        s.render_height() >= 1 ==> s.after_select(render_len, delta, primary).scroll <= s.after_select(
            render_len,
            delta,
            primary,
        ).cursor,
        s.render_height() >= 1 ==> s.after_select(render_len, delta, primary).cursor < s.after_select(
            render_len,
            delta,
            primary,
        ).scroll + s.render_height(),
        s.scroll <= s.after_select(render_len, delta, primary).cursor < s.scroll + s.render_height()
            ==> s.after_select(render_len, delta, primary).scroll == s.scroll,
        s.after_select(render_len, delta, primary).height == s.height,
{
}

/// No path comes before a later path of the sequence.
pub open spec fn paths_sorted(s: Seq<Seq<usize>>) -> bool {
    forall|i: int, j: int| 0 <= i < j < s.len() ==> !lex_lt(#[trigger] s[j], #[trigger] s[i])
}

/// No path comes before itself.
pub proof fn lemma_lex_lt_irreflexive(a: Seq<usize>)
    ensures
        !lex_lt(a, a),
    decreases a.len(),
{
    if a.len() > 0 {
        lemma_lex_lt_irreflexive(a.drop_first());
    }
}

/// The lexicographic order is transitive.
pub proof fn lemma_lex_lt_transitive(a: Seq<usize>, b: Seq<usize>, c: Seq<usize>)
    requires
        lex_lt(a, b),
        lex_lt(b, c),
    ensures
        lex_lt(a, c),
    decreases a.len(),
{
    if a.len() > 0 && b.len() > 0 && c.len() > 0 && a[0] == b[0] && b[0] == c[0] {
        lemma_lex_lt_transitive(a.drop_first(), b.drop_first(), c.drop_first());
    }
}

/// Any two different paths are ordered one way or the other.
pub proof fn lemma_lex_lt_total(a: Seq<usize>, b: Seq<usize>)
    ensures
        a == b || lex_lt(a, b) || lex_lt(b, a),
    decreases a.len(),
{
    if a.len() > 0 && b.len() > 0 && a[0] == b[0] {
        lemma_lex_lt_total(a.drop_first(), b.drop_first());
        if a.drop_first() == b.drop_first() {
            assert(a =~= seq![a[0]] + a.drop_first());
            assert(b =~= seq![b[0]] + b.drop_first());
        }
    } else if a.len() == 0 && b.len() == 0 {
        assert(a =~= b);
    }
}

/// A path comes before (or equals) every path that it is a prefix of.
pub proof fn lemma_prefix_not_after(a: Seq<usize>, b: Seq<usize>)
    requires
        is_prefix(a, b),
    ensures
        !lex_lt(b, a),
    decreases a.len(),
{
    if a.len() > 0 {
        assert(b[0] == b.subrange(0, a.len() as int)[0]);
        assert(b.drop_first().subrange(0, a.len() - 1) =~= a.drop_first()) by {
            assert(b.subrange(0, a.len() as int) == a);
        }
        lemma_prefix_not_after(a.drop_first(), b.drop_first());
    }
}

/// A path contains itself, unless it is empty.
pub proof fn lemma_contains_reflexive(a: Seq<usize>)
    requires
        a.len() > 0,
    ensures
        path_contains(a, a),
{
    assert(a.subrange(0, a.len() as int) =~= a);
}

/// Containment is transitive.
pub proof fn lemma_contains_transitive(a: Seq<usize>, b: Seq<usize>, c: Seq<usize>)
    requires
        path_contains(a, b),
        path_contains(b, c),
    ensures
        path_contains(a, c),
{
    assert(c.subrange(0, a.len() as int) =~= c.subrange(0, b.len() as int).subrange(
        0,
        a.len() as int,
    ));
}

proof fn lemma_insert_sorted(s: Seq<Seq<usize>>, x: Seq<usize>)
    requires
        paths_sorted(s),
    ensures
        paths_sorted(insert_sorted(s, x)),
        insert_sorted(s, x).to_multiset() == s.to_multiset().insert(x),
        forall|k: int|
            0 <= k < insert_sorted(s, x).len() ==> #[trigger] insert_sorted(s, x)[k] == x
                || s.contains(insert_sorted(s, x)[k]),
        insert_sorted(s, x).len() == s.len() + 1,
    decreases s.len(),
{
    broadcast use vstd::seq_lib::group_to_multiset_ensures;

    let r = insert_sorted(s, x);
    if s.len() == 0 || !lex_lt(x, s.last()) {
        assert forall|i: int, j: int| 0 <= i < j < r.len() implies !lex_lt(
            #[trigger] r[j],
            #[trigger] r[i],
        ) by {
            if j == s.len() {
                if lex_lt(x, s[i]) {
                    if i < s.len() - 1 {
                        lemma_lex_lt_total(s[i], s.last());
                        if s[i] != s.last() {
                            lemma_lex_lt_transitive(x, s[i], s.last());
                        }
                    }
                }
            }
        }
        assert forall|k: int| 0 <= k < r.len() implies #[trigger] r[k] == x || s.contains(r[k]) by {
            if k < s.len() {
                assert(r[k] == s[k]);
            }
        }
    } else {
        let t = s.drop_last();
        let q = insert_sorted(t, x);
        lemma_insert_sorted(t, x);
        assert(r == q.push(s.last()));
        assert forall|i: int, j: int| 0 <= i < j < r.len() implies !lex_lt(
            #[trigger] r[j],
            #[trigger] r[i],
        ) by {
            if j == q.len() {
                assert(r[i] == q[i]);
                if q[i] == x {
                    lemma_lex_lt_irreflexive(x);
                    if lex_lt(s.last(), x) {
                        lemma_lex_lt_transitive(x, s.last(), x);
                    }
                } else {
                    assert(t.contains(q[i]));
                    let m = choose|m: int| 0 <= m < t.len() && t[m] == q[i];
                    assert(s[m] == t[m]);
                    assert(!lex_lt(s[s.len() - 1], s[m]));
                }
            }
        }
        assert forall|k: int| 0 <= k < r.len() implies #[trigger] r[k] == x || s.contains(r[k]) by {
            if k < q.len() {
                assert(r[k] == q[k]);
                if q[k] != x {
                    assert(t.contains(q[k]));
                    let m = choose|m: int| 0 <= m < t.len() && t[m] == q[k];
                    assert(s[m] == t[m]);
                }
            } else {
                assert(r[k] == s[s.len() - 1]);
            }
        }
        assert(s =~= t.push(s.last()));
    }
}

/// A prefix of `z` is a prefix of every path between it and `z`.
proof fn lemma_prefix_sandwich(y: Seq<usize>, l: Seq<usize>, z: Seq<usize>)
    requires
        is_prefix(y, z),
        !lex_lt(l, y),
        !lex_lt(z, l),
    ensures
        is_prefix(y, l),
    decreases y.len(),
{
    if y.len() > 0 {
        assert(z[0] == z.subrange(0, y.len() as int)[0]);
        assert(y[0] == z[0]) by {
            assert(z.subrange(0, y.len() as int) == y);
        }
        assert(z.drop_first().subrange(0, y.len() - 1) =~= y.drop_first()) by {
            assert(z.subrange(0, y.len() as int) == y);
        }
        assert(l.len() > 0);
        assert(l[0] == y[0]);
        assert(lex_lt(l, y) == lex_lt(l.drop_first(), y.drop_first()));
        assert(lex_lt(z, l) == lex_lt(z.drop_first(), l.drop_first()));
        lemma_prefix_sandwich(y.drop_first(), l.drop_first(), z.drop_first());
        assert(l.len() >= y.len());
        assert forall|i: int| 0 <= i < y.len() implies #[trigger] l.subrange(0, y.len() as int)[i]
            == y[i] by {
            if i > 0 {
                assert(l.drop_first().subrange(0, y.len() - 1)[i - 1] == y.drop_first()[i - 1]);
            }
        }
        assert(l.subrange(0, y.len() as int) =~= y);
    } else {
        assert(l.subrange(0, 0) =~= y);
    }
}

/// What condensing a sorted sequence of paths keeps.
proof fn lemma_condense_sorted(t: Seq<Seq<usize>>)
    requires
        paths_sorted(t),
    ensures
        paths_sorted(condense_seq(t)),
        forall|k: int| 0 <= k < condense_seq(t).len() ==> t.contains(#[trigger] condense_seq(t)[k]),
        forall|k: int|
            0 <= k < t.len() ==> condense_seq(t).contains(#[trigger] t[k]) || exists|j: int|
                0 <= j < condense_seq(t).len() && path_contains(
                    #[trigger] condense_seq(t)[j],
                    t[k],
                ),
        forall|i: int, j: int|
            0 <= i < condense_seq(t).len() && 0 <= j < condense_seq(t).len() && i != j
                ==> !path_contains(#[trigger] condense_seq(t)[i], #[trigger] condense_seq(t)[j]),
    decreases t.len(),
{
    if t.len() > 0 {
        let u = t.drop_last();
        let z = t.last();
        let prev = condense_seq(u);
        assert(paths_sorted(u)) by {
            assert forall|i: int, j: int| 0 <= i < j < u.len() implies !lex_lt(
                #[trigger] u[j],
                #[trigger] u[i],
            ) by {
                assert(u[i] == t[i] && u[j] == t[j]);
            }
        }
        lemma_condense_sorted(u);
        // every kept path so far is not after z
        assert forall|k: int| 0 <= k < prev.len() implies !lex_lt(z, #[trigger] prev[k]) by {
            assert(u.contains(prev[k]));
            let m = choose|m: int| 0 <= m < u.len() && u[m] == prev[k];
            assert(t[m] == u[m]);
            assert(z == t[t.len() - 1]);
        }
        let r = condense_seq(t);
        if prev.len() > 0 && path_contains(prev.last(), z) {
            assert(r == prev);
            assert forall|k: int| 0 <= k < r.len() implies t.contains(#[trigger] r[k]) by {
                assert(u.contains(r[k]));
                let m = choose|m: int| 0 <= m < u.len() && u[m] == r[k];
                assert(t[m] == u[m]);
            }
            assert forall|k: int|
                0 <= k < t.len() implies r.contains(#[trigger] t[k]) || exists|j: int|
                    0 <= j < r.len() && path_contains(#[trigger] r[j], t[k]) by {
                if k < u.len() {
                    assert(u[k] == t[k]);
                } else {
                    assert(path_contains(r[r.len() - 1], t[k]));
                }
            }
        } else {
            assert(r == prev.push(z));
            assert forall|i: int, j: int| 0 <= i < j < r.len() implies !lex_lt(
                #[trigger] r[j],
                #[trigger] r[i],
            ) by {
                if j == prev.len() {
                    assert(r[i] == prev[i]);
                } else {
                    assert(r[i] == prev[i] && r[j] == prev[j]);
                }
            }
            assert forall|k: int| 0 <= k < r.len() implies t.contains(#[trigger] r[k]) by {
                if k < prev.len() {
                    assert(r[k] == prev[k]);
                    assert(u.contains(r[k]));
                    let m = choose|m: int| 0 <= m < u.len() && u[m] == r[k];
                    assert(t[m] == u[m]);
                } else {
                    assert(t[t.len() - 1] == r[k]);
                }
            }
            assert forall|k: int|
                0 <= k < t.len() implies r.contains(#[trigger] t[k]) || exists|j: int|
                    0 <= j < r.len() && path_contains(#[trigger] r[j], t[k]) by {
                if k < u.len() {
                    assert(u[k] == t[k]);
                    if prev.contains(t[k]) {
                        let m = choose|m: int| 0 <= m < prev.len() && prev[m] == t[k];
                        assert(r[m] == prev[m]);
                    } else {
                        let m = choose|m: int|
                            0 <= m < prev.len() && path_contains(#[trigger] prev[m], u[k]);
                        assert(r[m] == prev[m]);
                    }
                } else {
                    assert(r[r.len() - 1] == t[k]);
                }
            }
            assert forall|i: int, j: int|
                0 <= i < r.len() && 0 <= j < r.len() && i != j implies !path_contains(
                #[trigger] r[i],
                #[trigger] r[j],
            ) by {
                if i < prev.len() && j < prev.len() {
                    assert(r[i] == prev[i] && r[j] == prev[j]);
                } else if j == prev.len() {
                    // a kept path does not contain z
                    let y = prev[i];
                    let l = prev.last();
                    assert(r[i] == y);
                    if path_contains(y, z) {
                        assert(!lex_lt(z, l));
                        if i == prev.len() - 1 {
                            assert(y == l);
                        } else {
                            assert(!lex_lt(l, y));
                            lemma_prefix_sandwich(y, l, z);
                            lemma_lex_lt_total(y, l);
                            if y == l {
                            } else {
                                assert(path_contains(prev[i], prev[prev.len() - 1]));
                            }
                        }
                    }
                } else {
                    // z does not contain a kept path
                    let y = prev[j];
                    assert(r[j] == y);
                    if path_contains(z, y) {
                        lemma_prefix_not_after(z, y);
                        assert(!lex_lt(z, y));
                        lemma_lex_lt_total(z, y);
                        assert(y == z);
                        let l = prev.last();
                        assert(!lex_lt(z, l));
                        if j < prev.len() - 1 {
                            assert(!lex_lt(l, y));
                        }
                        lemma_lex_lt_total(l, z);
                        lemma_contains_reflexive(z);
                    }
                }
            }
        }
    }
}

/// Condensing keeps only given paths, in lexicographic order; every given
/// path is kept or contained by a kept path; and no kept path contains
/// another.
pub proof fn lemma_condense_paths(s: Seq<Seq<usize>>)
    ensures
        paths_sorted(condense_seq(sort_paths_spec(s))),
        forall|k: int|
            0 <= k < condense_seq(sort_paths_spec(s)).len() ==> s.contains(
                #[trigger] condense_seq(sort_paths_spec(s))[k],
            ),
        forall|k: int|
            0 <= k < s.len() ==> condense_seq(sort_paths_spec(s)).contains(#[trigger] s[k])
                || exists|j: int|
                0 <= j < condense_seq(sort_paths_spec(s)).len() && path_contains(
                    #[trigger] condense_seq(sort_paths_spec(s))[j],
                    s[k],
                ),
        forall|i: int, j: int|
            0 <= i < condense_seq(sort_paths_spec(s)).len() && 0 <= j < condense_seq(
                sort_paths_spec(s),
            ).len() && i != j ==> !path_contains(
                #[trigger] condense_seq(sort_paths_spec(s))[i],
                #[trigger] condense_seq(sort_paths_spec(s))[j],
            ),
{
    broadcast use vstd::seq_lib::group_to_multiset_ensures;

    let t = sort_paths_spec(s);
    lemma_sort_paths(s);
    lemma_condense_sorted(t);
    let r = condense_seq(t);
    assert forall|k: int| 0 <= k < r.len() implies s.contains(#[trigger] r[k]) by {
        assert(t.contains(r[k]));
        assert(t.to_multiset().count(r[k]) > 0);
    }
    assert forall|k: int|
        0 <= k < s.len() implies r.contains(#[trigger] s[k]) || exists|j: int|
            0 <= j < r.len() && path_contains(#[trigger] r[j], s[k]) by {
        assert(s.contains(s[k]));
        assert(s.to_multiset().count(s[k]) > 0);
        assert(t.contains(s[k]));
        let m = choose|m: int| 0 <= m < t.len() && t[m] == s[k];
        assert(r.contains(t[m]) || exists|j: int|
            0 <= j < r.len() && path_contains(#[trigger] r[j], t[m]));
    }
}

/// Sorting puts the paths in lexicographic order and keeps each of them.
pub proof fn lemma_sort_paths(s: Seq<Seq<usize>>)
    ensures
        paths_sorted(sort_paths_spec(s)),
        sort_paths_spec(s).to_multiset() == s.to_multiset(),
    decreases s.len(),
{
    broadcast use vstd::seq_lib::group_to_multiset_ensures;

    if s.len() > 0 {
        lemma_sort_paths(s.drop_last());
        lemma_insert_sorted(sort_paths_spec(s.drop_last()), s.last());
        assert(s =~= s.drop_last().push(s.last()));
    }
}

/// How a line of a browser is drawn.
#[derive(Debug, Clone, Copy, PartialEq, Eq, Structural)]
pub enum LineStyle {
    Plain,
    /// A selected line other than the cursor's.
    Selected,
    /// The line under the cursor, when it is selected.
    PrimarySelected,
}

pub open spec fn selected_style_spec(is_selected: bool, is_primary: bool) -> LineStyle {
    if is_selected {
        if is_primary {
            LineStyle::PrimarySelected
        } else {
            LineStyle::Selected
        }
    } else {
        LineStyle::Plain
    }
}

/// The style of a line: plain unless selected; the cursor's selected line
/// stands out from the other selected ones.
pub fn get_selected_style(is_selected: bool, is_primary: bool) -> (r: LineStyle)
    ensures
        r == selected_style_spec(is_selected, is_primary),
{
    if is_selected {
        if is_primary {
            LineStyle::PrimarySelected
        } else {
            LineStyle::Selected
        }
    } else {
        LineStyle::Plain
    }
}

/// A line of text that a browser shows, with its style.
pub struct BrowserLine {
    pub text: String,
    pub style: LineStyle,
}

pub open spec fn lines_view(v: Seq<BrowserLine>) -> Seq<(Seq<char>, LineStyle)> {
    v.map_values(|l: BrowserLine| (l.text@, l.style))
}

impl<E: BrowserEntry> BrowserNode<E> {
    /// What the line of the node at `path` reads: its full name (the labels
    /// along the path joined with dots) or its own label.
    pub open spec fn line_content(self, path: Seq<usize>, full_name: bool) -> Seq<char> {
        if full_name {
            join_spec(labels(self.entries_along(path)), "."@)
        } else {
            match self.node_at(path) {
                Some(sub) => match sub.entry_spec() {
                    Some(e) => e.label_spec(),
                    None => Seq::empty(),
                },
                None => Seq::empty(),
            }
        }
    }
}

/// The line a browser shows for the rendered line `index` of `node`, padded
/// with spaces to `width` bytes: indentation (four spaces per level below
/// the first, where indenting is on), `[-] ` or `[+] ` for an expanded or
/// collapsed node with children, and the content. A line past the end shows
/// four spaces.
pub open spec fn line_spec<E: BrowserEntry>(
    state: BrowserStateView,
    node: BrowserNode<E>,
    index: int,
    width: nat,
) -> (Seq<char>, LineStyle) {
    let path = node.path_at(index);
    match node.node_at(path) {
        None => ("    "@, LineStyle::Plain),
        Some(sub) => {
            let indents = if state.indent_enabled {
                repeat_char(' ', (4 * (path.len() - 1)) as nat)
            } else {
                Seq::empty()
            };
            let expander = if sub.children_spec().len() > 0 {
                if sub.expanded_spec() {
                    "[-] "@
                } else {
                    "[+] "@
                }
            } else {
                Seq::empty()
            };
            let raw = indents + expander + node.line_content(path, state.full_name_enabled);
            let bytes = encode_utf8(raw).len() as usize;
            let padded = raw + repeat_char(
                ' ',
                if bytes < width {
                    (width - bytes) as nat
                } else {
                    0
                },
            );
            let sb = state.selected_bounds();
            let is_selected = (sb.0 as usize) <= (index as usize) < ((sb.1 + 1) as usize);
            (padded, selected_style_spec(is_selected, index == state.cursor))
        },
    }
}

/// The lines a browser shows in an area `width` wide and `area_height`
/// high; `None` (nothing drawn) where the scroll markers are on and the area
/// is less than two lines high. With the markers on, a line of `↑` (or
/// spaces, at the top) comes first and a line of `↓` (or spaces, when no
/// line lies below) last.
pub open spec fn browser_lines<E: BrowserEntry>(
    state: BrowserStateView,
    node: BrowserNode<E>,
    width: nat,
    area_height: int,
) -> Option<Seq<(Seq<char>, LineStyle)>> {
    if state.bounds_enabled && area_height < 2 {
        None
    } else {
        let height = if state.bounds_enabled {
            area_height - 2
        } else {
            area_height
        };
        let count = if state.bounds_enabled {
            height - 2
        } else {
            height
        };
        let n = if count > 0 {
            count
        } else {
            0
        };
        let top = if state.bounds_enabled {
            seq![
                (
                    repeat_char(
                        if state.scroll > 0 {
                            '↑'
                        } else {
                            ' '
                        },
                        width,
                    ),
                    LineStyle::Plain,
                ),
            ]
        } else {
            Seq::empty()
        };
        let body = Seq::new(n as nat, |k: int| line_spec(state, node, state.scroll + k, width));
        let bottom = if state.bounds_enabled {
            seq![
                (
                    repeat_char(
                        if node.render_len() - state.scroll > height - 2 {
                            '↓'
                        } else {
                            ' '
                        },
                        width,
                    ),
                    LineStyle::Plain,
                ),
            ]
        } else {
            Seq::empty()
        };
        Some(top + body + bottom)
    }
}

/// A view of a hierarchy of nodes with the state of its scrolling and
/// selection.
pub struct Browser<'a, E> {
    state: &'a BrowserState,
    node: &'a BrowserNode<E>,
}

impl<'a, E: BrowserEntry> Browser<'a, E> {
    pub fn new(state: &'a BrowserState, node: &'a BrowserNode<E>) -> (r: Self)
        ensures
            r.state() == state,
            r.node() == node,
    {
        Self { state, node }
    }

    pub closed spec fn state(self) -> &'a BrowserState {
        self.state
    }

    pub closed spec fn node(self) -> &'a BrowserNode<E> {
        self.node
    }

    fn line(&self, index: isize, width: u16) -> (r: BrowserLine)
        requires
            index >= 0,
            self.node.node_count() <= usize::MAX,
            self.state@.selected_bounds().1 < isize::MAX,
            self.state@.in_range(),
        ensures
            (r.text@, r.style) == line_spec(self.state@, *self.node, index as int, width as nat),
    {
        let path = self.node.get_path(index as usize);
        proof {
            lemma_path_from_in_range(*self.node, 0, index as int);
            lemma_in_range_walkable(*self.node, path@);
        }
        let sub_node = match self.node.get_node(&path) {
            Some(sub_node) => sub_node,
            None => {
                let mut text = String::new();
                push_str(&mut text, "    ");
                return BrowserLine { text, style: LineStyle::Plain };
            },
        };
        let mut raw = String::new();
        if self.state.indent_enabled {
            let levels = path.0.len() - 1;
            let mut j: usize = 0;
            while j < levels
                invariant
                    j <= levels,
                    raw@ == repeat_char(' ', 4 * j as nat),
                decreases levels - j,
            {
                let ghost before = raw@;
                push_repeat(&mut raw, ' ', 4);
                j += 1;
                assert(raw@ =~= repeat_char(' ', 4 * j as nat));
            }
        }
        let ghost indents = raw@;
        if sub_node.is_parent() {
            if sub_node.is_expanded() {
                push_str(&mut raw, "[-] ");
            } else {
                push_str(&mut raw, "[+] ");
            }
        }
        if self.state.full_name_enabled {
            let name = self.node.get_full_name(&path);
            let joined = join(&name, ".");
            push_str(&mut raw, joined.as_str());
        } else {
            match sub_node.get_entry() {
                Some(entry) => {
                    let label = entry.label();
                    push_str(&mut raw, label.as_str());
                },
                None => {},
            }
        }
        let ghost path_v = path@;
        assert(self.node.node_at(path_v) == Some(*sub_node));
        let ghost ind = if self.state@.indent_enabled {
            repeat_char(' ', (4 * (path_v.len() - 1)) as nat)
        } else {
            Seq::empty()
        };
        assert(indents =~= ind);
        assert(raw@ =~= ind + (if sub_node.children_spec().len() > 0 {
            if sub_node.expanded_spec() {
                "[-] "@
            } else {
                "[+] "@
            }
        } else {
            Seq::<char>::empty()
        }) + self.node.line_content(path_v, self.state@.full_name_enabled));
        let bytes = raw.as_str().len();
        let w = width as usize;
        let padding = if bytes < w {
            w - bytes
        } else {
            0
        };
        push_repeat(&mut raw, ' ', padding);
        let range = self.state.get_selected_range();
        let i = index as usize;
        let is_selected = range.start <= i && i < range.end;
        let is_primary_selected = index == self.state.cursor;
        proof {
            let sb = self.state@.selected_bounds();
            assert(is_selected == ((sb.0 as usize) <= (index as usize) < ((sb.1 + 1) as usize)));
            assert(is_primary_selected == (index == self.state@.cursor));
            assert(line_spec(self.state@, *self.node, index as int, width as nat).0 == raw@);
        }
        BrowserLine { text: raw, style: get_selected_style(is_selected, is_primary_selected) }
    }

    /// Whether `lines` can draw an area `area_height` high: the tree has
    /// fewer than `usize::MAX` nodes and renders at most `isize::MAX`
    /// lines, the window starts at a line that is not negative and ends
    /// within `isize`, and the line after the selection is an `isize`.
    pub fn can_draw(&self, area_height: u16) -> (r: bool)
        ensures
            r == (self.node().node_count() < usize::MAX && self.node().render_len() <= isize::MAX
                && 0 <= self.state()@.scroll && self.state()@.scroll + area_height <= isize::MAX
                && self.state()@.selected_bounds().1 < isize::MAX),
    {
        let count = self.node.count_nodes_upto(usize::MAX - 1);
        if count == usize::MAX {
            return false;
        }
        proof {
            lemma_render_len_le_node_count(*self.node);
        }
        let render_len = self.node.get_render_len();
        if render_len > isize::MAX as usize {
            return false;
        }
        if self.state.scroll < 0 || self.state.scroll.checked_add(area_height as isize).is_none() {
            return false;
        }
        self.state.selection_end_in_range()
    }

    /// The lines to draw in an area `width` wide and `area_height` high
    /// (see `browser_lines`).
    pub fn lines(&self, width: u16, area_height: u16) -> (r: Option<Vec<BrowserLine>>)
        requires
            self.node().node_count() <= usize::MAX,
            self.node().render_len() <= isize::MAX,
            0 <= self.state()@.scroll,
            self.state()@.scroll + area_height <= isize::MAX,
            self.state()@.selected_bounds().1 < isize::MAX,
        ensures
            match browser_lines(self.state()@, *self.node(), width as nat, area_height as int) {
                Some(lines) => r matches Some(v) && lines_view(v@) == lines,
                None => r is None,
            },
    {
        proof {
            self.state.lemma_in_range();
        }
        let bounds = self.state.bounds_enabled;
        if bounds && area_height < 2 {
            return None;
        }
        let height: isize = if bounds {
            area_height as isize - 2
        } else {
            area_height as isize
        };
        let count: isize = if bounds {
            height - 2
        } else {
            height
        };
        let scroll = self.state.scroll;
        let mut out: Vec<BrowserLine> = Vec::new();
        if bounds {
            let mut text = String::new();
            push_repeat(&mut text, if scroll > 0 { '↑' } else { ' ' }, width as usize);
            out.push(BrowserLine { text, style: LineStyle::Plain });
        }
        let ghost top = lines_view(out@);
        let mut k: isize = 0;
        while k < count
            invariant
                0 <= k,
                k <= (if count > 0 {
                    count
                } else {
                    0
                }),
                count <= area_height,
                scroll == self.state@.scroll,
                0 <= scroll,
                scroll + area_height <= isize::MAX,
                self.node.node_count() <= usize::MAX,
                self.state@.selected_bounds().1 < isize::MAX,
                self.state@.in_range(),
                lines_view(out@) == top + Seq::new(
                    k as nat,
                    |j: int| line_spec(self.state@, *self.node, scroll + j, width as nat),
                ),
            decreases count - k,
        {
            let line = self.line(scroll + k, width);
            let ghost before = out@;
            out.push(line);
            k += 1;
            assert(lines_view(out@) =~= top + Seq::new(
                k as nat,
                |j: int| line_spec(self.state@, *self.node, scroll + j, width as nat),
            )) by {
                assert(lines_view(out@) =~= lines_view(before).push(
                    line_spec(self.state@, *self.node, scroll + k - 1, width as nat),
                ));
            }
        }
        let ghost body = lines_view(out@);
        if bounds {
            let len = self.node.get_render_len() as isize;
            let mut text = String::new();
            push_repeat(&mut text, if len - scroll > height - 2 { '↓' } else { ' ' }, width as usize);
            out.push(BrowserLine { text, style: LineStyle::Plain });
            assert(lines_view(out@) =~= body.push(lines_view(out@).last()));
        }
        proof {
            let n = if count > 0 { count as int } else { 0 };
            assert(k == n);
            let spec = browser_lines(self.state@, *self.node, width as nat, area_height as int);
            assert(spec is Some);
            assert(lines_view(out@) =~= spec->0);
        }
        Some(out)
    }
}

} // verus!
