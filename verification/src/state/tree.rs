use vstd::prelude::*;

verus! {

/// A value with child nodes that are shown below it while it is expanded.
pub struct TreeNode<T> {
    value: T,
    expanded: bool,
    nodes: TreeNodes<T>,
}

/// A sequence of sibling tree nodes.
pub struct TreeNodes<T> {
    nodes: Vec<TreeNode<T>>,
}

/// Lines rendered by a sequence of sibling nodes.
pub closed spec fn seq_rendered<T>(s: Seq<TreeNode<T>>) -> nat
    decreases s,
{
    if s.len() == 0 {
        0
    } else {
        seq_rendered(s.drop_last()) + s.last().rendered()
    }
}

/// Nodes in a sequence of sibling subtrees.
pub closed spec fn seq_node_count<T>(s: Seq<TreeNode<T>>) -> nat
    decreases s,
{
    if s.len() == 0 {
        0
    } else {
        seq_node_count(s.drop_last()) + s.last().node_count()
    }
}

/// Path (child indices) of the node on line `off` of a sequence of sibling
/// nodes, counted from the `k`-th sibling; `None` when there is no such line.
pub closed spec fn seq_select_path<T>(s: Seq<TreeNode<T>>, k: int, off: int) -> Option<Seq<usize>>
    decreases s, s.len() - k,
{
    if k < 0 || k >= s.len() {
        None
    } else if off < s[k].rendered() {
        match s[k].select_path(off) {
            Some(p) => Some(seq![k as usize] + p),
            None => None,
        }
    } else {
        seq_select_path(s, k + 1, off - s[k].rendered())
    }
}

/// The node that `p` leads to from the siblings `s`.
pub closed spec fn seq_at_path<T>(s: Seq<TreeNode<T>>, p: Seq<usize>) -> TreeNode<T> {
    s[p[0] as int].at_path(p.drop_first())
}

/// The values of the nodes that `p` passes through before its last node.
pub closed spec fn seq_parents_along<T>(s: Seq<TreeNode<T>>, p: Seq<usize>) -> Seq<T> {
    s[p[0] as int].parents_along(p.drop_first())
}

/// `news` is `s` with the node at `p` replaced by `sub`, all else unchanged.
pub closed spec fn seq_replaced<T>(
    s: Seq<TreeNode<T>>,
    news: Seq<TreeNode<T>>,
    p: Seq<usize>,
    sub: TreeNode<T>,
) -> bool {
    &&& p.len() > 0
    &&& p[0] < s.len()
    &&& news.len() == s.len()
    &&& forall|j: int| 0 <= j < s.len() && j != p[0] ==> #[trigger] news[j] == s[j]
    &&& s[p[0] as int].replaced(news[p[0] as int], p.drop_first(), sub)
}

impl<T> TreeNode<T> {
    /// Path of the node on line `off` of this node's rendering (the empty
    /// path for the node itself); `None` when there is no such line.
    pub closed spec fn select_path(self, off: int) -> Option<Seq<usize>>
        decreases self, 0int,
    {
        if off < 0 {
            None
        } else if off == 0 {
            Some(Seq::empty())
        } else if self.expanded {
            seq_select_path(self.nodes.nodes@, 0, off - 1)
        } else {
            None
        }
    }

    /// The node that `p` leads to.
    pub closed spec fn at_path(self, p: Seq<usize>) -> TreeNode<T>
        decreases p.len(),
    {
        if p.len() == 0 {
            self
        } else {
            self.nodes.nodes@[p[0] as int].at_path(p.drop_first())
        }
    }

    /// The values of the nodes that `p` passes through before its last
    /// node, this node's own value first.
    pub closed spec fn parents_along(self, p: Seq<usize>) -> Seq<T>
        decreases p.len(),
    {
        if p.len() == 0 {
            Seq::empty()
        } else {
            seq![self.value] + self.nodes.nodes@[p[0] as int].parents_along(p.drop_first())
        }
    }

    /// `new` is `self` with the node at `p` replaced by `sub`.
    pub closed spec fn replaced(self, new: TreeNode<T>, p: Seq<usize>, sub: TreeNode<T>) -> bool
        decreases p.len(),
    {
        if p.len() == 0 {
            new == sub
        } else {
            &&& new.value == self.value
            &&& new.expanded == self.expanded
            &&& p[0] < self.nodes.nodes@.len()
            &&& new.nodes.nodes@.len() == self.nodes.nodes@.len()
            &&& forall|j: int|
                0 <= j < self.nodes.nodes@.len() && j != p[0] ==> #[trigger] new.nodes.nodes@[j]
                    == self.nodes.nodes@[j]
            &&& self.nodes.nodes@[p[0] as int].replaced(
                new.nodes.nodes@[p[0] as int],
                p.drop_first(),
                sub,
            )
        }
    }

    pub closed spec fn value_spec(self) -> T {
        self.value
    }

    pub closed spec fn expanded_spec(self) -> bool {
        self.expanded
    }

    pub closed spec fn children_spec(self) -> Seq<TreeNode<T>> {
        self.nodes.nodes@
    }

    /// Lines this node renders: itself, then its children while expanded.
    pub closed spec fn rendered(self) -> nat
        decreases self,
    {
        1 + if self.expanded {
            seq_rendered(self.nodes.nodes@)
        } else {
            0
        }
    }

    /// Nodes in this subtree; a tree held in memory has at most
    /// `isize::MAX` of them.
    pub closed spec fn node_count(self) -> nat
        decreases self,
    {
        1 + seq_node_count(self.nodes.nodes@)
    }

    pub fn new(value: T) -> (r: Self)
        ensures
            r.value_spec() == value,
            !r.expanded_spec(),
            r.children_spec() == Seq::<TreeNode<T>>::empty(),
    {
        Self { value: value, expanded: false, nodes: TreeNodes::new() }
    }

    pub fn from_existing(value: T, expanded: bool, nodes: TreeNodes<T>) -> (r: Self)
        ensures
            r.value_spec() == value,
            r.expanded_spec() == expanded,
            r.children_spec() == nodes@,
    {
        Self { value: value, expanded: expanded, nodes: nodes }
    }

    pub fn rendered_len(&self) -> (r: usize)
        requires
            self.rendered() <= usize::MAX,
        ensures
            r == self.rendered(),
        decreases self,
    {
        let mut len: usize = 1;
        if self.expanded {
            let mut i: usize = 0;
            while i < self.nodes.nodes.len()
                invariant
                    self.expanded,
                    i <= self.nodes.nodes@.len(),
                    self.rendered() <= usize::MAX,
                    len == 1 + seq_rendered(self.nodes.nodes@.take(i as int)),
                decreases self.nodes.nodes@.len() - i,
            {
                proof {
                    lemma_seq_rendered_take(self.nodes.nodes@, i as int);
                    lemma_seq_rendered_prefix(self.nodes.nodes@, i as int + 1);
                    assert(decreases_to!(self => self.nodes.nodes));
                }
                len += self.nodes.nodes[i].rendered_len();
                i += 1;
            }
            assert(self.nodes.nodes@.take(i as int) =~= self.nodes.nodes@);
        }
        len
    }

    pub fn get_nodes(&self) -> (r: &TreeNodes<T>)
        ensures
            r@ == self.children_spec(),
    {
        &self.nodes
    }

    pub fn get_nodes_mut(&mut self) -> (r: &mut TreeNodes<T>)
        ensures
            r@ == old(self).children_spec(),
            final(self).children_spec() == final(r)@,
            final(self).value_spec() == old(self).value_spec(),
            final(self).expanded_spec() == old(self).expanded_spec(),
    {
        &mut self.nodes
    }

    pub fn get_value(&self) -> (r: &T)
        ensures
            *r == self.value_spec(),
    {
        &self.value
    }

    pub fn get_value_mut(&mut self) -> (r: &mut T)
        ensures
            *r == old(self).value_spec(),
            final(self).value_spec() == *final(r),
            final(self).children_spec() == old(self).children_spec(),
            final(self).expanded_spec() == old(self).expanded_spec(),
    {
        &mut self.value
    }

    pub fn is_expanded(&self) -> (r: bool)
        ensures
            r == self.expanded_spec(),
    {
        self.expanded
    }

    pub fn set_expanded(&mut self, expanded: bool)
        ensures
            final(self).expanded_spec() == expanded,
            final(self).value_spec() == old(self).value_spec(),
            final(self).children_spec() == old(self).children_spec(),
    {
        self.expanded = expanded;
    }
}

impl<T: Clone> TreeNode<T> {
    /// Finds the node on line `*select_offset` of this node's rendering.
    /// Returns the values of the nodes above it (this node's first) and the
    /// node itself; the offset ends at -1 when a node is found, and otherwise
    /// is lowered by the lines rendered (when it was not negative).
    pub fn get_selected_mut(&mut self, select_offset: &mut isize) -> (r: Option<
        (Vec<T>, &mut TreeNode<T>),
    >)
        requires
            old(self).node_count() <= isize::MAX,
        ensures
            match r {
                Some((parents, n)) => {
                    let p = old(self).select_path(*old(select_offset) as int)->0;
                    &&& old(self).select_path(*old(select_offset) as int) is Some
                    &&& *n == old(self).at_path(p)
                    &&& old(self).replaced(*final(self), p, *final(n))
                    &&& parents@.len() == old(self).parents_along(p).len()
                    &&& forall|k: int|
                        0 <= k < parents@.len() ==> cloned::<T>(
                            old(self).parents_along(p)[k],
                            #[trigger] parents@[k],
                        )
                    &&& *final(select_offset) == -1
                },
                None => {
                    &&& old(self).select_path(*old(select_offset) as int) is None
                    &&& *final(self) == *old(self)
                    &&& *final(select_offset) == if *old(select_offset) < 0 {
                        *old(select_offset) as int
                    } else {
                        *old(select_offset) - old(self).rendered()
                    }
                },
            },
        decreases *old(self),
    {
        proof {
            lemma_rendered_le_node_count(*self);
        }
        if *select_offset == 0 {
            *select_offset -= 1;
            return Some((Vec::new(), self));
        } else if *select_offset >= 1 {
            *select_offset -= 1;
        } else {
            return None;
        }
        if self.expanded {
            proof {
                assert(decreases_to!(*self => self.nodes));
                lemma_seq_node_count_le(self.nodes.nodes@);
            }
            match self.nodes.get_selected_mut(select_offset) {
                Some((mut parents, node)) => {
                    parents.insert(0, self.value.clone());
                    return Some((parents, node));
                },
                None => {},
            }
        }
        None
    }
}

impl<T: Clone> TreeNodes<T> {
    /// Finds the node on line `*select_offset` of these siblings' rendering;
    /// see `TreeNode::get_selected_mut`.
    pub fn get_selected_mut(&mut self, select_offset: &mut isize) -> (r: Option<
        (Vec<T>, &mut TreeNode<T>),
    >)
        requires
            old(self).node_count() <= isize::MAX,
        ensures
            match r {
                Some((parents, n)) => {
                    let p = seq_select_path(old(self)@, 0, *old(select_offset) as int)->0;
                    &&& seq_select_path(old(self)@, 0, *old(select_offset) as int) is Some
                    &&& *n == seq_at_path(old(self)@, p)
                    &&& seq_replaced(old(self)@, final(self)@, p, *final(n))
                    &&& parents@.len() == seq_parents_along(old(self)@, p).len()
                    &&& forall|k: int|
                        0 <= k < parents@.len() ==> cloned::<T>(
                            seq_parents_along(old(self)@, p)[k],
                            #[trigger] parents@[k],
                        )
                    &&& *final(select_offset) == -1
                },
                None => {
                    &&& seq_select_path(old(self)@, 0, *old(select_offset) as int) is None
                    &&& *final(self) == *old(self)
                    &&& *final(select_offset) == if *old(select_offset) < 0 {
                        *old(select_offset) as int
                    } else {
                        *old(select_offset) - old(self).rendered()
                    }
                },
            },
        decreases *old(self),
    {
        let ghost s = self.nodes@;
        let ghost off0 = *select_offset as int;
        let mut i: usize = 0;
        let mut found = false;
        proof {
            lemma_seq_rendered_le_node_count(s);
            assert(s.take(s.len() as int) =~= s);
        }
        while i < self.nodes.len()
            invariant_except_break
                s.take(s.len() as int) == s,
                *self == *old(self),
                self.nodes@ == s,
                i <= s.len(),
                seq_node_count(s) <= isize::MAX,
                seq_rendered(s) <= seq_node_count(s),
                seq_select_path(s, 0, off0) == seq_select_path(s, i as int, *select_offset as int),
                off0 < 0 ==> i == 0 && *select_offset == off0,
                off0 >= 0 ==> *select_offset == off0 - seq_rendered(s.take(i as int))
                    && *select_offset >= 0,
                !found,
            ensures
                *self == *old(self),
                self.nodes@ == s,
                seq_node_count(s) <= isize::MAX,
                seq_select_path(s, 0, off0) == seq_select_path(s, i as int, *select_offset as int),
                found ==> i < s.len() && 0 <= *select_offset < s[i as int].rendered(),
                !found && off0 < 0 ==> *select_offset == off0,
                !found && off0 >= 0 ==> i == s.len() && *select_offset == off0 - seq_rendered(s),
            decreases s.len() - i,
        {
            if *select_offset < 0 {
                break;
            }
            proof {
                lemma_seq_node_count_elem(s, i as int);
                lemma_rendered_le_node_count(s[i as int]);
                lemma_seq_rendered_take(s, i as int);
                lemma_seq_rendered_prefix(s, i as int + 1);
            }
            let len = self.nodes[i].rendered_len();
            if (*select_offset as usize) < len {
                found = true;
                break;
            }
            *select_offset -= len as isize;
            i += 1;
            proof {
                if i == s.len() {
                    assert(s.take(i as int) =~= s);
                }
            }
        }
        if !found {
            proof {
                if off0 < 0 {
                    lemma_seq_select_negative(s, 0, off0);
                } else if s.len() == 0 {
                    assert(s.take(0) =~= s);
                }
            }
            return None;
        }
        proof {
            assert(decreases_to!(*self => self.nodes));
            assert(decreases_to!(self.nodes => self.nodes[i as int]));
            lemma_select_in_range(s[i as int], *select_offset as int);
            lemma_seq_node_count_elem(s, i as int);
        }
        let ghost o = *select_offset as int;
        let res = self.nodes[i].get_selected_mut(select_offset);
        match res {
            Some((parents, node)) => {
                proof {
                    let p = s[i as int].select_path(o)->0;
                    let q = seq![i as usize] + p;
                    assert(q.drop_first() =~= p);
                    assert(seq_select_path(s, 0, off0) == Some(q));
                }
                Some((parents, node))
            },
            None => {
                proof {
                    assert(false);
                }
                None
            },
        }
    }
}

impl<T> View for TreeNodes<T> {
    type V = Seq<TreeNode<T>>;

    closed spec fn view(&self) -> Seq<TreeNode<T>> {
        self.nodes@
    }
}

impl<T> TreeNodes<T> {
    pub closed spec fn rendered(self) -> nat {
        seq_rendered(self.nodes@)
    }

    pub closed spec fn node_count(self) -> nat {
        seq_node_count(self.nodes@)
    }

    pub proof fn lemma_rendered_le_node_count(&self)
        ensures
            self.rendered() <= self.node_count(),
    {
        lemma_seq_rendered_le_node_count(self.nodes@);
    }

    pub fn new() -> (r: Self)
        ensures
            r@ == Seq::<TreeNode<T>>::empty(),
    {
        Self { nodes: Vec::new() }
    }

    pub fn rendered_len(&self) -> (r: usize)
        requires
            self.rendered() <= usize::MAX,
        ensures
            r == self.rendered(),
    {
        let mut len: usize = 0;
        let mut i: usize = 0;
        while i < self.nodes.len()
            invariant
                i <= self.nodes@.len(),
                seq_rendered(self.nodes@) <= usize::MAX,
                len == seq_rendered(self.nodes@.take(i as int)),
            decreases self.nodes@.len() - i,
        {
            proof {
                lemma_seq_rendered_take(self.nodes@, i as int);
                lemma_seq_rendered_prefix(self.nodes@, i as int + 1);
            }
            len += self.nodes[i].rendered_len();
            i += 1;
        }
        assert(self.nodes@.take(i as int) =~= self.nodes@);
        len
    }

    pub fn get_nodes(&self) -> (r: &Vec<TreeNode<T>>)
        ensures
            r@ == self@,
    {
        &self.nodes
    }

    pub fn get_nodes_mut(&mut self) -> (r: &mut Vec<TreeNode<T>>)
        ensures
            r@ == old(self)@,
            final(self)@ == final(r)@,
    {
        &mut self.nodes
    }

    pub fn into_nodes(self) -> (r: Vec<TreeNode<T>>)
        ensures
            r@ == self@,
    {
        self.nodes
    }

    pub fn from(nodes: Vec<TreeNode<T>>) -> (r: Self)
        ensures
            r@ == nodes@,
    {
        Self { nodes: nodes }
    }
}

/// The lines of a list of siblings: those of all but the last, and the last's.
pub proof fn lemma_seq_rendered_unfold<T>(s: Seq<TreeNode<T>>)
    ensures
        s.len() == 0 ==> seq_rendered(s) == 0,
        s.len() > 0 ==> seq_rendered(s) == seq_rendered(s.drop_last()) + s.last().rendered(),
{
}

/// The nodes of a list of siblings: those of all but the last, and the last's.
pub proof fn lemma_seq_node_count_unfold<T>(s: Seq<TreeNode<T>>)
    ensures
        s.len() == 0 ==> seq_node_count(s) == 0,
        s.len() > 0 ==> seq_node_count(s) == seq_node_count(s.drop_last()) + s.last().node_count(),
{
}

/// One step of the walk that finds the path of a line among siblings.
pub proof fn lemma_seq_select_path_unfold<T>(s: Seq<TreeNode<T>>, k: int, off: int)
    ensures
        seq_select_path(s, k, off) == (if k < 0 || k >= s.len() {
            None
        } else if off < s[k].rendered() {
            match s[k].select_path(off) {
                Some(p) => Some(seq![k as usize] + p),
                None => None,
            }
        } else {
            seq_select_path(s, k + 1, off - s[k].rendered())
        }),
{
}

/// The node at a path from a list of siblings is the node at the rest of the
/// path from the sibling that the first index names.
pub proof fn lemma_seq_at_path_unfold<T>(s: Seq<TreeNode<T>>, p: Seq<usize>)
    ensures
        seq_at_path(s, p) == s[p[0] as int].at_path(p.drop_first()),
{
}

/// The parents along a path from a list of siblings are those along the rest
/// of the path from the sibling that the first index names.
pub proof fn lemma_seq_parents_along_unfold<T>(s: Seq<TreeNode<T>>, p: Seq<usize>)
    ensures
        seq_parents_along(s, p) == s[p[0] as int].parents_along(p.drop_first()),
{
}

/// What it takes for `news` to be `s` with the node at `p` replaced by `sub`.
pub proof fn lemma_seq_replaced_unfold<T>(
    s: Seq<TreeNode<T>>,
    news: Seq<TreeNode<T>>,
    p: Seq<usize>,
    sub: TreeNode<T>,
)
    ensures
        seq_replaced(s, news, p, sub) == {
            &&& p.len() > 0
            &&& p[0] < s.len()
            &&& news.len() == s.len()
            &&& forall|j: int| 0 <= j < s.len() && j != p[0] ==> #[trigger] news[j] == s[j]
            &&& s[p[0] as int].replaced(news[p[0] as int], p.drop_first(), sub)
        },
{
}

impl<T> TreeNode<T> {
    /// The path of a line: none before the node, the empty path for the node
    /// itself, and below it the path found among its children while it is
    /// expanded.
    pub proof fn lemma_select_path_unfold(self, off: int)
        ensures
            self.select_path(off) == (if off < 0 {
                None
            } else if off == 0 {
                Some(Seq::<usize>::empty())
            } else if self.expanded_spec() {
                seq_select_path(self.children_spec(), 0, off - 1)
            } else {
                None
            }),
    {
    }

    /// The node at the empty path is the node itself; otherwise it is the
    /// node at the rest of the path from the child that the first index
    /// names.
    pub proof fn lemma_at_path_unfold(self, p: Seq<usize>)
        ensures
            self.at_path(p) == (if p.len() == 0 {
                self
            } else {
                self.children_spec()[p[0] as int].at_path(p.drop_first())
            }),
    {
    }

    /// The parents along a path: none for the empty path; otherwise this
    /// node's value, then those along the rest of the path.
    pub proof fn lemma_parents_along_unfold(self, p: Seq<usize>)
        ensures
            self.parents_along(p) == (if p.len() == 0 {
                Seq::<T>::empty()
            } else {
                seq![self.value_spec()] + self.children_spec()[p[0] as int].parents_along(
                    p.drop_first(),
                )
            }),
    {
    }

    /// What it takes for `new` to be this node with the node at `p`
    /// replaced by `sub`.
    pub proof fn lemma_replaced_unfold(self, new: TreeNode<T>, p: Seq<usize>, sub: TreeNode<T>)
        ensures
            self.replaced(new, p, sub) == (if p.len() == 0 {
                new == sub
            } else {
                &&& new.value_spec() == self.value_spec()
                &&& new.expanded_spec() == self.expanded_spec()
                &&& p[0] < self.children_spec().len()
                &&& new.children_spec().len() == self.children_spec().len()
                &&& forall|j: int|
                    0 <= j < self.children_spec().len() && j != p[0] ==> #[trigger] new.children_spec()[j]
                        == self.children_spec()[j]
                &&& self.children_spec()[p[0] as int].replaced(
                    new.children_spec()[p[0] as int],
                    p.drop_first(),
                    sub,
                )
            }),
    {
    }

    /// A node renders its own line, then its children's lines while expanded.
    pub proof fn lemma_rendered_unfold(self)
        ensures
            self.rendered() == 1 + (if self.expanded_spec() {
                seq_rendered(self.children_spec())
            } else {
                0
            }),
    {
    }

    /// A node counts itself and the nodes of its children.
    pub proof fn lemma_node_count_unfold(self)
        ensures
            self.node_count() == 1 + seq_node_count(self.children_spec()),
    {
    }
}

impl<T> TreeNodes<T> {
    /// A list of siblings renders and counts as the sequence it holds.
    pub proof fn lemma_unfold(self)
        ensures
            self.rendered() == seq_rendered(self@),
            self.node_count() == seq_node_count(self@),
    {
    }
}

proof fn lemma_seq_node_count_elem<T>(s: Seq<TreeNode<T>>, i: int)
    requires
        0 <= i < s.len(),
    ensures
        s[i].node_count() <= seq_node_count(s),
    decreases s.len(),
{
    if i < s.len() - 1 {
        lemma_seq_node_count_elem(s.drop_last(), i);
    }
}

proof fn lemma_seq_node_count_le<T>(s: Seq<TreeNode<T>>)
    ensures
        seq_node_count(s) <= seq_node_count(s),
{
}

/// There is no line at a negative offset.
proof fn lemma_seq_select_negative<T>(s: Seq<TreeNode<T>>, k: int, off: int)
    requires
        off < 0,
    ensures
        seq_select_path(s, k, off) is None,
    decreases s.len() - k,
{
    if 0 <= k < s.len() {
        assert(off < s[k].rendered());
        assert(s[k].select_path(off) is None);
    }
}

/// Every line of a node's rendering is found.
proof fn lemma_select_in_range<T>(n: TreeNode<T>, off: int)
    requires
        0 <= off < n.rendered(),
    ensures
        n.select_path(off) is Some,
    decreases n,
{
    if off > 0 {
        assert(decreases_to!(n => n.nodes.nodes));
        assert(n.nodes.nodes@.skip(0) =~= n.nodes.nodes@);
        lemma_seq_select_in_range(n.nodes.nodes@, 0, off - 1);
    }
}

proof fn lemma_seq_select_in_range<T>(s: Seq<TreeNode<T>>, k: int, off: int)
    requires
        0 <= k <= s.len(),
        0 <= off < seq_rendered(s.skip(k)),
    ensures
        seq_select_path(s, k, off) is Some,
    decreases s, s.len() - k,
{
    if k < s.len() {
        assert(seq_rendered(s.skip(k)) == s[k].rendered() + seq_rendered(s.skip(k + 1))) by {
            lemma_seq_rendered_first(s.skip(k));
            assert(s.skip(k).drop_first() =~= s.skip(k + 1));
        }
        if off < s[k].rendered() {
            lemma_select_in_range(s[k], off);
        } else {
            lemma_seq_select_in_range(s, k + 1, off - s[k].rendered());
        }
    } else {
        assert(s.skip(k) =~= Seq::<TreeNode<T>>::empty());
    }
}

/// The lines of siblings are those of the first one, then the rest.
proof fn lemma_seq_rendered_first<T>(s: Seq<TreeNode<T>>)
    requires
        s.len() > 0,
    ensures
        seq_rendered(s) == s[0].rendered() + seq_rendered(s.drop_first()),
    decreases s.len(),
{
    if s.len() > 1 {
        lemma_seq_rendered_first(s.drop_last());
        assert(s.drop_last().drop_first() =~= s.drop_first().drop_last());
    } else {
        assert(s.drop_first() =~= Seq::<TreeNode<T>>::empty());
        assert(s.drop_last() =~= Seq::<TreeNode<T>>::empty());
    }
}

proof fn lemma_seq_rendered_take<T>(s: Seq<TreeNode<T>>, i: int)
    requires
        0 <= i < s.len(),
    ensures
        seq_rendered(s.take(i + 1)) == seq_rendered(s.take(i)) + s[i].rendered(),
{
    assert(s.take(i + 1).drop_last() =~= s.take(i));
}

proof fn lemma_seq_rendered_prefix<T>(s: Seq<TreeNode<T>>, i: int)
    requires
        0 <= i <= s.len(),
    ensures
        seq_rendered(s.take(i)) <= seq_rendered(s),
    decreases s.len() - i,
{
    if i < s.len() {
        lemma_seq_rendered_take(s, i);
        lemma_seq_rendered_prefix(s, i + 1);
    } else {
        assert(s.take(i) =~= s);
    }
}

proof fn lemma_rendered_le_node_count<T>(n: TreeNode<T>)
    ensures
        n.rendered() <= n.node_count(),
    decreases n,
{
    assert(decreases_to!(n => n.nodes.nodes));
    lemma_seq_rendered_le_node_count(n.nodes.nodes@);
}

proof fn lemma_seq_rendered_le_node_count<T>(s: Seq<TreeNode<T>>)
    ensures
        seq_rendered(s) <= seq_node_count(s),
    decreases s,
{
    if s.len() > 0 {
        lemma_seq_rendered_le_node_count(s.drop_last());
        lemma_rendered_le_node_count(s.last());
    }
}

} // verus!
