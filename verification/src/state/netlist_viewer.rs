use std::cmp::Ordering;

use vstd::prelude::*;

use crate::input::{Key, KeyInput, MouseKind};
use crate::state::browsing::{
    inner_height, list_mouse, list_ok, mouse_spec, nav_delta, navigate, node_limit, node_limit_value,
    resize_list, toggle_full_name, toggle_selected, toggled_at,
};
use crate::state::filter::{construct_filter, filter_cuttable, split_sections, classify_section, BrowserFilterSection, BrowserFilterSectionView};
use crate::state::signal_viewer::{VariableInfo, VariableView};
use crate::text::push_str;
use crate::tui_layout::pos::Rect;
use crate::widgets::browser::{
    labels, lemma_children_decrease, lemma_paths_in_in_range, paths_view, Browser, BrowserEntry, BrowserNode,
    BrowserState, BrowserStateView, lemma_node_count_unfold, lemma_seq_node_count_unfold,
};

verus! {

/// An entry of the netlist: a scope of the design or a variable in it.
#[derive(Debug)]
pub enum NetlistNode {
    Scope(String),
    Variable(VariableInfo),
}

impl BrowserEntry for NetlistNode {
    open spec fn label_spec(&self) -> Seq<char> {
        match self {
            NetlistNode::Scope(name) => name@,
            NetlistNode::Variable(variable) => variable.label@,
        }
    }

    fn label(&self) -> (r: String) {
        match self {
            NetlistNode::Scope(name) => name.clone(),
            NetlistNode::Variable(variable) => variable.label.clone(),
        }
    }
}

impl Default for NetlistNode {
    fn default() -> (r: Self)
        ensures
            r.label_spec() == Seq::<char>::empty(),
    {
        NetlistNode::Scope(String::new())
    }
}

/// A scope of a waveform file: its name, the scopes inside it and its
/// variables.
#[derive(Debug)]
pub struct ScopeInfo {
    pub name: String,
    pub scopes: Vec<ScopeInfo>,
    pub variables: Vec<VariableInfo>,
}

/// The order `alphanumeric_sort::compare_str` puts two strings in: -1, 0 or
/// 1 for less, equal and greater.
pub uninterp spec fn alphanumeric_order(a: Seq<char>, b: Seq<char>) -> int;

/// `alphanumeric_sort::compare_str`: compares two strings the way people
/// sort names, runs of digits by their value. Its result, as -1, 0 or 1, is
/// named `alphanumeric_order`.
#[verifier::external_body]
fn compare_str(a: &str, b: &str) -> (r: i8)
    ensures
        r == alphanumeric_order(a@, b@),
{
    match alphanumeric_sort::compare_str(a, b) {
        Ordering::Less => -1,
        Ordering::Equal => 0,
        Ordering::Greater => 1,
    }
}

/// Where `key` goes among `keys` in a stable sort: before the first key
/// that orders after it.
pub open spec fn insert_pos(keys: Seq<Seq<char>>, key: Seq<char>) -> int
    decreases keys.len(),
{
    if keys.len() == 0 {
        0
    } else if alphanumeric_order(keys[0], key) > 0 {
        0
    } else {
        1 + insert_pos(keys.drop_first(), key)
    }
}

/// The order in which a stable insertion sort by `alphanumeric_order` puts
/// `keys`: the index of the key that goes first, then the next, and so on.
pub open spec fn sort_perm(keys: Seq<Seq<char>>) -> Seq<int>
    decreases keys.len(),
{
    if keys.len() == 0 {
        Seq::empty()
    } else {
        let p = sort_perm(keys.drop_last());
        p.insert(insert_pos(p.map_values(|k: int| keys[k]), keys.last()), keys.len() - 1)
    }
}

proof fn lemma_insert_pos_bound(keys: Seq<Seq<char>>, key: Seq<char>)
    ensures
        0 <= insert_pos(keys, key) <= keys.len(),
    decreases keys.len(),
{
    if keys.len() > 0 {
        lemma_insert_pos_bound(keys.drop_first(), key);
    }
}

/// The sort order is an arrangement of the indices of the keys.
proof fn lemma_sort_perm_range(keys: Seq<Seq<char>>)
    ensures
        sort_perm(keys).len() == keys.len(),
        forall|j: int| 0 <= j < keys.len() ==> 0 <= #[trigger] sort_perm(keys)[j] < keys.len(),
    decreases keys.len(),
{
    if keys.len() > 0 {
        let p = sort_perm(keys.drop_last());
        lemma_sort_perm_range(keys.drop_last());
        let ks = p.map_values(|k: int| keys[k]);
        lemma_insert_pos_bound(ks, keys.last());
        let pos = insert_pos(ks, keys.last());
        p.insert_ensures(pos, keys.len() - 1);
        assert forall|j: int| 0 <= j < keys.len() implies 0 <= #[trigger] sort_perm(keys)[j] < keys.len() by {
            if j < pos {
            } else if j == pos {
            } else {
                assert(p.insert(pos, keys.len() - 1)[j] == p[j - 1]);
            }
        }
    }
}

pub open spec fn key_strings(v: Seq<String>) -> Seq<Seq<char>> {
    v.map_values(|s: String| s@)
}

/// Where `key` goes among `keys` in a stable sort.
fn insert_position(keys: &Vec<String>, key: &String) -> (r: usize)
    ensures
        r == insert_pos(key_strings(keys@), key@),
        r <= keys@.len(),
{
    let ghost ks = key_strings(keys@);
    let mut j: usize = 0;
    proof {
        assert(ks.skip(0) =~= ks);
    }
    while j < keys.len() && compare_str(keys[j].as_str(), key.as_str()) <= 0
        invariant
            j <= keys@.len(),
            ks == key_strings(keys@),
            insert_pos(ks, key@) == j + insert_pos(ks.skip(j as int), key@),
        decreases keys@.len() - j,
    {
        proof {
            assert(ks.skip(j as int)[0] == keys@[j as int]@);
            assert(ks.skip(j as int).drop_first() =~= ks.skip(j + 1));
        }
        j += 1;
    }
    proof {
        if j < keys@.len() {
            assert(ks.skip(j as int)[0] == keys@[j as int]@);
        } else {
            assert(ks.skip(j as int).len() == 0);
        }
    }
    j
}

/// The label shown for a node: its entry's label, or nothing.
pub open spec fn node_label(b: BrowserNode<NetlistNode>) -> Seq<char> {
    match b.entry_spec() {
        Some(e) => e.label_spec(),
        None => Seq::empty(),
    }
}

/// The first of `nodes` labelled `name`.
pub open spec fn first_labelled(nodes: Seq<BrowserNode<NetlistNode>>, name: Seq<char>) -> Option<int>
    decreases nodes.len(),
{
    if nodes.len() == 0 {
        None
    } else {
        match first_labelled(nodes.drop_last(), name) {
            Some(i) => Some(i),
            None => if node_label(nodes.last()) == name {
                Some(nodes.len() - 1)
            } else {
                None
            },
        }
    }
}

/// The old node that a new scope called `name` at `expected_index` takes its
/// expansion and children from: the node at the same index when its label
/// matches, else the first node with that label, else none.
pub open spec fn search_spec(nodes: Seq<BrowserNode<NetlistNode>>, name: Seq<char>, expected_index: int) -> Option<int> {
    if 0 <= expected_index < nodes.len() && node_label(nodes[expected_index]) == name {
        Some(expected_index)
    } else {
        first_labelled(nodes, name)
    }
}

proof fn lemma_first_labelled(nodes: Seq<BrowserNode<NetlistNode>>, name: Seq<char>)
    ensures
        match first_labelled(nodes, name) {
            Some(i) => 0 <= i < nodes.len() && node_label(nodes[i]) == name && forall|j: int|
                0 <= j < i ==> node_label(#[trigger] nodes[j]) != name,
            None => forall|j: int| 0 <= j < nodes.len() ==> node_label(#[trigger] nodes[j]) != name,
        },
    decreases nodes.len(),
{
    if nodes.len() > 0 {
        lemma_first_labelled(nodes.drop_last(), name);
        assert(forall|j: int| 0 <= j < nodes.len() - 1 ==> nodes.drop_last()[j] == nodes[j]);
    }
}

fn node_label_of(node: &BrowserNode<NetlistNode>) -> (r: String)
    ensures
        r@ == node_label(*node),
{
    match node.get_entry() {
        Some(e) => e.label(),
        None => String::new(),
    }
}

/// The index of the old node that a new scope called `name` at
/// `expected_index` takes its state from (see `search_spec`).
pub fn search_nodes(nodes: &Vec<BrowserNode<NetlistNode>>, name: &String, expected_index: usize) -> (r:
    Option<usize>)
    ensures
        match r {
            Some(i) => i < nodes@.len() && search_spec(nodes@, name@, expected_index as int) == Some(
                i as int,
            ),
            None => search_spec(nodes@, name@, expected_index as int) is None,
        },
{
    if expected_index < nodes.len() {
        let label = node_label_of(&nodes[expected_index]);
        if label.eq(name) {
            return Some(expected_index);
        }
    }
    proof {
        lemma_first_labelled(nodes@, name@);
    }
    let mut i: usize = 0;
    while i < nodes.len()
        invariant
            i <= nodes@.len(),
            forall|j: int| 0 <= j < i ==> node_label(#[trigger] nodes@[j]) != name@,
            !(expected_index < nodes@.len() && node_label(nodes@[expected_index as int]) == name@),
            match first_labelled(nodes@, name@) {
                Some(k) => 0 <= k < nodes@.len() && node_label(nodes@[k]) == name@ && forall|j: int|
                    0 <= j < k ==> node_label(#[trigger] nodes@[j]) != name@,
                None => forall|j: int|
                    0 <= j < nodes@.len() ==> node_label(#[trigger] nodes@[j]) != name@,
            },
        decreases nodes.len() - i,
    {
        let label = node_label_of(&nodes[i]);
        if label.eq(name) {
            return Some(i);
        }
        i += 1;
    }
    None
}

proof fn lemma_sort_perm_step(keys: Seq<Seq<char>>, i: int)
    requires
        0 <= i < keys.len(),
    ensures
        ({
            let p = sort_perm(keys.take(i));
            sort_perm(keys.take(i + 1)) == p.insert(
                insert_pos(p.map_values(|k: int| keys[k]), keys[i]),
                i,
            )
        }),
{
    let t = keys.take(i + 1);
    assert(t.drop_last() =~= keys.take(i));
    lemma_sort_perm_range(keys.take(i));
    let p = sort_perm(keys.take(i));
    assert(p.map_values(|k: int| t[k]) =~= p.map_values(|k: int| keys[k]));
}

pub open spec fn scope_names(ss: Seq<ScopeInfo>) -> Seq<Seq<char>> {
    ss.map_values(|s: ScopeInfo| s.name@)
}

pub open spec fn variable_labels(vs: Seq<VariableInfo>) -> Seq<Seq<char>> {
    vs.map_values(|v: VariableInfo| v.label@)
}

/// `b` is the node of the variable `v`: collapsed, without children.
pub open spec fn variable_node_ok(b: BrowserNode<NetlistNode>, v: VariableView) -> bool {
    &&& b.entry_spec() matches Some(NetlistNode::Variable(x)) && x@ == v
    &&& !b.expanded_spec()
    &&& b.children_spec().len() == 0
}

/// `bs` are the nodes of the variables `vs`, in the order of their labels.
pub open spec fn variables_ok(bs: Seq<BrowserNode<NetlistNode>>, vs: Seq<VariableInfo>) -> bool {
    let p = sort_perm(variable_labels(vs));
    &&& bs.len() == vs.len()
    &&& forall|j: int| 0 <= j < bs.len() ==> variable_node_ok(#[trigger] bs[j], vs[p[j]]@)
}

/// `bs` are the nodes of the scopes `ss`, in the order of their names, each
/// built from the matching old node among `old_children`.
pub open spec fn scopes_ok(
    bs: Seq<BrowserNode<NetlistNode>>,
    old_children: Seq<BrowserNode<NetlistNode>>,
    ss: Seq<ScopeInfo>,
) -> bool
    decreases ss, 0nat,
{
    let p = sort_perm(scope_names(ss));
    &&& bs.len() == ss.len()
    &&& forall|j: int|
        0 <= j < bs.len() ==> {
            let k = p[j];
            0 <= k < ss.len() ==> scope_node_ok(#[trigger] bs[j], old_children, ss[k], k)
        }
}

/// `b` is the node of `scope`, the `index`-th scope of its parent, built
/// from the old node that `search_spec` picks among `old_children` (its
/// expansion and children), or from nothing.
pub open spec fn scope_node_ok(
    b: BrowserNode<NetlistNode>,
    old_children: Seq<BrowserNode<NetlistNode>>,
    scope: ScopeInfo,
    index: int,
) -> bool
    decreases scope, 1nat,
{
    match search_spec(old_children, scope.name@, index) {
        Some(i) => generated(b, old_children[i].expanded_spec(), old_children[i].children_spec(), scope),
        None => generated(b, false, Seq::empty(), scope),
    }
}

/// `b` is the node of `scope` with the expansion `expanded`: its children
/// are the nodes of its scopes (sorted by name, each built from the old
/// node of the same name among `old_children`) and then the nodes of its
/// variables (sorted by label).
pub open spec fn generated(
    b: BrowserNode<NetlistNode>,
    expanded: bool,
    old_children: Seq<BrowserNode<NetlistNode>>,
    scope: ScopeInfo,
) -> bool
    decreases scope, 0nat,
{
    let ns = scope.scopes@.len();
    &&& b.entry_spec() == Some(NetlistNode::Scope(scope.name))
    &&& b.expanded_spec() == expanded
    &&& b.children_spec().len() == ns + scope.variables@.len()
    &&& scopes_ok(b.children_spec().take(ns as int), old_children, scope.scopes@)
    &&& variables_ok(b.children_spec().skip(ns as int), scope.variables@)
}

fn generate_variables(variables: &Vec<VariableInfo>) -> (r: Vec<BrowserNode<NetlistNode>>)
    ensures
        variables_ok(r@, variables@),
{
    let ghost labels = variable_labels(variables@);
    let mut out: Vec<BrowserNode<NetlistNode>> = Vec::new();
    let mut keys: Vec<String> = Vec::new();
    let mut i: usize = 0;
    proof {
        assert(labels.take(0) =~= Seq::<Seq<char>>::empty());
    }
    while i < variables.len()
        invariant
            i <= variables@.len(),
            labels == variable_labels(variables@),
            ({
                let p = sort_perm(labels.take(i as int));
                &&& out@.len() == i
                &&& key_strings(keys@) == p.map_values(|k: int| labels[k])
                &&& forall|j: int| 0 <= j < i ==> variable_node_ok(#[trigger] out@[j], variables@[p[j]]@)
            }),
        decreases variables.len() - i,
    {
        let ghost p = sort_perm(labels.take(i as int));
        proof {
            lemma_sort_perm_step(labels, i as int);
            lemma_sort_perm_range(labels.take(i as int));
        }
        let pos = insert_position(&keys, &variables[i].label);
        let node = BrowserNode::new(Some(NetlistNode::Variable(variables[i].clone())));
        let ghost out_before = out@;
        let ghost keys_before = keys@;
        out.insert(pos, node);
        keys.insert(pos, variables[i].label.clone());
        proof {
            let q = p.insert(pos as int, i as int);
            assert(sort_perm(labels.take(i + 1)) == q);
            out_before.insert_ensures(pos as int, node);
            p.insert_ensures(pos as int, i as int);
            keys_before.insert_ensures(pos as int, keys@[pos as int]);
            assert(keys@ == keys_before.insert(pos as int, keys@[pos as int]));
            assert forall|j: int| 0 <= j < i + 1 implies #[trigger] key_strings(keys@)[j] == q.map_values(
                |k: int| labels[k],
            )[j] by {
                if j < pos {
                    assert(keys@[j] == keys_before[j]);
                    assert(q[j] == p[j]);
                    assert(key_strings(keys_before)[j] == p.map_values(|k: int| labels[k])[j]);
                } else if j == pos {
                    assert(q[j] == i);
                } else {
                    assert(keys@[j] == keys_before[j - 1]);
                    assert(q[j] == p[j - 1]);
                    assert(key_strings(keys_before)[j - 1] == p.map_values(|k: int| labels[k])[j - 1]);
                }
            }
            assert(key_strings(keys@) =~= q.map_values(|k: int| labels[k]));
            assert forall|j: int| 0 <= j < i + 1 implies variable_node_ok(#[trigger] out@[j], variables@[q[j]]@) by {
                if j < pos {
                    assert(out@[j] == out_before[j]);
                } else if j > pos {
                    assert(out@[j] == out_before[j - 1]);
                    assert(q[j] == p[j - 1]);
                }
            }
        }
        i += 1;
    }
    proof {
        assert(labels.take(i as int) =~= labels);
    }
    out
}

fn generate_scopes(old_children: &Vec<BrowserNode<NetlistNode>>, scopes: &Vec<ScopeInfo>) -> (r: Vec<
    BrowserNode<NetlistNode>,
>)
    ensures
        scopes_ok(r@, old_children@, scopes@),
    decreases scopes@, 1nat,
{
    let ghost names = scope_names(scopes@);
    let mut out: Vec<BrowserNode<NetlistNode>> = Vec::new();
    let mut keys: Vec<String> = Vec::new();
    let mut i: usize = 0;
    proof {
        assert(names.take(0) =~= Seq::<Seq<char>>::empty());
    }
    while i < scopes.len()
        invariant
            i <= scopes@.len(),
            names == scope_names(scopes@),
            ({
                let p = sort_perm(names.take(i as int));
                &&& out@.len() == i
                &&& key_strings(keys@) == p.map_values(|k: int| names[k])
                &&& forall|j: int|
                    0 <= j < i ==> scope_node_ok(#[trigger] out@[j], old_children@, scopes@[p[j]], p[j])
            }),
        decreases scopes.len() - i,
    {
        let ghost p = sort_perm(names.take(i as int));
        proof {
            lemma_sort_perm_step(names, i as int);
            lemma_sort_perm_range(names.take(i as int));
            assert(decreases_to!(scopes@ => scopes@[i as int]));
        }
        let node = match search_nodes(old_children, &scopes[i].name, i) {
            Some(k) => generate_node(old_children[k].is_expanded(), old_children[k].get_children(), &scopes[i]),
            None => {
                let none: Vec<BrowserNode<NetlistNode>> = Vec::new();
                generate_node(false, &none, &scopes[i])
            },
        };
        let pos = insert_position(&keys, &scopes[i].name);
        let ghost out_before = out@;
        let ghost keys_before = keys@;
        out.insert(pos, node);
        keys.insert(pos, scopes[i].name.clone());
        proof {
            let q = p.insert(pos as int, i as int);
            assert(sort_perm(names.take(i + 1)) == q);
            out_before.insert_ensures(pos as int, node);
            p.insert_ensures(pos as int, i as int);
            keys_before.insert_ensures(pos as int, keys@[pos as int]);
            assert(keys@ == keys_before.insert(pos as int, keys@[pos as int]));
            assert forall|j: int| 0 <= j < i + 1 implies #[trigger] key_strings(keys@)[j] == q.map_values(
                |k: int| names[k],
            )[j] by {
                if j < pos {
                    assert(keys@[j] == keys_before[j]);
                    assert(q[j] == p[j]);
                    assert(key_strings(keys_before)[j] == p.map_values(|k: int| names[k])[j]);
                } else if j == pos {
                    assert(q[j] == i);
                } else {
                    assert(keys@[j] == keys_before[j - 1]);
                    assert(q[j] == p[j - 1]);
                    assert(key_strings(keys_before)[j - 1] == p.map_values(|k: int| names[k])[j - 1]);
                }
            }
            assert(key_strings(keys@) =~= q.map_values(|k: int| names[k]));
            assert forall|j: int| 0 <= j < i + 1 implies scope_node_ok(
                #[trigger] out@[j],
                old_children@,
                scopes@[q[j]],
                q[j],
            ) by {
                if j < pos {
                    assert(out@[j] == out_before[j]);
                } else if j > pos {
                    assert(out@[j] == out_before[j - 1]);
                    assert(q[j] == p[j - 1]);
                }
            }
        }
        i += 1;
    }
    proof {
        assert(names.take(i as int) =~= names);
        lemma_sort_perm_range(names);
    }
    out
}

fn generate_node(expanded: bool, old_children: &Vec<BrowserNode<NetlistNode>>, scope: &ScopeInfo) -> (r:
    BrowserNode<NetlistNode>)
    ensures
        generated(r, expanded, old_children@, *scope),
    decreases *scope, 2nat,
{
    proof {
        assert(decreases_to!(*scope => scope.scopes));
        assert(decreases_to!(scope.scopes => scope.scopes@));
    }
    let mut children = generate_scopes(old_children, &scope.scopes);
    let mut variables = generate_variables(&scope.variables);
    let ghost a = children@;
    let ghost b = variables@;
    children.append(&mut variables);
    proof {
        assert(children@.take(a.len() as int) =~= a);
        assert(children@.skip(a.len() as int) =~= b);
    }
    BrowserNode::from_expanded(Some(NetlistNode::Scope(scope.name.clone())), expanded, children)
}

/// The node of `new_scope` for a new waveform, keeping the expansion of
/// `old_node` and, below it, of every old scope with the same name (see
/// `generated`).
pub fn generate_new_node(old_node: &BrowserNode<NetlistNode>, new_scope: &ScopeInfo) -> (r: BrowserNode<
    NetlistNode,
>)
    ensures
        generated(r, old_node.expanded_spec(), old_node.children_spec(), *new_scope),
{
    generate_node(old_node.is_expanded(), old_node.get_children(), new_scope)
}

/// The root of the netlist for the top scopes `new_scopes` of a new
/// waveform: without an entry, expanded, its children the nodes of the
/// scopes sorted by name, each keeping the state of the old scope of the
/// same name.
pub fn generate_new_nodes(old_nodes: &BrowserNode<NetlistNode>, new_scopes: &Vec<ScopeInfo>) -> (r:
    BrowserNode<NetlistNode>)
    ensures
        r.entry_spec() is None,
        r.expanded_spec(),
        scopes_ok(r.children_spec(), old_nodes.children_spec(), new_scopes@),
{
    let children = generate_scopes(old_nodes.get_children(), new_scopes);
    BrowserNode::from_expanded(None, true, children)
}

/// The full name and the variable of the node at `path`, where it is a
/// variable.
pub open spec fn selected_variable(node: BrowserNode<NetlistNode>, path: Seq<usize>) -> Option<
    (Seq<Seq<char>>, VariableView),
> {
    match node.node_at(path) {
        Some(sub) => match sub.entry_spec() {
            Some(NetlistNode::Variable(v)) => Some((labels(node.entries_along(path)), v@)),
            _ => None,
        },
        None => None,
    }
}

/// The variables among the nodes at `paths`, in order, with their full
/// names; scopes are left out.
pub open spec fn variables_at(node: BrowserNode<NetlistNode>, paths: Seq<Seq<usize>>) -> Seq<
    (Seq<Seq<char>>, VariableView),
>
    decreases paths.len(),
{
    if paths.len() == 0 {
        Seq::empty()
    } else {
        let prev = variables_at(node, paths.drop_last());
        match selected_variable(node, paths.last()) {
            Some(x) => prev.push(x),
            None => prev,
        }
    }
}

pub open spec fn named_variables_view(v: Seq<(Vec<String>, VariableInfo)>) -> Seq<
    (Seq<Seq<char>>, VariableView),
> {
    v.map_values(|x: (Vec<String>, VariableInfo)| (x.0@.map_values(|s: String| s@), x.1@))
}

/// The selected variables of the netlist, each with its full name (the
/// labels from the root down), in the order of the lines.
fn selected_variables(state: &BrowserState, node: &BrowserNode<NetlistNode>) -> (r: Vec<
    (Vec<String>, VariableInfo),
>)
    requires
        node.node_count() <= usize::MAX,
        state@.selected_bounds().1 < isize::MAX,
    ensures
        named_variables_view(r@) == variables_at(
            *node,
            node.paths_in(
                state@.selected_bounds().0 as usize as int,
                (state@.selected_bounds().1 + 1) as usize as int,
                false,
            ),
        ),
{
    let paths = state.get_selected_paths(node, false);
    let ghost all = paths_view(paths@);
    proof {
        lemma_paths_in_in_range(
            *node,
            state@.selected_bounds().0 as usize as int,
            (state@.selected_bounds().1 + 1) as usize as int,
            false,
        );
    }
    let mut out: Vec<(Vec<String>, VariableInfo)> = Vec::new();
    let mut i: usize = 0;
    while i < paths.len()
        invariant
            i <= paths@.len(),
            all == paths_view(paths@),
            forall|k: int| 0 <= k < all.len() ==> node.path_in_range(#[trigger] all[k]) && node.path_walkable(all[k]),
            named_variables_view(out@) == variables_at(*node, all.take(i as int)),
        decreases paths.len() - i,
    {
        proof {
            assert(all.take(i + 1).drop_last() =~= all.take(i as int));
            assert(all.take(i + 1).last() == paths@[i as int]@);
            assert(node.path_in_range(all[i as int]));
        }
        match node.get_node(&paths[i]) {
            Some(sub) => match sub.get_entry() {
                Some(NetlistNode::Variable(variable)) => {
                    let name = node.get_full_name(&paths[i]);
                    let ghost before = out@;
                    out.push((name, variable.clone()));
                    assert(named_variables_view(out@) =~= named_variables_view(before).push(
                        named_variables_view(out@).last(),
                    ));
                },
                _ => {},
            },
            None => {},
        }
        i += 1;
    }
    proof {
        assert(all.take(i as int) =~= all);
    }
    out
}


/// The variables that the selected lines of `node` show, with their full
/// names, in order.
pub open spec fn selection_variables(s: BrowserStateView, node: BrowserNode<NetlistNode>) -> Seq<
    (Seq<Seq<char>>, VariableView),
> {
    variables_at(
        node,
        node.paths_in(s.selected_bounds().0 as usize as int, (s.selected_bounds().1 + 1) as usize as int, false),
    )
}

/// A request the netlist hands to the list of signals: add the variable,
/// with its full name, at the end of the list or where the list's cursor
/// is.
#[derive(Debug)]
pub enum NetlistRequest {
    Append(Vec<String>, VariableInfo),
    Insert(Vec<String>, VariableInfo),
}

/// Whether the request appends (rather than inserts), the full name, and
/// the variable.
pub open spec fn request_view(q: NetlistRequest) -> (bool, Seq<Seq<char>>, VariableView) {
    match q {
        NetlistRequest::Append(name, v) => (true, name@.map_values(|x: String| x@), v@),
        NetlistRequest::Insert(name, v) => (false, name@.map_values(|x: String| x@), v@),
    }
}

/// The requests for `vars`, appending or inserting.
pub open spec fn requests_for(vars: Seq<(Seq<Seq<char>>, VariableView)>, append: bool) -> Seq<
    (bool, Seq<Seq<char>>, VariableView),
> {
    vars.map_values(|x: (Seq<Seq<char>>, VariableView)| (append, x.0, x.1))
}

/// What a request on the netlist does.
#[derive(Debug, Clone, Copy, PartialEq, Eq, Structural)]
pub enum NetlistViewerAction {
    /// Add the selected variables at the end of the list of signals.
    Append,
    /// Add them where the list's cursor is.
    Insert,
    /// Flip the node on the cursor's line.
    Expand,
}

/// What a key does to the netlist (`key_used` says whether the netlist took
/// it, `requests` what it hands on): the navigation keys move the cursor,
/// `Enter` flips the node on the cursor's line, `a` and `i` request the
/// selected variables, `f` switches between full and indented names.
pub open spec fn netlist_key_spec(
    before: (BrowserStateView, BrowserNode<NetlistNode>),
    after: (BrowserStateView, BrowserNode<NetlistNode>),
    key: KeyInput,
    key_used: bool,
    requests: Seq<(bool, Seq<Seq<char>>, VariableView)>,
) -> bool {
    let (s, n) = before;
    match nav_delta(key.key) {
        Some(d) => after == (s.after_select(n.render_len(), d, !key.shift), n) && key_used
            && requests.len() == 0,
        None => match key.key {
            Key::Enter => after.0 == s && toggled_at(n, after.1, n.path_at(s.cursor as usize as int))
                && key_used && requests.len() == 0,
            Key::Char('a') => after == before && key_used && requests == requests_for(
                selection_variables(s, n),
                true,
            ),
            Key::Char('i') => after == before && key_used && requests == requests_for(
                selection_variables(s, n),
                false,
            ),
            Key::Char('f') => after == (
                BrowserStateView {
                    indent_enabled: !s.full_name_enabled,
                    full_name_enabled: !s.full_name_enabled,
                    ..s
                },
                n,
            ) && key_used && requests.len() == 0,
            _ => after == before && !key_used && requests.len() == 0,
        },
    }
}

/// The netlist pane: a browser over the scopes and variables of the
/// design, and a filter for their names.
pub struct NetlistViewerState {
    state: BrowserState,
    node: BrowserNode<NetlistNode>,
    filters: Vec<BrowserFilterSection>,
    border_width: u16,
}

impl NetlistViewerState {
    /// The browser's positions and the tree's size stay within the bounds
    /// of `list_ok`; the border is one wide.
    pub closed spec fn wf(self) -> bool {
        list_ok(self.state@, self.node) && self.border_width == 1
    }

    pub closed spec fn browser_view(self) -> BrowserStateView {
        self.state@
    }

    pub closed spec fn tree(self) -> BrowserNode<NetlistNode> {
        self.node
    }

    pub closed spec fn filters_view(self) -> Seq<BrowserFilterSectionView> {
        self.filters@.map_values(|f: BrowserFilterSection| f@)
    }

    /// An empty netlist, with scroll markers and indented names, and no
    /// filter.
    pub fn new() -> (r: Self)
        ensures
            r.wf(),
            r.browser_view() == (BrowserStateView {
                bounds_enabled: true,
                indent_enabled: true,
                full_name_enabled: false,
                scroll: 0,
                cursor: 0,
                cursor_secondary: None,
                height: 0,
            }),
            r.tree().entry_spec() is None,
            r.tree().expanded_spec(),
            r.tree().children_spec() == Seq::<BrowserNode<NetlistNode>>::empty(),
            r.filters_view() == Seq::<BrowserFilterSectionView>::empty(),
    {
        let node = BrowserNode::from_expanded(None, true, Vec::new());
        proof {
            lemma_node_count_unfold(node);
            lemma_seq_node_count_unfold(node.children_spec());
        }
        let r = NetlistViewerState {
            state: BrowserState::new(true, true, false),
            node,
            filters: Vec::new(),
            border_width: 1,
        };
        assert(r.filters_view() =~= Seq::<BrowserFilterSectionView>::empty());
        r
    }

    /// Sets the filter to the sections of `filter` (see `construct_filter`).
    pub fn update_filter(&mut self, filter: String)
        requires
            old(self).wf(),
            filter_cuttable(filter@),
        ensures
            final(self).wf(),
            final(self).browser_view() == old(self).browser_view(),
            final(self).tree() == old(self).tree(),
            final(self).filters_view() == split_sections(filter@).map_values(
                |sec: Seq<char>| classify_section(sec),
            ),
    {
        self.filters = construct_filter(filter);
    }

    /// Rebuilds the tree for the scopes of a new waveform, keeping the
    /// expansion of the scopes that were there (see `generate_new_nodes`),
    /// and puts the cursor back in range. Nothing changes, and the result is
    /// `false`, where the new tree would pass `node_limit()` nodes.
    pub fn update_scopes(&mut self, new_scopes: &Vec<ScopeInfo>) -> (r: bool)
        requires
            old(self).wf(),
        ensures
            final(self).wf(),
            r ==> {
                &&& final(self).tree().entry_spec() is None
                &&& final(self).tree().expanded_spec()
                &&& scopes_ok(final(self).tree().children_spec(), old(self).tree().children_spec(), new_scopes@)
                &&& final(self).browser_view() == old(self).browser_view().after_select(
                    final(self).tree().render_len(),
                    0,
                    true,
                )
            },
            !r ==> *final(self) == *old(self) && exists|n: BrowserNode<NetlistNode>|
                n.entry_spec() is None && n.expanded_spec() && scopes_ok(
                    n.children_spec(),
                    old(self).tree().children_spec(),
                    new_scopes@,
                ) && n.node_count() > node_limit(),
    {
        let node = generate_new_nodes(&self.node, new_scopes);
        let limit = node_limit_value();
        if node.count_nodes_upto(limit) > limit {
            return false;
        }
        self.node = node;
        proof {
            crate::widgets::browser::lemma_render_len_le_node_count(self.node);
        }
        self.state.select_relative(&self.node, 0, true);
        true
    }

    /// Fits the window to the height of `size` inside the border, and
    /// scrolls it back onto the cursor.
    pub fn set_size(&mut self, size: &Rect)
        requires
            old(self).wf(),
        ensures
            final(self).wf(),
            final(self).tree() == old(self).tree(),
            final(self).filters_view() == old(self).filters_view(),
            final(self).browser_view() == (BrowserStateView {
                height: inner_height(size.height, 1),
                ..old(self).browser_view()
            }).after_scroll(old(self).tree().render_len(), 0),
    {
        resize_list(&mut self.state, &self.node, size.height, self.border_width);
    }

    /// `set_size` for a pane `width` by `height`.
    pub fn resize(&mut self, width: u16, height: u16)
        requires
            old(self).wf(),
        ensures
            final(self).wf(),
            final(self).tree() == old(self).tree(),
            final(self).filters_view() == old(self).filters_view(),
            final(self).browser_view() == (BrowserStateView {
                height: inner_height(height, 1),
                ..old(self).browser_view()
            }).after_scroll(old(self).tree().render_len(), 0),
    {
        self.set_size(&Rect { x: 0, y: 0, width, height });
    }

    pub fn get_browser(&self) -> (r: Browser<'_, NetlistNode>)
        ensures
            r.state()@ == self.browser_view(),
            *r.node() == self.tree(),
    {
        Browser::new(&self.state, &self.node)
    }

    /// The selected variables with their full names, in the order of the
    /// lines; scopes are left out.
    pub fn get_selected_variables(&self) -> (r: Vec<(Vec<String>, VariableInfo)>)
        requires
            self.wf(),
        ensures
            named_variables_view(r@) == selection_variables(self.browser_view(), self.tree()),
    {
        selected_variables(&self.state, &self.node)
    }

    fn requests(&self, append: bool) -> (r: Vec<NetlistRequest>)
        requires
            self.wf(),
        ensures
            r@.map_values(|q: NetlistRequest| request_view(q)) == requests_for(
                selection_variables(self.browser_view(), self.tree()),
                append,
            ),
    {
        let selected = self.get_selected_variables();
        let mut out: Vec<NetlistRequest> = Vec::new();
        let mut i: usize = 0;
        while i < selected.len()
            invariant
                i <= selected@.len(),
                out@.map_values(|q: NetlistRequest| request_view(q)) == requests_for(
                    named_variables_view(selected@).take(i as int),
                    append,
                ),
            decreases selected.len() - i,
        {
            let name = clone_names(&selected[i].0);
            let variable = selected[i].1.clone();
            let q = if append {
                NetlistRequest::Append(name, variable)
            } else {
                NetlistRequest::Insert(name, variable)
            };
            let ghost before = out@;
            out.push(q);
            proof {
                assert(out@.drop_last() =~= before);
                assert(named_variables_view(selected@).take(i + 1).drop_last() =~= named_variables_view(
                    selected@,
                ).take(i as int));
                assert(out@.map_values(|q: NetlistRequest| request_view(q)) =~= before.map_values(
                    |q: NetlistRequest| request_view(q),
                ).push(request_view(q)));
                assert(requests_for(named_variables_view(selected@).take(i + 1), append) =~= requests_for(
                    named_variables_view(selected@).take(i as int),
                    append,
                ).push(requests_for(named_variables_view(selected@).take(i + 1), append)[i as int]));
            }
            i += 1;
        }
        assert(named_variables_view(selected@).take(i as int) =~= named_variables_view(selected@));
        out
    }

    /// Carries out `action`: the requests for the selected variables, or
    /// the node on the cursor's line flipped.
    pub fn modify(&mut self, action: NetlistViewerAction) -> (r: Vec<NetlistRequest>)
        requires
            old(self).wf(),
        ensures
            final(self).wf(),
            final(self).browser_view() == old(self).browser_view(),
            final(self).filters_view() == old(self).filters_view(),
            match action {
                NetlistViewerAction::Expand => r@.len() == 0 && toggled_at(
                    old(self).tree(),
                    final(self).tree(),
                    old(self).tree().path_at(old(self).browser_view().cursor as usize as int),
                ),
                NetlistViewerAction::Append => final(self).tree() == old(self).tree() && r@.map_values(
                    |q: NetlistRequest| request_view(q),
                ) == requests_for(selection_variables(old(self).browser_view(), old(self).tree()), true),
                NetlistViewerAction::Insert => final(self).tree() == old(self).tree() && r@.map_values(
                    |q: NetlistRequest| request_view(q),
                ) == requests_for(selection_variables(old(self).browser_view(), old(self).tree()), false),
            },
    {
        match action {
            NetlistViewerAction::Append => self.requests(true),
            NetlistViewerAction::Insert => self.requests(false),
            NetlistViewerAction::Expand => {
                toggle_selected(&self.state, &mut self.node);
                Vec::new()
            },
        }
    }

    /// Handles a mouse event on row `y` of the netlist (see `mouse_spec`).
    pub fn handle_mouse(&mut self, y: u16, kind: MouseKind) -> (r: bool)
        requires
            old(self).wf(),
        ensures
            final(self).wf(),
            final(self).filters_view() == old(self).filters_view(),
            mouse_spec(
                (old(self).browser_view(), old(self).tree()),
                (final(self).browser_view(), final(self).tree()),
                y,
                kind,
            ),
            r == (kind is LeftDown || kind is ScrollDown || kind is ScrollUp),
    {
        list_mouse(&mut self.state, &mut self.node, y, kind)
    }

    /// Handles a key (see `netlist_key_spec`): whether the netlist took it,
    /// and the requests it hands on.
    pub fn handle_key(&mut self, key: KeyInput) -> (r: (bool, Vec<NetlistRequest>))
        requires
            old(self).wf(),
        ensures
            final(self).wf(),
            final(self).filters_view() == old(self).filters_view(),
            netlist_key_spec(
                (old(self).browser_view(), old(self).tree()),
                (final(self).browser_view(), final(self).tree()),
                key,
                r.0,
                r.1@.map_values(|q: NetlistRequest| request_view(q)),
            ),
    {
        if navigate(&mut self.state, &self.node, key) {
            let none: Vec<NetlistRequest> = Vec::new();
            assert(none@.map_values(|q: NetlistRequest| request_view(q)).len() == 0);
            return (true, none);
        }
        let requests = match key.key {
            Key::Enter => self.modify(NetlistViewerAction::Expand),
            Key::Char('a') => self.modify(NetlistViewerAction::Append),
            Key::Char('i') => self.modify(NetlistViewerAction::Insert),
            Key::Char('f') => {
                toggle_full_name(&mut self.state);
                Vec::new()
            },
            _ => {
                return (false, Vec::new());
            },
        };
        (true, requests)
    }
}

/// A copy of a list of names.
fn clone_names(names: &Vec<String>) -> (r: Vec<String>)
    ensures
        r@.map_values(|x: String| x@) == names@.map_values(|x: String| x@),
{
    let mut out: Vec<String> = Vec::new();
    let mut i: usize = 0;
    while i < names.len()
        invariant
            i <= names@.len(),
            out@.len() == i,
            forall|k: int| 0 <= k < i ==> #[trigger] out@[k]@ == names@[k]@,
        decreases names.len() - i,
    {
        let name = names[i].clone();
        assert(name@ == names@[i as int]@);
        out.push(name);
        i += 1;
    }
    assert(out@.map_values(|x: String| x@) =~= names@.map_values(|x: String| x@));
    out
}

} // verus!
