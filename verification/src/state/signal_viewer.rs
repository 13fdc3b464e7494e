use makai_vcd_reader::parser::VcdHeader;
use vstd::prelude::*;

use crate::python::signals::{all_owned_by, seq_all_owned_by, SignalNodePyInternal, SignalRadixPy};
use crate::python::utils::SaveConfigError;
use crate::python::ConfigOwner;
use crate::text::{decimal, join, join_spec, lemma_join_pieces, pieces, push_decimal, push_str, split_on};
use crate::input::{Key, KeyInput, MouseKind};
use crate::state::browsing::{
    list_mouse, list_ok, mouse_spec, nav_delta, navigate, node_limit, node_limit_value, resize_list,
    toggle_full_name, toggle_selected, toggled_at, inner_height,
};
use crate::tui_layout::pos::Rect;
use crate::widgets::browser::{
    count_seq_upto, lemma_node_count_unfold, lemma_seq_node_count_concat, lemma_seq_node_count_unfold,
    Browser, BrowserStateView,
    lemma_children_decrease, lemma_paths_in_in_range, paths_view, BrowserEntry, BrowserNode,
    BrowserNodePath, BrowserState,
};

verus! {

#[verifier::external_type_specification]
#[verifier::external_body]
pub struct ExVcdHeader(VcdHeader);

/// What the viewer reads of a variable of a waveform file: how it is
/// written, how many bits wide it is, and the id code of its values.
#[derive(Debug)]
pub struct VariableInfo {
    pub label: String,
    pub bit_width: usize,
    pub idcode: usize,
}

pub struct VariableView {
    pub label: Seq<char>,
    pub bit_width: usize,
    pub idcode: usize,
}

impl View for VariableInfo {
    type V = VariableView;

    open spec fn view(&self) -> VariableView {
        VariableView { label: self.label@, bit_width: self.bit_width, idcode: self.idcode }
    }
}

impl Clone for VariableInfo {
    fn clone(&self) -> (r: Self)
        ensures
            r@ == self@,
    {
        VariableInfo { label: self.label.clone(), bit_width: self.bit_width, idcode: self.idcode }
    }
}

/// The variables of a waveform's header, by the dotted path that
/// `VcdHeader::get_variable` finds each at (the first scope of a name is
/// searched, and in it the first variable or scope of the next name), each
/// as a `VariableInfo` reads it: its `Display` text (name and width), bit
/// width and id code.
pub uninterp spec fn header_variables(header: VcdHeader) -> Map<Seq<char>, VariableView>;

/// `VcdHeader::get_variable`: the variable at the dotted `path` among the
/// header's scopes, read into a `VariableInfo`.
#[verifier::external_body]
fn lookup_variable(header: &VcdHeader, path: &str) -> (r: Option<VariableInfo>)
    ensures
        match r {
            Some(v) => header_variables(*header).contains_key(path@) && v@ == header_variables(
                *header,
            )[path@],
            None => !header_variables(*header).contains_key(path@),
        },
{
    match header.get_variable(path) {
        Some(v) => Some(
            VariableInfo { label: v.to_string(), bit_width: v.get_bit_width(), idcode: v.get_idcode() },
        ),
        None => None,
    }
}

/// Why the signal list could not load or save its configuration.
#[derive(Debug)]
pub enum SignalViewerError {
    /// Signals added in the viewer have not been saved yet.
    UnsavedSignals,
    /// No configuration script was given.
    ConfigNotAvailable,
    /// The configuration script failed, with Python's message.
    ConfigLoadError(String),
    ConfigSaveError(SaveConfigError),
    /// The configuration names a signal that the waveform lacks.
    VariableNotFound(String),
}

/// An entry of the signal list.
#[derive(Debug)]
pub enum SignalNode {
    Group { name: String, owner: ConfigOwner, saved: bool },
    Vector { name: String, radix: SignalRadixPy, owner: ConfigOwner, saved: bool },
    /// A signal of the waveform, or (with an index) one bit of it.
    Signal {
        path: Vec<String>,
        vcd_variable: VariableInfo,
        radix: SignalRadixPy,
        index: Option<usize>,
        owner: ConfigOwner,
        saved: bool,
    },
    Spacer { owner: ConfigOwner, saved: bool },
}

pub enum SignalNodeView {
    Group { name: Seq<char>, owner: ConfigOwner, saved: bool },
    Vector { name: Seq<char>, radix: SignalRadixPy, owner: ConfigOwner, saved: bool },
    Signal {
        path: Seq<Seq<char>>,
        vcd_variable: VariableView,
        radix: SignalRadixPy,
        index: Option<usize>,
        owner: ConfigOwner,
        saved: bool,
    },
    Spacer { owner: ConfigOwner, saved: bool },
}

pub open spec fn strings_of(v: Seq<String>) -> Seq<Seq<char>> {
    v.map_values(|s: String| s@)
}

impl View for SignalNode {
    type V = SignalNodeView;

    open spec fn view(&self) -> SignalNodeView {
        match *self {
            SignalNode::Group { name, owner, saved } => SignalNodeView::Group { name: name@, owner, saved },
            SignalNode::Vector { name, radix, owner, saved } => SignalNodeView::Vector {
                name: name@,
                radix,
                owner,
                saved,
            },
            SignalNode::Signal { path, vcd_variable, radix, index, owner, saved } => SignalNodeView::Signal {
                path: strings_of(path@),
                vcd_variable: vcd_variable@,
                radix,
                index,
                owner,
                saved,
            },
            SignalNode::Spacer { owner, saved } => SignalNodeView::Spacer { owner, saved },
        }
    }
}

impl SignalNodeView {
    pub open spec fn owner(self) -> ConfigOwner {
        match self {
            SignalNodeView::Group { owner, .. } => owner,
            SignalNodeView::Vector { owner, .. } => owner,
            SignalNodeView::Signal { owner, .. } => owner,
            SignalNodeView::Spacer { owner, .. } => owner,
        }
    }

    pub open spec fn saved(self) -> bool {
        match self {
            SignalNodeView::Group { saved, .. } => saved,
            SignalNodeView::Vector { saved, .. } => saved,
            SignalNodeView::Signal { saved, .. } => saved,
            SignalNodeView::Spacer { saved, .. } => saved,
        }
    }

    pub open spec fn with_saved(self, value: bool) -> SignalNodeView {
        match self {
            SignalNodeView::Group { name, owner, .. } => SignalNodeView::Group { name, owner, saved: value },
            SignalNodeView::Vector { name, radix, owner, .. } => SignalNodeView::Vector {
                name,
                radix,
                owner,
                saved: value,
            },
            SignalNodeView::Signal { path, vcd_variable, radix, index, owner, .. } => SignalNodeView::Signal {
                path,
                vcd_variable,
                radix,
                index,
                owner,
                saved: value,
            },
            SignalNodeView::Spacer { owner, .. } => SignalNodeView::Spacer { owner, saved: value },
        }
    }
}

fn clone_strings(v: &Vec<String>) -> (r: Vec<String>)
    ensures
        strings_of(r@) == strings_of(v@),
{
    let mut r: Vec<String> = Vec::new();
    let mut i: usize = 0;
    while i < v.len()
        invariant
            i <= v@.len(),
            strings_of(r@) == strings_of(v@.take(i as int)),
        decreases v.len() - i,
    {
        let ghost before = r@;
        r.push(v[i].clone());
        assert(strings_of(r@) =~= strings_of(before).push(v@[i as int]@));
        assert(strings_of(v@.take(i + 1)) =~= strings_of(v@.take(i as int)).push(v@[i as int]@));
        i += 1;
    }
    assert(v@.take(i as int) =~= v@);
    r
}

/// The text shown for the bit `index` of a signal written `label`.
pub open spec fn bit_label(label: Seq<char>, index: usize) -> Seq<char> {
    label + " ["@ + decimal(index as nat) + "]"@
}

impl SignalNode {
    pub fn get_owner(&self) -> (r: ConfigOwner)
        ensures
            r == self@.owner(),
    {
        match self {
            Self::Group { owner, .. } => *owner,
            Self::Vector { owner, .. } => *owner,
            Self::Signal { owner, .. } => *owner,
            Self::Spacer { owner, .. } => *owner,
        }
    }

    pub fn is_saved(&self) -> (r: bool)
        ensures
            r == self@.saved(),
    {
        match self {
            Self::Group { saved, .. } => *saved,
            Self::Vector { saved, .. } => *saved,
            Self::Signal { saved, .. } => *saved,
            Self::Spacer { saved, .. } => *saved,
        }
    }

    pub fn set_saved(&mut self, value: bool)
        ensures
            final(self)@ == old(self)@.with_saved(value),
    {
        match self {
            Self::Group { saved, .. } => *saved = value,
            Self::Vector { saved, .. } => *saved = value,
            Self::Signal { saved, .. } => *saved = value,
            Self::Spacer { saved, .. } => *saved = value,
        }
    }
}

/// The text the list shows for an entry.
pub open spec fn signal_label(v: SignalNodeView) -> Seq<char> {
    match v {
        SignalNodeView::Spacer { .. } => Seq::empty(),
        SignalNodeView::Group { name, .. } => "Group: "@ + name + " (TODO)"@,
        SignalNodeView::Vector { name, .. } => "Vector: "@ + name + " (TODO)"@,
        SignalNodeView::Signal { vcd_variable, index, .. } => match index {
            Some(i) => bit_label(vcd_variable.label, i),
            None => vcd_variable.label,
        },
    }
}

impl BrowserEntry for SignalNode {
    open spec fn label_spec(&self) -> Seq<char> {
        signal_label(self@)
    }

    fn label(&self) -> (r: String) {
        let mut s = String::new();
        match self {
            SignalNode::Spacer { .. } => {},
            SignalNode::Group { name, .. } => {
                push_str(&mut s, "Group: ");
                push_str(&mut s, name.as_str());
                push_str(&mut s, " (TODO)");
            },
            SignalNode::Vector { name, .. } => {
                push_str(&mut s, "Vector: ");
                push_str(&mut s, name.as_str());
                push_str(&mut s, " (TODO)");
            },
            SignalNode::Signal { vcd_variable, index, .. } => {
                push_str(&mut s, vcd_variable.label.as_str());
                match index {
                    Some(i) => {
                        push_str(&mut s, " [");
                        push_decimal(&mut s, *i as u64);
                        push_str(&mut s, "]");
                    },
                    None => {},
                }
            },
        }
        s
    }
}

impl Default for SignalNode {
    fn default() -> (r: Self)
        ensures
            r@ == (SignalNodeView::Spacer { owner: ConfigOwner::Nalu, saved: false }),
    {
        Self::Spacer { owner: ConfigOwner::Nalu, saved: false }
    }
}

pub open spec fn entry_view(b: BrowserNode<SignalNode>) -> Option<SignalNodeView> {
    match b.entry_spec() {
        Some(e) => Some(e@),
        None => None,
    }
}

/// The children that a signal of `vcd_variable` gets: one per bit when it is
/// wider than one bit and not itself a bit, each with the signal's fields
/// and its bit index.
pub open spec fn bit_children_ok(
    children: Seq<BrowserNode<SignalNode>>,
    path: Seq<Seq<char>>,
    vcd_variable: VariableView,
    radix: SignalRadixPy,
    index: Option<usize>,
    owner: ConfigOwner,
    saved: bool,
) -> bool {
    if vcd_variable.bit_width > 1 && index is None {
        &&& children.len() == vcd_variable.bit_width
        &&& forall|i: int|
            0 <= i < children.len() ==> {
                &&& entry_view(#[trigger] children[i]) == Some(
                    SignalNodeView::Signal {
                        path,
                        vcd_variable,
                        radix,
                        index: Some(i as usize),
                        owner,
                        saved,
                    },
                )
                &&& !children[i].expanded_spec()
                &&& children[i].children_spec().len() == 0
            }
    } else {
        children.len() == 0
    }
}

fn make_bit_children(
    path: &Vec<String>,
    vcd_variable: &VariableInfo,
    radix: SignalRadixPy,
    index: Option<usize>,
    owner: ConfigOwner,
    saved: bool,
) -> (r: Vec<BrowserNode<SignalNode>>)
    ensures
        bit_children_ok(r@, strings_of(path@), vcd_variable@, radix, index, owner, saved),
{
    let mut children: Vec<BrowserNode<SignalNode>> = Vec::new();
    if vcd_variable.bit_width > 1 && index.is_none() {
        let mut i: usize = 0;
        while i < vcd_variable.bit_width
            invariant
                i <= vcd_variable.bit_width,
                children@.len() == i,
                forall|k: int|
                    0 <= k < i ==> {
                        &&& entry_view(#[trigger] children@[k]) == Some(
                            SignalNodeView::Signal {
                                path: strings_of(path@),
                                vcd_variable: vcd_variable@,
                                radix,
                                index: Some(k as usize),
                                owner,
                                saved,
                            },
                        )
                        &&& !children@[k].expanded_spec()
                        &&& children@[k].children_spec().len() == 0
                    },
            decreases vcd_variable.bit_width - i,
        {
            let node = SignalNode::Signal {
                path: clone_strings(path),
                vcd_variable: vcd_variable.clone(),
                radix,
                index: Some(i),
                owner,
                saved,
            };
            children.push(BrowserNode::new(Some(node)));
            i += 1;
        }
    }
    children
}

/// The node of a signal of the waveform (with a child per bit when it is
/// wider than one bit), collapsed and not yet saved.
pub fn create_vcd_variable_node(
    path: Vec<String>,
    variable: VariableInfo,
    radix: SignalRadixPy,
    owner: ConfigOwner,
) -> (r: BrowserNode<SignalNode>)
    ensures
        entry_view(r) == Some(
            SignalNodeView::Signal {
                path: strings_of(path@),
                vcd_variable: variable@,
                radix,
                index: None,
                owner,
                saved: false,
            },
        ),
        !r.expanded_spec(),
        bit_children_ok(r.children_spec(), strings_of(path@), variable@, radix, None, owner, false),
{
    let children = make_bit_children(&path, &variable, radix, None, owner, false);
    BrowserNode::from_expanded(
        Some(
            SignalNode::Signal {
                path,
                vcd_variable: variable,
                radix,
                index: None,
                owner,
                saved: false,
            },
        ),
        false,
        children,
    )
}

/// The entry of a node, and every entry below it, belongs to the user's
/// script (a node without an entry belongs to whoever its children do).
pub open spec fn all_user(b: BrowserNode<SignalNode>) -> bool
    decreases b,
{
    &&& match entry_view(b) {
        Some(e) => e.owner() == ConfigOwner::User,
        None => true,
    }
    &&& {
        proof {
            lemma_children_decrease(b);
        }
        seq_all_user(b.children_spec())
    }
}

pub open spec fn seq_all_user(s: Seq<BrowserNode<SignalNode>>) -> bool
    decreases s,
{
    s.len() > 0 ==> seq_all_user(s.drop_last()) && all_user(s.last())
}

/// The owner of a whole subtree: the user only where every entry in it is.
pub open spec fn node_owner(b: BrowserNode<SignalNode>) -> ConfigOwner {
    if all_user(b) {
        ConfigOwner::User
    } else {
        ConfigOwner::Nalu
    }
}

/// Every entry of the viewer's in the subtree is saved (a subtree of the
/// user's counts as saved).
pub open spec fn node_saved(b: BrowserNode<SignalNode>) -> bool
    decreases b,
{
    ||| all_user(b)
    ||| {
        &&& match entry_view(b) {
            Some(e) => e.saved(),
            None => true,
        }
        &&& {
            proof {
                lemma_children_decrease(b);
            }
            seq_node_saved(b.children_spec())
        }
    }
}

pub open spec fn seq_node_saved(s: Seq<BrowserNode<SignalNode>>) -> bool
    decreases s,
{
    s.len() > 0 ==> seq_node_saved(s.drop_last()) && node_saved(s.last())
}

proof fn lemma_seq_take_push<T>(s: Seq<T>, i: int)
    requires
        0 <= i < s.len(),
    ensures
        s.take(i + 1).drop_last() == s.take(i),
        s.take(i + 1).last() == s[i],
{
    assert(s.take(i + 1).drop_last() =~= s.take(i));
}

/// The owner of the subtree: the user only where every entry in it belongs
/// to the user.
pub fn get_node_owner(node: &BrowserNode<SignalNode>) -> (r: ConfigOwner)
    ensures
        r == node_owner(*node),
    decreases *node,
{
    match node.get_entry() {
        Some(entry) => {
            if entry.get_owner() == ConfigOwner::Nalu {
                return ConfigOwner::Nalu;
            }
        },
        None => {},
    }
    let children = node.get_children();
    let mut i: usize = 0;
    while i < children.len()
        invariant
            i <= children@.len(),
            children@ == node.children_spec(),
            seq_all_user(children@.take(i as int)),
        decreases children.len() - i,
    {
        proof {
            lemma_seq_take_push(children@, i as int);
            lemma_children_decrease(*node);
        }
        if get_node_owner(&children[i]) == ConfigOwner::Nalu {
            proof {
                if seq_all_user(children@) {
                    lemma_seq_all_user_elem(children@, i as int);
                }
            }
            return ConfigOwner::Nalu;
        }
        i += 1;
    }
    proof {
        assert(children@.take(i as int) =~= children@);
    }
    ConfigOwner::User
}

proof fn lemma_seq_all_user_elem(s: Seq<BrowserNode<SignalNode>>, i: int)
    requires
        0 <= i < s.len(),
        seq_all_user(s),
    ensures
        all_user(s[i]),
    decreases s.len(),
{
    if i < s.len() - 1 {
        lemma_seq_all_user_elem(s.drop_last(), i);
    }
}

proof fn lemma_seq_node_saved_elem(s: Seq<BrowserNode<SignalNode>>, i: int)
    requires
        0 <= i < s.len(),
        seq_node_saved(s),
    ensures
        node_saved(s[i]),
    decreases s.len(),
{
    if i < s.len() - 1 {
        lemma_seq_node_saved_elem(s.drop_last(), i);
    }
}

/// Whether every entry of the viewer's in the subtree is saved.
pub fn is_node_saved(node: &BrowserNode<SignalNode>) -> (r: bool)
    ensures
        r == node_saved(*node),
    decreases *node,
{
    if get_node_owner(node) == ConfigOwner::User {
        return true;
    }
    match node.get_entry() {
        Some(entry) => {
            if !entry.is_saved() {
                return false;
            }
        },
        None => {},
    }
    let children = node.get_children();
    let mut i: usize = 0;
    while i < children.len()
        invariant
            i <= children@.len(),
            children@ == node.children_spec(),
            !all_user(*node),
            match entry_view(*node) {
                Some(e) => e.saved(),
                None => true,
            },
            seq_node_saved(children@.take(i as int)),
        decreases children.len() - i,
    {
        proof {
            lemma_seq_take_push(children@, i as int);
            lemma_children_decrease(*node);
        }
        if !is_node_saved(&children[i]) {
            proof {
                if seq_node_saved(children@) {
                    lemma_seq_node_saved_elem(children@, i as int);
                }
                assert(!all_user(*node));
                assert(!seq_node_saved(node.children_spec()));
            }
            return false;
        }
        i += 1;
    }
    proof {
        assert(children@.take(i as int) =~= children@);
    }
    true
}

/// `new` is `old` with every entry of the viewer's marked `value`; a
/// subtree of the user's is left as it is.
pub open spec fn saved_set(new: BrowserNode<SignalNode>, old: BrowserNode<SignalNode>, value: bool) -> bool
    decreases old,
{
    if all_user(old) {
        new == old
    } else {
        &&& entry_view(new) == match entry_view(old) {
            Some(e) => Some(e.with_saved(value)),
            None => None,
        }
        &&& new.expanded_spec() == old.expanded_spec()
        &&& {
            proof {
                lemma_children_decrease(old);
            }
            seq_saved_set(new.children_spec(), old.children_spec(), value)
        }
    }
}

pub open spec fn seq_saved_set(
    new: Seq<BrowserNode<SignalNode>>,
    old: Seq<BrowserNode<SignalNode>>,
    value: bool,
) -> bool
    decreases old,
{
    &&& new.len() == old.len()
    &&& (old.len() > 0 ==> {
        &&& seq_saved_set(new.drop_last(), old.drop_last(), value)
        &&& saved_set(new.last(), old.last(), value)
    })
}

/// Marks every entry of the viewer's in the subtree `saved`, leaving
/// subtrees of the user's as they are.
pub fn set_node_saved(node: &mut BrowserNode<SignalNode>, saved: bool)
    ensures
        saved_set(*final(node), *old(node), saved),
    decreases *old(node), 1nat,
{
    if get_node_owner(node) == ConfigOwner::User {
        return;
    }
    match node.get_entry_mut() {
        Some(entry) => entry.set_saved(saved),
        None => {},
    }
    proof {
        lemma_children_decrease(*old(node));
    }
    let children = node.get_children_mut();
    set_saved_all(children, saved);
}

fn set_saved_all(nodes: &mut Vec<BrowserNode<SignalNode>>, saved: bool)
    ensures
        seq_saved_set(final(nodes)@, old(nodes)@, saved),
    decreases old(nodes)@, 0nat,
{
    let ghost start = nodes@;
    let mut i: usize = 0;
    while i < nodes.len()
        invariant
            i <= nodes.len(),
            nodes@.len() == start.len(),
            start == old(nodes)@,
            forall|k: int| i <= k < start.len() ==> nodes@[k] == start[k],
            seq_saved_set(nodes@.take(i as int), start.take(i as int), saved),
        decreases nodes.len() - i,
    {
        let ghost before = nodes@;
        proof {
            assert(nodes@[i as int] == start[i as int]);
            assert(decreases_to!(start => start[i as int]));
        }
        set_node_saved(&mut nodes[i], saved);
        proof {
            assert(nodes@.take(i as int) =~= before.take(i as int));
            assert(nodes@.take(i + 1).drop_last() =~= nodes@.take(i as int));
            assert(start.take(i + 1).drop_last() =~= start.take(i as int));
        }
        i += 1;
    }
    proof {
        assert(nodes@.take(i as int) =~= nodes@);
        assert(start.take(i as int) =~= start);
    }
}

/// The path of the first signal of the configuration `node` (in order,
/// depth first) that `vars` has no variable for.
pub open spec fn first_missing(vars: Map<Seq<char>, VariableView>, node: SignalNodePyInternal) -> Option<
    Seq<char>,
>
    decreases node,
{
    match node {
        SignalNodePyInternal::Group { children, .. } => seq_first_missing(vars, children@),
        SignalNodePyInternal::Vector { children, .. } => seq_first_missing(vars, children@),
        SignalNodePyInternal::Signal { path, .. } => if vars.contains_key(path@) {
            None
        } else {
            Some(path@)
        },
        SignalNodePyInternal::Spacer { .. } => None,
    }
}

pub open spec fn seq_first_missing(vars: Map<Seq<char>, VariableView>, nodes: Seq<SignalNodePyInternal>) -> Option<
    Seq<char>,
>
    decreases nodes,
{
    if nodes.len() == 0 {
        None
    } else {
        match seq_first_missing(vars, nodes.drop_last()) {
            Some(p) => Some(p),
            None => first_missing(vars, nodes.last()),
        }
    }
}

/// `b` is the node of the list built from the configuration node `cfg`:
/// the same kind, name, radix, index and owner, expanded alike, saved, with
/// the children converted one by one; a signal is cut at its dots into a
/// path and gets the variable found for it, and a child per bit when that
/// variable is wider than one bit and the signal is not itself a bit.
pub open spec fn converted(vars: Map<Seq<char>, VariableView>, cfg: SignalNodePyInternal, b: BrowserNode<SignalNode>) -> bool
    decreases cfg,
{
    match cfg {
        SignalNodePyInternal::Group { name, children, expanded, owner } => {
            &&& entry_view(b) == Some(SignalNodeView::Group { name: name@, owner, saved: true })
            &&& b.expanded_spec() == expanded
            &&& seq_converted(vars, children@, b.children_spec())
        },
        SignalNodePyInternal::Vector { name, children, radix, expanded, owner } => {
            &&& entry_view(b) == Some(
                SignalNodeView::Vector { name: name@, radix, owner, saved: true },
            )
            &&& b.expanded_spec() == expanded
            &&& seq_converted(vars, children@, b.children_spec())
        },
        SignalNodePyInternal::Signal { path, radix, index, expanded, owner } => match entry_view(b) {
            Some(SignalNodeView::Signal { path: p, vcd_variable, radix: r, index: i, owner: o, saved }) => {
                &&& p == pieces(path@, '.')
                &&& vars.contains_key(path@)
                &&& vcd_variable == vars[path@]
                &&& r == radix
                &&& i == index
                &&& o == owner
                &&& saved
                &&& b.expanded_spec() == expanded
                &&& bit_children_ok(b.children_spec(), p, vcd_variable, radix, index, owner, true)
            },
            _ => false,
        },
        SignalNodePyInternal::Spacer { owner } => {
            &&& entry_view(b) == Some(SignalNodeView::Spacer { owner, saved: true })
            &&& !b.expanded_spec()
            &&& b.children_spec().len() == 0
        },
    }
}

pub open spec fn seq_converted(
    vars: Map<Seq<char>, VariableView>,
    cfgs: Seq<SignalNodePyInternal>,
    bs: Seq<BrowserNode<SignalNode>>,
) -> bool
    decreases cfgs,
{
    &&& cfgs.len() == bs.len()
    &&& (cfgs.len() > 0 ==> {
        &&& seq_converted(vars, cfgs.drop_last(), bs.drop_last())
        &&& converted(vars, cfgs.last(), bs.last())
    })
}

/// Once a prefix of a list has a missing signal, the first missing signal
/// of the whole list is that one.
proof fn lemma_seq_first_missing_prefix(
    vars: Map<Seq<char>, VariableView>,
    nodes: Seq<SignalNodePyInternal>,
    n: int,
)
    requires
        0 <= n <= nodes.len(),
        seq_first_missing(vars, nodes.take(n)) is Some,
    ensures
        seq_first_missing(vars, nodes) == seq_first_missing(vars, nodes.take(n)),
    decreases nodes.len() - n,
{
    if n < nodes.len() {
        assert(nodes.take(n + 1).drop_last() =~= nodes.take(n));
        lemma_seq_first_missing_prefix(vars, nodes, n + 1);
    } else {
        assert(nodes.take(n) =~= nodes);
    }
}

fn convert_children(
    children: &Vec<SignalNodePyInternal>,
    vcd_header: &VcdHeader,
    parent: Ghost<SignalNodePyInternal>,
) -> (r: Result<Vec<BrowserNode<SignalNode>>, SignalViewerError>)
    requires
        decreases_to!(parent@ => children@),
    ensures
        match r {
            Ok(v) => seq_first_missing(header_variables(*vcd_header), children@) is None && seq_converted(
                header_variables(*vcd_header),
                children@,
                v@,
            ),
            Err(e) => e matches SignalViewerError::VariableNotFound(p) && seq_first_missing(
                header_variables(*vcd_header),
                children@,
            ) == Some(p@),
        },
    decreases parent@, 0nat,
{
    let ghost vars = header_variables(*vcd_header);
    let mut out: Vec<BrowserNode<SignalNode>> = Vec::new();
    let mut i: usize = 0;
    while i < children.len()
        invariant
            i <= children@.len(),
            vars == header_variables(*vcd_header),
            decreases_to!(parent@ => children@),
            seq_first_missing(vars, children@.take(i as int)) is None,
            seq_converted(vars, children@.take(i as int), out@),
        decreases children.len() - i,
    {
        proof {
            lemma_seq_take_push(children@, i as int);
            assert(decreases_to!(children@ => children@[i as int]));
        }
        match convert_from_config_node(&children[i], vcd_header) {
            Ok(node) => {
                let ghost before = out@;
                out.push(node);
                assert(out@.drop_last() =~= before);
            },
            Err(err) => {
                proof {
                    lemma_seq_first_missing_prefix(vars, children@, i + 1);
                }
                return Err(err);
            },
        }
        i += 1;
    }
    assert(children@.take(i as int) =~= children@);
    Ok(out)
}

/// The node of the signal list for a node of a configuration script (see
/// `converted`). Fails with `VariableNotFound` and the path of a signal in
/// `node` when the waveform has no variable at that path (the first such
/// signal, in order).
pub fn convert_from_config_node(node: &SignalNodePyInternal, vcd_header: &VcdHeader) -> (r: Result<
    BrowserNode<SignalNode>,
    SignalViewerError,
>)
    ensures
        match r {
            Ok(b) => first_missing(header_variables(*vcd_header), *node) is None && converted(
                header_variables(*vcd_header),
                *node,
                b,
            ),
            Err(e) => e matches SignalViewerError::VariableNotFound(p) && first_missing(
                header_variables(*vcd_header),
                *node,
            ) == Some(p@),
        },
    decreases *node, 1nat,
{
    match node {
        SignalNodePyInternal::Group { name, children, expanded, owner } => {
            let children = convert_children(children, vcd_header, Ghost(*node))?;
            Ok(
                BrowserNode::from_expanded(
                    Some(SignalNode::Group { name: name.clone(), owner: *owner, saved: true }),
                    *expanded,
                    children,
                ),
            )
        },
        SignalNodePyInternal::Vector { name, children, radix, expanded, owner } => {
            let children = convert_children(children, vcd_header, Ghost(*node))?;
            Ok(
                BrowserNode::from_expanded(
                    Some(
                        SignalNode::Vector {
                            name: name.clone(),
                            radix: *radix,
                            owner: *owner,
                            saved: true,
                        },
                    ),
                    *expanded,
                    children,
                ),
            )
        },
        SignalNodePyInternal::Signal { path, radix, index, expanded, owner } => {
            let vcd_variable = match lookup_variable(vcd_header, path.as_str()) {
                Some(v) => v,
                None => {
                    return Err(SignalViewerError::VariableNotFound(path.clone()));
                },
            };
            let path = split_on(path.as_str(), '.');
            let children = make_bit_children(&path, &vcd_variable, *radix, *index, *owner, true);
            Ok(
                BrowserNode::from_expanded(
                    Some(
                        SignalNode::Signal {
                            path,
                            vcd_variable,
                            radix: *radix,
                            index: *index,
                            owner: *owner,
                            saved: true,
                        },
                    ),
                    *expanded,
                    children,
                ),
            )
        },
        SignalNodePyInternal::Spacer { owner } => Ok(
            BrowserNode::new(Some(SignalNode::Spacer { owner: *owner, saved: true })),
        ),
    }
}

/// A node of the list that turns into a node of a configuration for
/// `owner`: one with an entry, whose subtree belongs to `owner`.
pub open spec fn to_config_some(b: BrowserNode<SignalNode>, owner: ConfigOwner) -> bool {
    node_owner(b) == owner && b.entry_spec() is Some
}

/// `c` is the configuration node for the list node `b`: the same kind,
/// name, radix, index, owner and expansion; a signal's path joined with
/// dots; the children those of `b`'s children that belong to `b`'s owner,
/// in order, converted.
pub open spec fn config_of(b: BrowserNode<SignalNode>, c: SignalNodePyInternal) -> bool
    decreases b,
{
    match entry_view(b) {
        Some(SignalNodeView::Group { name, owner, .. }) => match c {
            SignalNodePyInternal::Group { name: n, children, expanded, owner: o } => {
                &&& n@ == name
                &&& expanded == b.expanded_spec()
                &&& o == owner
                &&& {
                    proof {
                        lemma_children_decrease(b);
                    }
                    seq_config_of(b.children_spec(), owner, children@)
                }
            },
            _ => false,
        },
        Some(SignalNodeView::Vector { name, radix, owner, .. }) => match c {
            SignalNodePyInternal::Vector { name: n, children, radix: r, expanded, owner: o } => {
                &&& n@ == name
                &&& r == radix
                &&& expanded == b.expanded_spec()
                &&& o == owner
                &&& {
                    proof {
                        lemma_children_decrease(b);
                    }
                    seq_config_of(b.children_spec(), owner, children@)
                }
            },
            _ => false,
        },
        Some(SignalNodeView::Signal { path, radix, index, owner, .. }) => match c {
            SignalNodePyInternal::Signal { path: p, radix: r, index: i, expanded, owner: o } => {
                &&& p@ == join_spec(path, "."@)
                &&& r == radix
                &&& i == index
                &&& expanded == b.expanded_spec()
                &&& o == owner
            },
            _ => false,
        },
        Some(SignalNodeView::Spacer { owner, .. }) => c == SignalNodePyInternal::Spacer { owner },
        None => false,
    }
}

/// `cs` are the configuration nodes of those of `bs` that turn into one for
/// `owner`, in order.
pub open spec fn seq_config_of(
    bs: Seq<BrowserNode<SignalNode>>,
    owner: ConfigOwner,
    cs: Seq<SignalNodePyInternal>,
) -> bool
    decreases bs,
{
    if bs.len() == 0 {
        cs.len() == 0
    } else if to_config_some(bs.last(), owner) {
        &&& cs.len() > 0
        &&& config_of(bs.last(), cs.last())
        &&& seq_config_of(bs.drop_last(), owner, cs.drop_last())
    } else {
        seq_config_of(bs.drop_last(), owner, cs)
    }
}

fn convert_children_to(
    children: &Vec<BrowserNode<SignalNode>>,
    owner: ConfigOwner,
    parent: Ghost<BrowserNode<SignalNode>>,
) -> (r: Vec<SignalNodePyInternal>)
    requires
        decreases_to!(parent@ => children@),
    ensures
        seq_config_of(children@, owner, r@),
    decreases parent@, 0nat,
{
    let mut out: Vec<SignalNodePyInternal> = Vec::new();
    let mut i: usize = 0;
    while i < children.len()
        invariant
            i <= children@.len(),
            decreases_to!(parent@ => children@),
            seq_config_of(children@.take(i as int), owner, out@),
        decreases children.len() - i,
    {
        proof {
            lemma_seq_take_push(children@, i as int);
            assert(decreases_to!(children@ => children@[i as int]));
        }
        match convert_to_config_node(&children[i], owner) {
            Some(c) => {
                let ghost before = out@;
                out.push(c);
                assert(out@.drop_last() =~= before);
            },
            None => {},
        }
        i += 1;
    }
    assert(children@.take(i as int) =~= children@);
    out
}

/// The configuration node for a node of the list, when the node has an
/// entry and its whole subtree belongs to `owner` (see `config_of`);
/// `None` otherwise.
pub fn convert_to_config_node(node: &BrowserNode<SignalNode>, owner: ConfigOwner) -> (r: Option<
    SignalNodePyInternal,
>)
    ensures
        match r {
            Some(c) => to_config_some(*node, owner) && config_of(*node, c),
            None => !to_config_some(*node, owner),
        },
    decreases *node, 1nat,
{
    if get_node_owner(node) != owner {
        return None;
    }
    proof {
        lemma_children_decrease(*node);
    }
    match node.get_entry() {
        Some(SignalNode::Group { name, owner, .. }) => Some(
            SignalNodePyInternal::Group {
                name: name.clone(),
                expanded: node.is_expanded(),
                owner: *owner,
                children: convert_children_to(node.get_children(), *owner, Ghost(*node)),
            },
        ),
        Some(SignalNode::Vector { name, radix, owner, .. }) => Some(
            SignalNodePyInternal::Vector {
                name: name.clone(),
                radix: *radix,
                expanded: node.is_expanded(),
                owner: *owner,
                children: convert_children_to(node.get_children(), *owner, Ghost(*node)),
            },
        ),
        Some(SignalNode::Signal { path, radix, index, owner, .. }) => Some(
            SignalNodePyInternal::Signal {
                path: join(path, "."),
                radix: *radix,
                index: *index,
                expanded: node.is_expanded(),
                owner: *owner,
            },
        ),
        Some(SignalNode::Spacer { owner, .. }) => Some(SignalNodePyInternal::Spacer { owner: *owner }),
        None => None,
    }
}

proof fn lemma_bits_prefix_all_user(children: Seq<BrowserNode<SignalNode>>, n: int)
    requires
        0 <= n <= children.len(),
        forall|i: int|
            0 <= i < children.len() ==> (entry_view(#[trigger] children[i]) matches Some(e)
                && e.owner() == ConfigOwner::User && children[i].children_spec().len() == 0),
    ensures
        seq_all_user(children.take(n)),
    decreases n,
{
    if n > 0 {
        lemma_bits_prefix_all_user(children, n - 1);
        assert(children.take(n).drop_last() =~= children.take(n - 1));
        let last = children[n - 1];
        assert(entry_view(last) is Some);
        assert(seq_all_user(last.children_spec()));
        assert(all_user(last));
        assert(children.take(n).last() == last);
    }
}

/// A node loaded from a configuration node that belongs to `owner`
/// throughout belongs to `owner` too.
proof fn lemma_converted_owner(
    vars: Map<Seq<char>, VariableView>,
    cfg: SignalNodePyInternal,
    b: BrowserNode<SignalNode>,
    owner: ConfigOwner,
)
    requires
        converted(vars, cfg, b),
        all_owned_by(cfg, owner),
    ensures
        node_owner(b) == owner,
    decreases cfg,
{
    if owner == ConfigOwner::User {
        match cfg {
            SignalNodePyInternal::Group { children, .. } => {
                lemma_seq_converted_all_user(vars, children@, b.children_spec());
            },
            SignalNodePyInternal::Vector { children, .. } => {
                lemma_seq_converted_all_user(vars, children@, b.children_spec());
            },
            SignalNodePyInternal::Signal { radix, index, .. } => {
                match entry_view(b) {
                    Some(SignalNodeView::Signal { path: p, vcd_variable, .. }) => {
                        if vcd_variable.bit_width > 1 && index is None {
                            lemma_bits_prefix_all_user(b.children_spec(), b.children_spec().len() as int);
                            assert(b.children_spec().take(b.children_spec().len() as int) =~= b.children_spec());
                        }
                    },
                    _ => {},
                }
            },
            SignalNodePyInternal::Spacer { .. } => {},
        }
    }
}

proof fn lemma_seq_converted_all_user(
    vars: Map<Seq<char>, VariableView>,
    cfgs: Seq<SignalNodePyInternal>,
    bs: Seq<BrowserNode<SignalNode>>,
)
    requires
        seq_converted(vars, cfgs, bs),
        seq_all_owned_by(cfgs, ConfigOwner::User),
    ensures
        seq_all_user(bs),
    decreases cfgs,
{
    if cfgs.len() > 0 {
        lemma_seq_converted_all_user(vars, cfgs.drop_last(), bs.drop_last());
        lemma_converted_owner(vars, cfgs.last(), bs.last(), ConfigOwner::User);
    }
}

/// Loading a configuration and saving it again gives back the same
/// configuration: the list node loaded from a configuration node that
/// belongs to `owner` throughout turns back into that configuration node
/// when saved for `owner`.
pub proof fn lemma_load_save_round_trip(
    vars: Map<Seq<char>, VariableView>,
    cfg: SignalNodePyInternal,
    b: BrowserNode<SignalNode>,
    owner: ConfigOwner,
)
    requires
        converted(vars, cfg, b),
        all_owned_by(cfg, owner),
    ensures
        to_config_some(b, owner),
        config_of(b, cfg),
    decreases cfg,
{
    lemma_converted_owner(vars, cfg, b, owner);
    lemma_children_decrease(b);
    match cfg {
        SignalNodePyInternal::Group { name, children, expanded, owner: o } => {
            lemma_seq_load_save_round_trip(vars, children@, b.children_spec(), owner);
            assert(o == owner);
            assert(entry_view(b) == Some(SignalNodeView::Group { name: name@, owner: o, saved: true }));
            assert(seq_config_of(b.children_spec(), o, children@));
            assert(b.expanded_spec() == expanded);
            assert(config_of(b, cfg));
        },
        SignalNodePyInternal::Vector { children, .. } => {
            lemma_seq_load_save_round_trip(vars, children@, b.children_spec(), owner);
            assert(config_of(b, cfg));
        },
        SignalNodePyInternal::Signal { path, .. } => {
            reveal_strlit(".");
            assert("."@ =~= seq!['.']);
            lemma_join_pieces(path@, '.');
            assert(config_of(b, cfg));
        },
        SignalNodePyInternal::Spacer { .. } => {
            assert(config_of(b, cfg));
        },
    }
}

/// The list form of `lemma_load_save_round_trip`: saving the nodes loaded
/// from configuration nodes that all belong to `owner` gives them back, in
/// order.
pub proof fn lemma_seq_load_save_round_trip(
    vars: Map<Seq<char>, VariableView>,
    cfgs: Seq<SignalNodePyInternal>,
    bs: Seq<BrowserNode<SignalNode>>,
    owner: ConfigOwner,
)
    requires
        seq_converted(vars, cfgs, bs),
        seq_all_owned_by(cfgs, owner),
    ensures
        seq_config_of(bs, owner, cfgs),
    decreases cfgs,
{
    if cfgs.len() > 0 {
        lemma_seq_load_save_round_trip(vars, cfgs.drop_last(), bs.drop_last(), owner);
        lemma_load_save_round_trip(vars, cfgs.last(), bs.last(), owner);
    }
}

/// After everything is marked saved, the whole list counts as saved.
pub proof fn lemma_saved_after_marking(new: BrowserNode<SignalNode>, old: BrowserNode<SignalNode>)
    requires
        saved_set(new, old, true),
    ensures
        node_saved(new),
    decreases old,
{
    lemma_children_decrease(old);
    lemma_children_decrease(new);
    if !all_user(old) {
        lemma_seq_saved_after_marking(new.children_spec(), old.children_spec());
    } else {
        assert(new == old);
    }
}

proof fn lemma_seq_saved_after_marking(new: Seq<BrowserNode<SignalNode>>, old: Seq<BrowserNode<SignalNode>>)
    requires
        seq_saved_set(new, old, true),
    ensures
        seq_node_saved(new),
    decreases old,
{
    if old.len() > 0 {
        lemma_seq_saved_after_marking(new.drop_last(), old.drop_last());
        lemma_saved_after_marking(new.last(), old.last());
    }
}

/// Whether a configuration may be loaded: not over signals added in the
/// viewer and not yet saved (unless forced), and only when a configuration
/// script was given.
pub fn check_load_config(node: &BrowserNode<SignalNode>, has_config: bool, force: bool) -> (r: Result<
    (),
    SignalViewerError,
>)
    ensures
        !node_saved(*node) && !force ==> r matches Err(SignalViewerError::UnsavedSignals),
        (node_saved(*node) || force) && !has_config ==> r matches Err(
            SignalViewerError::ConfigNotAvailable,
        ),
        (node_saved(*node) || force) && has_config ==> r is Ok,
{
    if !is_node_saved(node) && !force {
        return Err(SignalViewerError::UnsavedSignals);
    }
    if !has_config {
        return Err(SignalViewerError::ConfigNotAvailable);
    }
    Ok(())
}

/// The nodes of the list for the nodes of a configuration, in order (see
/// `converted`); fails like `convert_from_config_node`, on the first signal
/// of the list whose path the waveform has no variable at.
pub fn convert_config_list(nodes: &Vec<SignalNodePyInternal>, vcd_header: &VcdHeader) -> (r: Result<
    Vec<BrowserNode<SignalNode>>,
    SignalViewerError,
>)
    ensures
        match r {
            Ok(v) => seq_first_missing(header_variables(*vcd_header), nodes@) is None && seq_converted(
                header_variables(*vcd_header),
                nodes@,
                v@,
            ),
            Err(e) => e matches SignalViewerError::VariableNotFound(p) && seq_first_missing(
                header_variables(*vcd_header),
                nodes@,
            ) == Some(p@),
        },
{
    let ghost vars = header_variables(*vcd_header);
    let mut out: Vec<BrowserNode<SignalNode>> = Vec::new();
    let mut i: usize = 0;
    while i < nodes.len()
        invariant
            i <= nodes@.len(),
            vars == header_variables(*vcd_header),
            seq_first_missing(vars, nodes@.take(i as int)) is None,
            seq_converted(vars, nodes@.take(i as int), out@),
        decreases nodes.len() - i,
    {
        proof {
            lemma_seq_take_push(nodes@, i as int);
        }
        match convert_from_config_node(&nodes[i], vcd_header) {
            Ok(node) => {
                let ghost before = out@;
                out.push(node);
                assert(out@.drop_last() =~= before);
            },
            Err(err) => {
                proof {
                    lemma_seq_first_missing_prefix(vars, nodes@, i + 1);
                }
                return Err(err);
            },
        }
        i += 1;
    }
    assert(nodes@.take(i as int) =~= nodes@);
    Ok(out)
}

/// Replaces the entries of the list with the nodes of the viewer's
/// configuration followed by those of the user's.
pub fn replace_signals(
    node: &mut BrowserNode<SignalNode>,
    nodes_nalu: Vec<BrowserNode<SignalNode>>,
    nodes_user: Vec<BrowserNode<SignalNode>>,
)
    ensures
        final(node).entry_spec() == old(node).entry_spec(),
        final(node).expanded_spec() == old(node).expanded_spec(),
        final(node).children_spec() == nodes_nalu@ + nodes_user@,
{
    let mut nalu = nodes_nalu;
    let mut user = nodes_user;
    let children = node.get_children_mut();
    children.clear();
    children.append(&mut nalu);
    children.append(&mut user);
}

/// The configuration nodes of the entries of the list that belong to the
/// viewer, in order: what saving writes.
pub fn config_nodes(node: &BrowserNode<SignalNode>) -> (r: Vec<SignalNodePyInternal>)
    ensures
        seq_config_of(node.children_spec(), ConfigOwner::Nalu, r@),
{
    let children = node.get_children();
    let mut out: Vec<SignalNodePyInternal> = Vec::new();
    let mut i: usize = 0;
    while i < children.len()
        invariant
            i <= children@.len(),
            children@ == node.children_spec(),
            seq_config_of(children@.take(i as int), ConfigOwner::Nalu, out@),
        decreases children.len() - i,
    {
        proof {
            lemma_seq_take_push(children@, i as int);
        }
        match convert_to_config_node(&children[i], ConfigOwner::Nalu) {
            Some(c) => {
                let ghost before = out@;
                out.push(c);
                assert(out@.drop_last() =~= before);
            },
            None => {},
        }
        i += 1;
    }
    assert(children@.take(i as int) =~= children@);
    out
}

/// What a row of the waveform view shows: a signal (its id code, bit and
/// radix) and whether it is the selected row.
#[derive(Debug, Clone, Copy, PartialEq, Eq, Structural)]
pub struct WaveformNode {
    pub idcode: usize,
    pub index: Option<usize>,
    pub radix: SignalRadixPy,
    pub is_selected: bool,
}

/// The row for the line at `path`: the signal there, if any.
pub open spec fn waveform_row(node: BrowserNode<SignalNode>, path: Seq<usize>, selected: Seq<usize>) -> Option<
    WaveformNode,
> {
    match node.node_at(path) {
        Some(sub) => match entry_view(sub) {
            Some(SignalNodeView::Signal { vcd_variable, radix, index, .. }) => Some(
                WaveformNode { idcode: vcd_variable.idcode, index, radix, is_selected: path == selected },
            ),
            _ => None,
        },
        None => None,
    }
}

fn paths_equal(a: &BrowserNodePath, b: &BrowserNodePath) -> (r: bool)
    ensures
        r == (a@ == b@),
{
    if a.0.len() != b.0.len() {
        return false;
    }
    let mut i: usize = 0;
    while i < a.0.len()
        invariant
            i <= a.0@.len(),
            a.0@.len() == b.0@.len(),
            forall|k: int| 0 <= k < i ==> a.0@[k] == b.0@[k],
        decreases a.0.len() - i,
    {
        if a.0[i] != b.0[i] {
            return false;
        }
        i += 1;
    }
    assert(a.0@ =~= b.0@);
    true
}

/// The rows the waveform view shows for the lines in the window of the
/// list.
pub fn waveform_rows(state: &BrowserState, node: &BrowserNode<SignalNode>) -> (r: Vec<Option<WaveformNode>>)
    requires
        node.node_count() <= usize::MAX,
        state@.scroll + state@.height <= isize::MAX,
        state@.scroll + state@.height >= isize::MIN,
    ensures
        ({
            let visible = node.paths_in(
                state@.scroll as usize as int,
                (state@.scroll + state@.height) as usize as int,
                false,
            );
            let selected = node.path_at(state@.cursor as usize as int);
            &&& r@.len() == visible.len()
            &&& forall|i: int| 0 <= i < r@.len() ==> r@[i] == waveform_row(*node, #[trigger] visible[i], selected)
        }),
{
    let selected = state.get_primary_selected_path(node);
    let paths = state.get_visible_paths(node);
    proof {
        lemma_paths_in_in_range(
            *node,
            state@.scroll as usize as int,
            (state@.scroll + state@.height) as usize as int,
            false,
        );
    }
    let ghost all = paths_view(paths@);
    let mut rows: Vec<Option<WaveformNode>> = Vec::new();
    let mut i: usize = 0;
    while i < paths.len()
        invariant
            i <= paths@.len(),
            all == paths_view(paths@),
            forall|k: int| 0 <= k < all.len() ==> node.path_walkable(#[trigger] all[k]),
            rows@.len() == i,
            forall|k: int| 0 <= k < i ==> rows@[k] == waveform_row(*node, #[trigger] all[k], selected@),
        decreases paths.len() - i,
    {
        assert(node.path_walkable(all[i as int]));
        let row = match node.get_node(&paths[i]) {
            Some(sub) => match sub.get_entry() {
                Some(SignalNode::Signal { vcd_variable, radix, index, .. }) => Some(
                    WaveformNode {
                        idcode: vcd_variable.idcode,
                        index: *index,
                        radix: *radix,
                        is_selected: paths_equal(&selected, &paths[i]),
                    },
                ),
                _ => None,
            },
            None => None,
        };
        rows.push(row);
        i += 1;
    }
    rows
}


proof fn lemma_saved_set_count(new: BrowserNode<SignalNode>, old: BrowserNode<SignalNode>, value: bool)
    requires
        saved_set(new, old, value),
    ensures
        new.node_count() == old.node_count(),
    decreases old, 1nat,
{
    if !all_user(old) {
        lemma_children_decrease(old);
        lemma_seq_saved_set_count(new.children_spec(), old.children_spec(), value);
        lemma_node_count_unfold(new);
        lemma_node_count_unfold(old);
    }
}

proof fn lemma_seq_saved_set_count(
    new: Seq<BrowserNode<SignalNode>>,
    old: Seq<BrowserNode<SignalNode>>,
    value: bool,
)
    requires
        seq_saved_set(new, old, value),
    ensures
        crate::widgets::browser::seq_node_count(new) == crate::widgets::browser::seq_node_count(old),
    decreases old, 0nat,
{
    lemma_seq_node_count_unfold(new);
    lemma_seq_node_count_unfold(old);
    if old.len() > 0 {
        lemma_seq_saved_set_count(new.drop_last(), old.drop_last(), value);
        lemma_saved_set_count(new.last(), old.last(), value);
    }
}

/// What a request on the list of signals does: grouping and deleting do
/// nothing yet; expanding flips the node on the cursor's line.
#[derive(Debug, Clone, Copy, PartialEq, Eq, Structural)]
pub enum ListAction {
    Group,
    Delete,
    Expand,
}

/// A node that `create_vcd_variable_node` makes for the viewer: the signal
/// `variable` at `path`, shown in `radix`, not yet saved, collapsed, with a
/// node for each bit of a wider signal.
pub open spec fn created_signal(
    n: BrowserNode<SignalNode>,
    path: Seq<Seq<char>>,
    variable: VariableView,
    radix: SignalRadixPy,
) -> bool {
    &&& entry_view(n) == Some(
        SignalNodeView::Signal {
            path,
            vcd_variable: variable,
            radix,
            index: None,
            owner: ConfigOwner::Nalu,
            saved: false,
        },
    )
    &&& !n.expanded_spec()
    &&& bit_children_ok(n.children_spec(), path, variable, radix, None, ConfigOwner::Nalu, false)
}

/// What a key does to the list of signals (`key_used` says whether it was
/// one the list takes): the navigation keys move the cursor, `Enter` flips
/// the node on the cursor's line, `f` switches between full and indented
/// names, `g` (group) and `Delete` do nothing yet.
pub open spec fn signal_key_spec(
    before: (BrowserStateView, BrowserNode<SignalNode>),
    after: (BrowserStateView, BrowserNode<SignalNode>),
    key: KeyInput,
    key_used: bool,
) -> bool {
    let (s, n) = before;
    match nav_delta(key.key) {
        Some(d) => after == (s.after_select(n.render_len(), d, !key.shift), n) && key_used,
        None => match key.key {
            Key::Enter => after.0 == s && toggled_at(n, after.1, n.path_at(s.cursor as usize as int))
                && key_used,
            Key::Char('f') => after == (
                BrowserStateView {
                    indent_enabled: !s.full_name_enabled,
                    full_name_enabled: !s.full_name_enabled,
                    ..s
                },
                n,
            ) && key_used,
            Key::Char('g') => after == before && key_used,
            Key::Delete => after == before && key_used,
            _ => after == before && !key_used,
        },
    }
}

/// The list of signals shown beside the waveform: a browser over the tree
/// of signal nodes.
pub struct SignalViewerState {
    browser: BrowserState,
    node: BrowserNode<SignalNode>,
}

impl SignalViewerState {
    /// The browser's positions and the tree's size stay within the
    /// bounds of `list_ok`.
    pub closed spec fn wf(self) -> bool {
        list_ok(self.browser@, self.node)
    }

    pub closed spec fn browser_view(self) -> BrowserStateView {
        self.browser@
    }

    pub closed spec fn tree(self) -> BrowserNode<SignalNode> {
        self.node
    }

    /// An empty list, with scroll markers and indented names.
    pub fn new() -> (r: Self)
        ensures
            r.browser_view() == (BrowserStateView {
                bounds_enabled: true,
                indent_enabled: true,
                full_name_enabled: false,
                scroll: 0,
                cursor: 0,
                cursor_secondary: None,
                height: 0,
            }),
            r.tree().entry_spec() is None,
            r.tree().expanded_spec(),
            r.tree().children_spec() == Seq::<BrowserNode<SignalNode>>::empty(),
            r.wf(),
    {
        let node = BrowserNode::from_expanded(None, true, Vec::new());
        proof {
            lemma_node_count_unfold(node);
            lemma_seq_node_count_unfold(node.children_spec());
        }
        SignalViewerState { browser: BrowserState::new(true, true, false), node }
    }

    pub fn get_browser(&self) -> (r: Browser<'_, SignalNode>)
        ensures
            r.state()@ == self.browser_view(),
            *r.node() == self.tree(),
    {
        Browser::new(&self.browser, &self.node)
    }

    pub fn get_browser_state(&self) -> (r: &BrowserState)
        ensures
            r@ == self.browser_view(),
    {
        &self.browser
    }

    pub fn get_node(&self) -> (r: &BrowserNode<SignalNode>)
        ensures
            *r == self.tree(),
    {
        &self.node
    }

    /// Adds the signal `variable` at `path` to the end of the list, owned by
    /// the viewer and shown in `radix`. Nothing is added, and the result is
    /// `false`, where the tree would pass `node_limit()` nodes.
    pub fn append_signal(&mut self, path: Vec<String>, variable: VariableInfo, radix: SignalRadixPy) -> (r:
        bool)
        requires
            old(self).wf(),
        ensures
            final(self).wf(),
            final(self).browser_view() == old(self).browser_view(),
            r ==> {
                let children = final(self).tree().children_spec();
                &&& children.drop_last() == old(self).tree().children_spec()
                &&& children.len() == old(self).tree().children_spec().len() + 1
                &&& created_signal(children.last(), strings_of(path@), variable@, radix)
                &&& final(self).tree().entry_spec() == old(self).tree().entry_spec()
                &&& final(self).tree().expanded_spec() == old(self).tree().expanded_spec()
            },
            !r ==> *final(self) == *old(self) && exists|n: BrowserNode<SignalNode>|
                created_signal(n, strings_of(path@), variable@, radix) && old(self).tree().node_count()
                    + n.node_count() > node_limit(),
    {
        let ghost path_view = strings_of(path@);
        let ghost variable_view = variable@;
        let node = create_vcd_variable_node(path, variable, radix, ConfigOwner::Nalu);
        let limit = node_limit_value();
        let have = self.node.count_nodes_upto(limit);
        let add = node.count_nodes_upto(limit);
        if add > limit - have {
            proof {
                assert(created_signal(node, path_view, variable_view, radix));
            }
            return false;
        }
        proof {
            lemma_node_count_unfold(self.node);
            lemma_seq_node_count_concat(self.node.children_spec(), seq![node]);
            lemma_seq_node_count_unfold(seq![node]);
            lemma_seq_node_count_unfold(Seq::<BrowserNode<SignalNode>>::empty());
            assert(seq![node].drop_last() =~= Seq::<BrowserNode<SignalNode>>::empty());
        }
        let ghost before = self.node;
        let children = self.node.get_children_mut();
        children.push(node);
        proof {
            lemma_node_count_unfold(self.node);
            assert(self.node.children_spec() =~= before.children_spec() + seq![node]);
            assert(self.node.children_spec().drop_last() =~= before.children_spec());
        }
        true
    }

    /// Replaces the list with the nodes of the viewer's configuration
    /// followed by those of the user's. Nothing changes, and the result is
    /// `false`, where the tree would pass `node_limit()` nodes.
    pub fn apply_config(&mut self, nodes_nalu: Vec<BrowserNode<SignalNode>>, nodes_user: Vec<BrowserNode<SignalNode>>) -> (r: bool)
        requires
            old(self).wf(),
        ensures
            final(self).wf(),
            final(self).browser_view() == old(self).browser_view(),
            r == (1 + crate::widgets::browser::seq_node_count(nodes_nalu@)
                + crate::widgets::browser::seq_node_count(nodes_user@) <= node_limit()),
            r ==> {
                &&& final(self).tree().children_spec() == nodes_nalu@ + nodes_user@
                &&& final(self).tree().entry_spec() == old(self).tree().entry_spec()
                &&& final(self).tree().expanded_spec() == old(self).tree().expanded_spec()
            },
            !r ==> *final(self) == *old(self),
    {
        let limit = node_limit_value();
        let a = count_seq_upto(&nodes_nalu, limit);
        if a >= limit {
            return false;
        }
        let b = count_seq_upto(&nodes_user, limit);
        if b > limit - 1 - a {
            return false;
        }
        proof {
            lemma_seq_node_count_concat(nodes_nalu@, nodes_user@);
        }
        replace_signals(&mut self.node, nodes_nalu, nodes_user);
        proof {
            lemma_node_count_unfold(self.node);
        }
        true
    }

    /// Marks the viewer's signals saved, after the configuration was
    /// written.
    pub fn mark_saved(&mut self)
        requires
            old(self).wf(),
        ensures
            final(self).wf(),
            final(self).browser_view() == old(self).browser_view(),
            saved_set(final(self).tree(), old(self).tree(), true),
    {
        let ghost before = self.node;
        set_node_saved(&mut self.node, true);
        proof {
            lemma_saved_set_count(self.node, before, true);
        }
    }

    /// Fits the window to the height of `size` inside borders
    /// `border_width` wide, and scrolls it back onto the cursor.
    pub fn set_size(&mut self, size: &Rect, border_width: u16)
        requires
            old(self).wf(),
        ensures
            final(self).wf(),
            final(self).tree() == old(self).tree(),
            final(self).browser_view() == (BrowserStateView {
                height: inner_height(size.height, border_width),
                ..old(self).browser_view()
            }).after_scroll(old(self).tree().render_len(), 0),
    {
        resize_list(&mut self.browser, &self.node, size.height, border_width);
    }

    /// `set_size` for a pane `width` by `height` with a border one wide.
    pub fn resize(&mut self, width: u16, height: u16)
        requires
            old(self).wf(),
        ensures
            final(self).wf(),
            final(self).tree() == old(self).tree(),
            final(self).browser_view() == (BrowserStateView {
                height: inner_height(height, 1),
                ..old(self).browser_view()
            }).after_scroll(old(self).tree().render_len(), 0),
    {
        self.set_size(&Rect { x: 0, y: 0, width, height }, 1);
    }

    /// Carries out `action` (see `ListAction`).
    pub fn modify(&mut self, action: ListAction)
        requires
            old(self).wf(),
        ensures
            final(self).wf(),
            final(self).browser_view() == old(self).browser_view(),
            action is Expand ==> toggled_at(
                old(self).tree(),
                final(self).tree(),
                old(self).tree().path_at(old(self).browser_view().cursor as usize as int),
            ),
            !(action is Expand) ==> final(self).tree() == old(self).tree(),
    {
        match action {
            ListAction::Group => {},
            ListAction::Delete => {},
            ListAction::Expand => {
                toggle_selected(&self.browser, &mut self.node);
            },
        }
    }

    /// The rows the waveform view shows for the lines in the window (see
    /// `waveform_rows`).
    pub fn update_waveform_viewer(&self) -> (r: Vec<Option<WaveformNode>>)
        requires
            self.wf(),
        ensures
            ({
                let s = self.browser_view();
                let visible = self.tree().paths_in(
                    s.scroll as usize as int,
                    (s.scroll + s.height) as usize as int,
                    false,
                );
                let selected = self.tree().path_at(s.cursor as usize as int);
                &&& r@.len() == visible.len()
                &&& forall|i: int|
                    0 <= i < r@.len() ==> r@[i] == waveform_row(self.tree(), #[trigger] visible[i], selected)
            }),
    {
        waveform_rows(&self.browser, &self.node)
    }

    /// Handles a mouse event on row `y` of the list (see `mouse_spec`).
    pub fn handle_mouse(&mut self, y: u16, kind: MouseKind) -> (r: bool)
        requires
            old(self).wf(),
        ensures
            final(self).wf(),
            mouse_spec(
                (old(self).browser_view(), old(self).tree()),
                (final(self).browser_view(), final(self).tree()),
                y,
                kind,
            ),
            r == (kind is LeftDown || kind is ScrollDown || kind is ScrollUp),
    {
        list_mouse(&mut self.browser, &mut self.node, y, kind)
    }

    /// Handles a key (see `signal_key_spec`); whether the list took it.
    pub fn handle_key(&mut self, key: KeyInput) -> (r: bool)
        requires
            old(self).wf(),
        ensures
            final(self).wf(),
            signal_key_spec(
                (old(self).browser_view(), old(self).tree()),
                (final(self).browser_view(), final(self).tree()),
                key,
                r,
            ),
    {
        if navigate(&mut self.browser, &self.node, key) {
            return true;
        }
        match key.key {
            Key::Enter => self.modify(ListAction::Expand),
            Key::Char('g') => self.modify(ListAction::Group),
            Key::Char('f') => toggle_full_name(&mut self.browser),
            Key::Delete => self.modify(ListAction::Delete),
            _ => {
                return false;
            },
        }
        true
    }
}

} // verus!
