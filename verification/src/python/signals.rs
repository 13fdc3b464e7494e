use vstd::prelude::*;

use crate::python::ConfigOwner;
use crate::text::{decimal, lemma_trim_first_char, push_decimal, push_repeat, push_str, repeat_char, trim};

verus! {

/// The radix a signal's value is shown in.
#[derive(Copy, Clone, Debug, PartialEq, Eq, Structural)]
pub enum SignalRadixPy {
    Binary,
    Octal,
    Decimal,
    Hexadecimal,
}

/// How a radix is written in a configuration script.
pub open spec fn radix_text(r: SignalRadixPy) -> Seq<char> {
    match r {
        SignalRadixPy::Binary => "SignalRadix.Binary"@,
        SignalRadixPy::Octal => "SignalRadix.Octal"@,
        SignalRadixPy::Decimal => "SignalRadix.Decimal"@,
        SignalRadixPy::Hexadecimal => "SignalRadix.Hexadecimal"@,
    }
}

fn radix_str(r: SignalRadixPy) -> (s: &'static str)
    ensures
        s@ == radix_text(r),
{
    match r {
        SignalRadixPy::Binary => "SignalRadix.Binary",
        SignalRadixPy::Octal => "SignalRadix.Octal",
        SignalRadixPy::Decimal => "SignalRadix.Decimal",
        SignalRadixPy::Hexadecimal => "SignalRadix.Hexadecimal",
    }
}

impl SignalRadixPy {
    /// The radix as a configuration script writes it.
    pub fn print_python(&self) -> (r: String)
        ensures
            r@ == radix_text(*self),
    {
        let mut s = String::new();
        push_str(&mut s, radix_str(*self));
        assert(s@ =~= radix_text(*self));
        s
    }
}

/// A node of a signal configuration, as a configuration script describes it.
#[derive(Debug, PartialEq)]
pub enum SignalNodePyInternal {
    Group {
        name: String,
        children: Vec<SignalNodePyInternal>,
        expanded: bool,
        owner: ConfigOwner,
    },
    Vector {
        name: String,
        children: Vec<SignalNodePyInternal>,
        radix: SignalRadixPy,
        expanded: bool,
        owner: ConfigOwner,
    },
    /// A signal of the waveform; the bits of a multi-bit signal are its
    /// children, which the viewer adds by itself.
    Signal {
        path: String,
        radix: SignalRadixPy,
        index: Option<usize>,
        expanded: bool,
        owner: ConfigOwner,
    },
    Spacer { owner: ConfigOwner },
}

fn clone_nodes(nodes: &Vec<SignalNodePyInternal>) -> (r: Vec<SignalNodePyInternal>)
    ensures
        r@.len() == nodes@.len(),
    decreases nodes@, 0nat,
{
    let mut r: Vec<SignalNodePyInternal> = Vec::new();
    let mut i: usize = 0;
    while i < nodes.len()
        invariant
            i <= nodes.len(),
            r@.len() == i,
        decreases nodes.len() - i,
    {
        r.push(nodes[i].clone());
        i += 1;
    }
    r
}

impl Clone for SignalNodePyInternal {
    fn clone(&self) -> (r: Self)
        decreases *self, 1nat,
    {
        match self {
            Self::Group { name, children, expanded, owner } => Self::Group {
                name: name.clone(),
                children: clone_nodes(children),
                expanded: *expanded,
                owner: *owner,
            },
            Self::Vector { name, children, radix, expanded, owner } => Self::Vector {
                name: name.clone(),
                children: clone_nodes(children),
                radix: *radix,
                expanded: *expanded,
                owner: *owner,
            },
            Self::Signal { path, radix, index, expanded, owner } => Self::Signal {
                path: path.clone(),
                radix: *radix,
                index: *index,
                expanded: *expanded,
                owner: *owner,
            },
            Self::Spacer { owner } => Self::Spacer { owner: *owner },
        }
    }
}

/// `indents` levels of four spaces.
pub open spec fn pad(indents: nat) -> Seq<char> {
    repeat_char(' ', indents * 4)
}

/// A flag as Python writes it.
pub open spec fn py_bool(b: bool) -> Seq<char> {
    if b {
        "True"@
    } else {
        "False"@
    }
}

/// A bit index as Python writes it.
pub open spec fn py_index(index: Option<usize>) -> Seq<char> {
    match index {
        Some(i) => decimal(i as nat),
        None => "None"@,
    }
}

/// The text of the lines of Python that build `node` inside a list, at
/// `indents` levels of indentation.
pub open spec fn python_lines(node: SignalNodePyInternal, indents: nat) -> Seq<Seq<char>>
    decreases node,
{
    match node {
        SignalNodePyInternal::Group { name, children, expanded, .. } => {
            let head = pad(indents) + "new_group(\""@ + name@ + "\", "@ + py_bool(expanded)
                + ", ["@;
            if children@.len() == 0 {
                seq![head + "]),"@]
            } else {
                seq![head] + seq_python_lines(children@, indents + 1) + seq![pad(indents) + "]),"@]
            }
        },
        SignalNodePyInternal::Vector { name, children, radix, expanded, .. } => {
            let head = pad(indents) + "new_vector(\""@ + name@ + "\", "@ + radix_text(radix) + ", "@
                + py_bool(expanded) + ", ["@;
            if children@.len() == 0 {
                seq![head + "]),"@]
            } else {
                seq![head] + seq_python_lines(children@, indents + 1) + seq![pad(indents) + "]),"@]
            }
        },
        SignalNodePyInternal::Signal { path, radix, index, expanded, .. } => {
            seq![
                pad(indents) + "new_signal(\""@ + path@ + "\", "@ + radix_text(radix) + ", "@
                    + py_bool(expanded) + ", "@ + py_index(index) + "),"@,
            ]
        },
        SignalNodePyInternal::Spacer { .. } => seq![pad(indents) + "new_spacer(),"@],
    }
}

/// The lines of a list of sibling nodes, one after the other.
pub open spec fn seq_python_lines(nodes: Seq<SignalNodePyInternal>, indents: nat) -> Seq<Seq<char>>
    decreases nodes,
{
    if nodes.len() == 0 {
        Seq::empty()
    } else {
        seq_python_lines(nodes.drop_last(), indents) + python_lines(nodes.last(), indents)
    }
}

/// How deep groups and vectors nest in `node` (0 for a signal or spacer).
pub open spec fn depth(node: SignalNodePyInternal) -> nat
    decreases node,
{
    match node {
        SignalNodePyInternal::Group { children, .. } => 1 + seq_depth(children@),
        SignalNodePyInternal::Vector { children, .. } => 1 + seq_depth(children@),
        _ => 0,
    }
}

/// The deepest nesting among sibling nodes.
pub open spec fn seq_depth(nodes: Seq<SignalNodePyInternal>) -> nat
    decreases nodes,
{
    if nodes.len() == 0 {
        0
    } else {
        let a = seq_depth(nodes.drop_last());
        let b = depth(nodes.last());
        if a >= b {
            a
        } else {
            b
        }
    }
}

/// The owner written in a node itself.
pub open spec fn owner_of(node: SignalNodePyInternal) -> ConfigOwner {
    match node {
        SignalNodePyInternal::Group { owner, .. } => owner,
        SignalNodePyInternal::Vector { owner, .. } => owner,
        SignalNodePyInternal::Signal { owner, .. } => owner,
        SignalNodePyInternal::Spacer { owner } => owner,
    }
}

/// `new` is `old` with the owner of every node in it set to `value`, and
/// nothing else changed.
pub open spec fn reowned(new: SignalNodePyInternal, old: SignalNodePyInternal, value: ConfigOwner) -> bool
    decreases old,
{
    match old {
        SignalNodePyInternal::Group { name, children, expanded, .. } => match new {
            SignalNodePyInternal::Group { name: n, children: c, expanded: e, owner: o } => {
                &&& n@ == name@
                &&& e == expanded
                &&& o == value
                &&& seq_reowned(c@, children@, value)
            },
            _ => false,
        },
        SignalNodePyInternal::Vector { name, children, radix, expanded, .. } => match new {
            SignalNodePyInternal::Vector { name: n, children: c, radix: r, expanded: e, owner: o } => {
                &&& n@ == name@
                &&& r == radix
                &&& e == expanded
                &&& o == value
                &&& seq_reowned(c@, children@, value)
            },
            _ => false,
        },
        SignalNodePyInternal::Signal { path, radix, index, expanded, .. } => match new {
            SignalNodePyInternal::Signal { path: p, radix: r, index: i, expanded: e, owner: o } => {
                &&& p@ == path@
                &&& r == radix
                &&& i == index
                &&& e == expanded
                &&& o == value
            },
            _ => false,
        },
        SignalNodePyInternal::Spacer { .. } => new == SignalNodePyInternal::Spacer { owner: value },
    }
}

/// Two lists of siblings, node by node `reowned`.
pub open spec fn seq_reowned(
    new: Seq<SignalNodePyInternal>,
    old: Seq<SignalNodePyInternal>,
    value: ConfigOwner,
) -> bool
    decreases old,
{
    &&& new.len() == old.len()
    &&& (old.len() > 0 ==> {
        &&& seq_reowned(new.drop_last(), old.drop_last(), value)
        &&& reowned(new.last(), old.last(), value)
    })
}

/// Every node in `node` is owned by `value`.
pub open spec fn all_owned_by(node: SignalNodePyInternal, value: ConfigOwner) -> bool
    decreases node,
{
    owner_of(node) == value && match node {
        SignalNodePyInternal::Group { children, .. } => seq_all_owned_by(children@, value),
        SignalNodePyInternal::Vector { children, .. } => seq_all_owned_by(children@, value),
        _ => true,
    }
}

pub open spec fn seq_all_owned_by(nodes: Seq<SignalNodePyInternal>, value: ConfigOwner) -> bool
    decreases nodes,
{
    nodes.len() > 0 ==> seq_all_owned_by(nodes.drop_last(), value) && all_owned_by(
        nodes.last(),
        value,
    )
}

pub open spec fn strings_view(v: Seq<String>) -> Seq<Seq<char>> {
    v.map_values(|s: String| s@)
}

fn py_bool_str(b: bool) -> (s: &'static str)
    ensures
        s@ == py_bool(b),
{
    if b {
        "True"
    } else {
        "False"
    }
}

proof fn lemma_seq_python_lines_push(nodes: Seq<SignalNodePyInternal>, i: int, indents: nat)
    requires
        0 <= i < nodes.len(),
    ensures
        seq_python_lines(nodes.take(i + 1), indents) == seq_python_lines(nodes.take(i), indents)
            + python_lines(nodes[i], indents),
{
    assert(nodes.take(i + 1).drop_last() =~= nodes.take(i));
}

proof fn lemma_seq_depth_bound(nodes: Seq<SignalNodePyInternal>, i: int)
    requires
        0 <= i < nodes.len(),
    ensures
        depth(nodes[i]) <= seq_depth(nodes),
    decreases nodes.len(),
{
    if i < nodes.len() - 1 {
        lemma_seq_depth_bound(nodes.drop_last(), i);
    }
}

/// Appends the lines of `nodes` to `out`, at `indents` levels.
fn print_children(out: &mut Vec<String>, nodes: &Vec<SignalNodePyInternal>, indents: usize)
    requires
        (indents + seq_depth(nodes@)) * 4 <= usize::MAX,
    ensures
        strings_view(final(out)@) == strings_view(old(out)@) + seq_python_lines(nodes@, indents as nat),
    decreases nodes@, 0nat,
{
    let ghost start = strings_view(out@);
    let mut i: usize = 0;
    while i < nodes.len()
        invariant
            i <= nodes.len(),
            (indents + seq_depth(nodes@)) * 4 <= usize::MAX,
            strings_view(out@) == start + seq_python_lines(nodes@.take(i as int), indents as nat),
        decreases nodes.len() - i,
    {
        proof {
            lemma_seq_depth_bound(nodes@, i as int);
            lemma_seq_python_lines_push(nodes@, i as int, indents as nat);
        }
        let mut lines = nodes[i].print_python(indents);
        let ghost before = out@;
        let ghost added = lines@;
        out.append(&mut lines);
        proof {
            assert(strings_view(before + added) =~= strings_view(before) + strings_view(added));
        }
        i += 1;
    }
    proof {
        assert(nodes@.take(i as int) =~= nodes@);
    }
}

impl SignalNodePyInternal {
    /// The lines of Python that build this node inside a list, indented by
    /// `indents` levels of four spaces: groups and vectors open a list of
    /// their children, each child a level deeper, and close it on a line of
    /// their own.
    pub fn print_python(&self, indents: usize) -> (r: Vec<String>)
        requires
            (indents + depth(*self)) * 4 <= usize::MAX,
        ensures
            strings_view(r@) == python_lines(*self, indents as nat),
        decreases *self, 1nat,
    {
        let spaces = indents * 4;
        let mut v: Vec<String> = Vec::new();
        match self {
            Self::Group { name, children, expanded, .. } => {
                let mut head = String::new();
                push_repeat(&mut head, ' ', spaces);
                push_str(&mut head, "new_group(\"");
                push_str(&mut head, name.as_str());
                push_str(&mut head, "\", ");
                push_str(&mut head, py_bool_str(*expanded));
                push_str(&mut head, ", [");
                if children.len() == 0 {
                    push_str(&mut head, "]),");
                    v.push(head);
                    assert(strings_view(v@) =~= python_lines(*self, indents as nat));
                } else {
                    v.push(head);
                    print_children(&mut v, children, indents + 1);
                    let mut tail = String::new();
                    push_repeat(&mut tail, ' ', spaces);
                    push_str(&mut tail, "]),");
                    let ghost before = v@;
                    v.push(tail);
                    assert(strings_view(v@) =~= strings_view(before).push(tail@));
                    assert(strings_view(v@) =~= python_lines(*self, indents as nat));
                }
            },
            Self::Vector { name, children, radix, expanded, .. } => {
                let mut head = String::new();
                push_repeat(&mut head, ' ', spaces);
                push_str(&mut head, "new_vector(\"");
                push_str(&mut head, name.as_str());
                push_str(&mut head, "\", ");
                push_str(&mut head, radix_str(*radix));
                push_str(&mut head, ", ");
                push_str(&mut head, py_bool_str(*expanded));
                push_str(&mut head, ", [");
                if children.len() == 0 {
                    push_str(&mut head, "]),");
                    v.push(head);
                    assert(strings_view(v@) =~= python_lines(*self, indents as nat));
                } else {
                    v.push(head);
                    print_children(&mut v, children, indents + 1);
                    let mut tail = String::new();
                    push_repeat(&mut tail, ' ', spaces);
                    push_str(&mut tail, "]),");
                    let ghost before = v@;
                    v.push(tail);
                    assert(strings_view(v@) =~= strings_view(before).push(tail@));
                    assert(strings_view(v@) =~= python_lines(*self, indents as nat));
                }
            },
            Self::Signal { path, radix, index, expanded, .. } => {
                let mut line = String::new();
                push_repeat(&mut line, ' ', spaces);
                push_str(&mut line, "new_signal(\"");
                push_str(&mut line, path.as_str());
                push_str(&mut line, "\", ");
                push_str(&mut line, radix_str(*radix));
                push_str(&mut line, ", ");
                push_str(&mut line, py_bool_str(*expanded));
                push_str(&mut line, ", ");
                match index {
                    Some(i) => push_decimal(&mut line, *i as u64),
                    None => push_str(&mut line, "None"),
                }
                push_str(&mut line, "),");
                v.push(line);
                assert(strings_view(v@) =~= python_lines(*self, indents as nat));
            },
            Self::Spacer { .. } => {
                let mut line = String::new();
                push_repeat(&mut line, ' ', spaces);
                push_str(&mut line, "new_spacer(),");
                v.push(line);
                assert(strings_view(v@) =~= python_lines(*self, indents as nat));
            },
        }
        v
    }

    /// The owner written in this node.
    pub fn get_owner(&self) -> (r: ConfigOwner)
        ensures
            r == owner_of(*self),
    {
        match self {
            Self::Group { owner, .. } => *owner,
            Self::Vector { owner, .. } => *owner,
            Self::Signal { owner, .. } => *owner,
            Self::Spacer { owner } => *owner,
        }
    }

    /// Gives this node and every node below it to `value`.
    pub fn set_owner(&mut self, value: ConfigOwner)
        ensures
            reowned(*final(self), *old(self), value),
        decreases *old(self), 1nat,
    {
        match self {
            Self::Group { owner, children, .. } => {
                *owner = value;
                set_owner_all(children, value);
            },
            Self::Vector { owner, children, .. } => {
                *owner = value;
                set_owner_all(children, value);
            },
            Self::Spacer { owner } => *owner = value,
            Self::Signal { owner, .. } => *owner = value,
        }
    }
}

proof fn lemma_seq_reowned_push(
    new: Seq<SignalNodePyInternal>,
    old: Seq<SignalNodePyInternal>,
    i: int,
    value: ConfigOwner,
)
    requires
        0 <= i < old.len(),
        new.len() == old.len(),
        seq_reowned(new.take(i), old.take(i), value),
        reowned(new[i], old[i], value),
    ensures
        seq_reowned(new.take(i + 1), old.take(i + 1), value),
{
    assert(new.take(i + 1).drop_last() =~= new.take(i));
    assert(old.take(i + 1).drop_last() =~= old.take(i));
}

/// Gives every node of `nodes`, and every node below them, to `value`.
pub fn set_owner_all(nodes: &mut Vec<SignalNodePyInternal>, value: ConfigOwner)
    ensures
        seq_reowned(final(nodes)@, old(nodes)@, value),
    decreases old(nodes)@, 0nat,
{
    let ghost start = nodes@;
    let mut i: usize = 0;
    while i < nodes.len()
        invariant
            i <= nodes.len(),
            nodes@.len() == start.len(),
            start == old(nodes)@,
            forall|k: int| i <= k < start.len() ==> nodes@[k] == start[k],
            seq_reowned(nodes@.take(i as int), start.take(i as int), value),
        decreases nodes.len() - i,
    {
        let ghost before = nodes@;
        proof {
            assert(nodes@[i as int] == start[i as int]);
            assert(decreases_to!(start => start[i as int]));
        }
        nodes[i].set_owner(value);
        proof {
            assert(nodes@.take(i as int) =~= before.take(i as int));
            lemma_seq_reowned_push(nodes@, start, i as int, value);
        }
        i += 1;
    }
    proof {
        assert(nodes@.take(i as int) =~= nodes@);
        assert(start.take(i as int) =~= start);
    }
}

/// A node as the configuration script holds it.
#[derive(Debug, PartialEq)]
pub struct SignalNodePy(pub SignalNodePyInternal);

impl Clone for SignalNodePy {
    fn clone(&self) -> (r: Self) {
        SignalNodePy(self.0.clone())
    }
}

/// Why a child could not be added to a node.
#[derive(Debug, Clone, Copy, PartialEq, Eq, Structural)]
pub enum AddChildError {
    /// A vector holds no groups.
    GroupInVector,
    /// A vector holds no spacers.
    SpacerInVector,
    /// Signals and spacers have no children.
    NoChildren,
}

impl AddChildError {
    /// The message the script is shown.
    pub fn message(&self) -> (r: String)
        ensures
            r@ == match *self {
                AddChildError::GroupInVector => "Adding child node of type group to a vector!"@,
                AddChildError::SpacerInVector => "Adding child node of type spacer to a vector!"@,
                AddChildError::NoChildren => "Adding child node to node without children!"@,
            },
    {
        let mut s = String::new();
        match self {
            AddChildError::GroupInVector => push_str(
                &mut s,
                "Adding child node of type group to a vector!",
            ),
            AddChildError::SpacerInVector => push_str(
                &mut s,
                "Adding child node of type spacer to a vector!",
            ),
            AddChildError::NoChildren => push_str(
                &mut s,
                "Adding child node to node without children!",
            ),
        }
        assert(s@ =~= match *self {
            AddChildError::GroupInVector => "Adding child node of type group to a vector!"@,
            AddChildError::SpacerInVector => "Adding child node of type spacer to a vector!"@,
            AddChildError::NoChildren => "Adding child node to node without children!"@,
        });
        s
    }
}

/// The children of a group or vector (none for the other kinds).
pub open spec fn children_of(node: SignalNodePyInternal) -> Seq<SignalNodePyInternal> {
    match node {
        SignalNodePyInternal::Group { children, .. } => children@,
        SignalNodePyInternal::Vector { children, .. } => children@,
        _ => Seq::empty(),
    }
}

/// `new` is `old` with its children replaced by `children` (nodes that
/// hold no children are left as they are).
pub open spec fn with_children(
    new: SignalNodePyInternal,
    old: SignalNodePyInternal,
    children: Seq<SignalNodePyInternal>,
) -> bool {
    match old {
        SignalNodePyInternal::Group { name, expanded, owner, .. } => match new {
            SignalNodePyInternal::Group { name: n, children: c, expanded: e, owner: o } => {
                n@ == name@ && e == expanded && o == owner && c@ == children
            },
            _ => false,
        },
        SignalNodePyInternal::Vector { name, radix, expanded, owner, .. } => match new {
            SignalNodePyInternal::Vector { name: n, children: c, radix: r, expanded: e, owner: o } => {
                n@ == name@ && r == radix && e == expanded && o == owner && c@ == children
            },
            _ => false,
        },
        _ => new == old,
    }
}

pub open spec fn unwrap_nodes(v: Seq<SignalNodePy>) -> Seq<SignalNodePyInternal> {
    v.map_values(|n: SignalNodePy| n.0)
}

fn unwrap_all(children_new: Vec<SignalNodePy>) -> (r: Vec<SignalNodePyInternal>)
    ensures
        r@ == unwrap_nodes(children_new@),
{
    let ghost all = children_new@;
    let mut rest = children_new;
    let mut reversed: Vec<SignalNodePyInternal> = Vec::new();
    while rest.len() > 0
        invariant
            rest@.len() + reversed@.len() == all.len(),
            rest@ == all.take(rest@.len() as int),
            forall|k: int| 0 <= k < reversed@.len() ==> reversed@[k] == all[all.len() - 1 - k].0,
        decreases rest@.len(),
    {
        let n = rest.pop().unwrap();
        reversed.push(n.0);
        assert(rest@ =~= all.take(rest@.len() as int));
    }
    let mut out: Vec<SignalNodePyInternal> = Vec::new();
    while reversed.len() > 0
        invariant
            reversed@.len() + out@.len() == all.len(),
            forall|k: int| 0 <= k < reversed@.len() ==> reversed@[k] == all[all.len() - 1 - k].0,
            forall|k: int| 0 <= k < out@.len() ==> out@[k] == all[k].0,
        decreases reversed@.len(),
    {
        let n = reversed.pop().unwrap();
        out.push(n);
    }
    assert(out@ =~= unwrap_nodes(all));
    out
}

impl SignalNodePy {
    /// The node itself.
    pub fn into(self) -> (r: SignalNodePyInternal)
        ensures
            r == self.0,
    {
        self.0
    }

    /// This node with its children replaced by `children_new`; a signal or
    /// spacer is returned as it is.
    pub fn children(self, children_new: Vec<SignalNodePy>) -> (r: Self)
        ensures
            with_children(r.0, self.0, unwrap_nodes(children_new@)),
    {
        let mut node = self.0;
        match &mut node {
            SignalNodePyInternal::Group { children, .. } => {
                *children = unwrap_all(children_new);
            },
            SignalNodePyInternal::Vector { children, .. } => {
                *children = unwrap_all(children_new);
            },
            _ => {},
        }
        SignalNodePy(node)
    }

    pub fn is_group(&self) -> (r: bool)
        ensures
            r == (self.0 is Group),
    {
        match self.0 {
            SignalNodePyInternal::Group { .. } => true,
            _ => false,
        }
    }

    pub fn is_vector(&self) -> (r: bool)
        ensures
            r == (self.0 is Vector),
    {
        match self.0 {
            SignalNodePyInternal::Vector { .. } => true,
            _ => false,
        }
    }

    pub fn is_signal(&self) -> (r: bool)
        ensures
            r == (self.0 is Signal),
    {
        match self.0 {
            SignalNodePyInternal::Signal { .. } => true,
            _ => false,
        }
    }

    pub fn is_spacer(&self) -> (r: bool)
        ensures
            r == (self.0 is Spacer),
    {
        match self.0 {
            SignalNodePyInternal::Spacer { .. } => true,
            _ => false,
        }
    }

    /// Appends `child` to the children of this node: a group takes any
    /// node, a vector only signals and vectors, and the other kinds none.
    /// On an error nothing changes.
    pub fn add_child(&mut self, child: Self) -> (r: Result<(), AddChildError>)
        ensures
            r == (match old(self).0 {
                SignalNodePyInternal::Group { .. } => Ok(()),
                SignalNodePyInternal::Vector { .. } => match child.0 {
                    SignalNodePyInternal::Group { .. } => Err(AddChildError::GroupInVector),
                    SignalNodePyInternal::Spacer { .. } => Err(AddChildError::SpacerInVector),
                    _ => Ok(()),
                },
                _ => Err(AddChildError::NoChildren),
            }),
            r is Ok ==> with_children(final(self).0, old(self).0, children_of(old(self).0).push(child.0)),
            r is Err ==> *final(self) == *old(self),
    {
        match &mut self.0 {
            SignalNodePyInternal::Group { children, .. } => children.push(child.0),
            SignalNodePyInternal::Vector { children, .. } => match child.0 {
                SignalNodePyInternal::Group { .. } => {
                    return Err(AddChildError::GroupInVector);
                },
                SignalNodePyInternal::Spacer { .. } => {
                    return Err(AddChildError::SpacerInVector);
                },
                child => children.push(child),
            },
            _ => {
                return Err(AddChildError::NoChildren);
            },
        }
        Ok(())
    }
}

/// A new group: by the viewer, with the given children.
pub fn new_group_py(name: String, expanded: bool, children: Option<Vec<SignalNodePy>>) -> (r: SignalNodePy)
    ensures
        ({
            let c = match children {
                Some(c) => unwrap_nodes(c@),
                None => Seq::empty(),
            };
            r.0 matches SignalNodePyInternal::Group { name: n, children: ch, expanded: e, owner: o }
                && n@ == name@ && e == expanded && o == ConfigOwner::Nalu && ch@ == c
        }),
{
    let children = match children {
        Some(c) => c,
        None => Vec::new(),
    };
    SignalNodePy(
        SignalNodePyInternal::Group { name, children: Vec::new(), expanded, owner: ConfigOwner::Nalu },
    ).children(children)
}

/// A new vector: by the viewer, with the given children.
pub fn new_vector_py(
    name: String,
    radix: SignalRadixPy,
    expanded: bool,
    children: Option<Vec<SignalNodePy>>,
) -> (r: SignalNodePy)
    ensures
        ({
            let c = match children {
                Some(c) => unwrap_nodes(c@),
                None => Seq::empty(),
            };
            r.0 matches SignalNodePyInternal::Vector {
                name: n,
                children: ch,
                radix: x,
                expanded: e,
                owner: o,
            } && n@ == name@ && x == radix && e == expanded && o == ConfigOwner::Nalu && ch@ == c
        }),
{
    let children = match children {
        Some(c) => c,
        None => Vec::new(),
    };
    SignalNodePy(
        SignalNodePyInternal::Vector {
            name,
            children: Vec::new(),
            radix,
            expanded,
            owner: ConfigOwner::Nalu,
        },
    ).children(children)
}

/// A new signal, by the viewer.
pub fn new_signal_py(path: String, radix: SignalRadixPy, expanded: bool, index: Option<usize>) -> (r:
    SignalNodePy)
    ensures
        r.0 == (SignalNodePyInternal::Signal { path, radix, index, expanded, owner: ConfigOwner::Nalu }),
{
    SignalNodePy(SignalNodePyInternal::Signal { path, radix, index, expanded, owner: ConfigOwner::Nalu })
}

/// A new spacer, by the viewer.
pub fn new_spacer_py() -> (r: SignalNodePy)
    ensures
        r.0 == (SignalNodePyInternal::Spacer { owner: ConfigOwner::Nalu }),
{
    SignalNodePy(SignalNodePyInternal::Spacer { owner: ConfigOwner::Nalu })
}

/// After `set_owner`, every node of the tree belongs to the new owner.
pub proof fn lemma_reowned_all_owned(new: SignalNodePyInternal, old: SignalNodePyInternal, value: ConfigOwner)
    requires
        reowned(new, old, value),
    ensures
        all_owned_by(new, value),
    decreases old,
{
    match old {
        SignalNodePyInternal::Group { children, .. } => match new {
            SignalNodePyInternal::Group { children: c, .. } => lemma_seq_reowned_all_owned(
                c@,
                children@,
                value,
            ),
            _ => {},
        },
        SignalNodePyInternal::Vector { children, .. } => match new {
            SignalNodePyInternal::Vector { children: c, .. } => lemma_seq_reowned_all_owned(
                c@,
                children@,
                value,
            ),
            _ => {},
        },
        _ => {},
    }
}

proof fn lemma_seq_reowned_all_owned(
    new: Seq<SignalNodePyInternal>,
    old: Seq<SignalNodePyInternal>,
    value: ConfigOwner,
)
    requires
        seq_reowned(new, old, value),
    ensures
        seq_all_owned_by(new, value),
    decreases old,
{
    if old.len() > 0 {
        lemma_seq_reowned_all_owned(new.drop_last(), old.drop_last(), value);
        lemma_reowned_all_owned(new.last(), old.last(), value);
    }
}

/// A line that, once trimmed, opens with `n` (a call) or `]` (the end of a
/// list of children).
pub open spec fn code_line(l: Seq<char>) -> bool {
    trim(l).len() > 0 && (trim(l)[0] == 'n' || trim(l)[0] == ']')
}

proof fn lemma_code_line(n: nat, x: Seq<char>, rest: Seq<char>)
    requires
        x.len() > 0,
        x[0] == 'n' || x[0] == ']',
    ensures
        code_line(repeat_char(' ', n) + x + rest),
{
    assert(repeat_char(' ', n) + x + rest =~= repeat_char(' ', n) + (x + rest));
    lemma_trim_first_char(n, x + rest);
}

/// Every line that prints a node is a code line.
#[verifier::spinoff_prover]
#[verifier::rlimit(30)]
pub proof fn lemma_python_lines_code(node: SignalNodePyInternal, indents: nat)
    ensures
        forall|i: int| 0 <= i < python_lines(node, indents).len() ==> code_line(
            #[trigger] python_lines(node, indents)[i],
        ),
    decreases node,
{
    reveal_strlit("new_group(\"");
    reveal_strlit("new_vector(\"");
    reveal_strlit("new_signal(\"");
    reveal_strlit("new_spacer(),");
    reveal_strlit("]),");
    let p = repeat_char(' ', indents * 4);
    let close = p + "]),"@;
    assert(close =~= p + "]),"@ + Seq::<char>::empty());
    lemma_code_line(indents * 4, "]),"@, Seq::empty());
    match node {
        SignalNodePyInternal::Group { name, children, expanded, .. } => {
            let rest = name@ + "\", "@ + py_bool(expanded) + ", ["@;
            let head = pad(indents) + "new_group(\""@ + name@ + "\", "@ + py_bool(expanded) + ", ["@;
            assert(head =~= p + "new_group(\""@ + rest);
            lemma_code_line(indents * 4, "new_group(\""@, rest);
            assert(head + "]),"@ =~= p + "new_group(\""@ + (rest + "]),"@));
            lemma_code_line(indents * 4, "new_group(\""@, rest + "]),"@);
            lemma_seq_python_lines_code(children@, indents + 1);
            let lines = python_lines(node, indents);
            if children@.len() > 0 {
                let body = seq_python_lines(children@, indents + 1);
                assert(lines == seq![head] + body + seq![close]);
                assert forall|i: int| 0 <= i < lines.len() implies code_line(#[trigger] lines[i]) by {
                    if i == 0 {
                        assert(lines[i] == head);
                    } else if i < 1 + body.len() {
                        assert(lines[i] == body[i - 1]);
                    } else {
                        assert(lines[i] == close);
                    }
                }
            }
        },
        SignalNodePyInternal::Vector { name, children, radix, expanded, .. } => {
            let rest = name@ + "\", "@ + radix_text(radix) + ", "@ + py_bool(expanded) + ", ["@;
            let head = pad(indents) + "new_vector(\""@ + name@ + "\", "@ + radix_text(radix) + ", "@
                + py_bool(expanded) + ", ["@;
            assert(head =~= p + "new_vector(\""@ + rest);
            lemma_code_line(indents * 4, "new_vector(\""@, rest);
            assert(head + "]),"@ =~= p + "new_vector(\""@ + (rest + "]),"@));
            lemma_code_line(indents * 4, "new_vector(\""@, rest + "]),"@);
            lemma_seq_python_lines_code(children@, indents + 1);
            let lines = python_lines(node, indents);
            if children@.len() > 0 {
                let body = seq_python_lines(children@, indents + 1);
                assert(lines == seq![head] + body + seq![close]);
                assert forall|i: int| 0 <= i < lines.len() implies code_line(#[trigger] lines[i]) by {
                    if i == 0 {
                        assert(lines[i] == head);
                    } else if i < 1 + body.len() {
                        assert(lines[i] == body[i - 1]);
                    } else {
                        assert(lines[i] == close);
                    }
                }
            }
        },
        SignalNodePyInternal::Signal { path, radix, index, expanded, .. } => {
            let rest = path@ + "\", "@ + radix_text(radix) + ", "@ + py_bool(expanded) + ", "@
                + py_index(index) + "),"@;
            let line = pad(indents) + "new_signal(\""@ + path@ + "\", "@ + radix_text(radix) + ", "@
                + py_bool(expanded) + ", "@ + py_index(index) + "),"@;
            assert(line =~= p + "new_signal(\""@ + rest);
            lemma_code_line(indents * 4, "new_signal(\""@, rest);
        },
        SignalNodePyInternal::Spacer { .. } => {
            lemma_code_line(indents * 4, "new_spacer(),"@, Seq::empty());
            assert(pad(indents) + "new_spacer(),"@ =~= p + "new_spacer(),"@ + Seq::<char>::empty());
        },
    }
}

proof fn lemma_seq_python_lines_code(nodes: Seq<SignalNodePyInternal>, indents: nat)
    ensures
        forall|i: int| 0 <= i < seq_python_lines(nodes, indents).len() ==> code_line(
            #[trigger] seq_python_lines(nodes, indents)[i],
        ),
    decreases nodes,
{
    if nodes.len() > 0 {
        lemma_seq_python_lines_code(nodes.drop_last(), indents);
        lemma_python_lines_code(nodes.last(), indents);
        let a = seq_python_lines(nodes.drop_last(), indents);
        let b = python_lines(nodes.last(), indents);
        assert forall|i: int| 0 <= i < (a + b).len() implies code_line(#[trigger] (a + b)[i]) by {
            if i < a.len() {
                assert((a + b)[i] == a[i]);
            } else {
                assert((a + b)[i] == b[i - a.len()]);
            }
        }
    }
}

} // verus!
