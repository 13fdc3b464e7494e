use vstd::prelude::*;

use crate::python::signals::{
    code_line, depth, lemma_python_lines_code, owner_of, python_lines, strings_view,
    SignalNodePyInternal,
};
use crate::python::ConfigOwner;
use crate::text::{
    char_lines_view, chars_to_string, lemma_lines_of_text, lemma_trim_unchanged, lemma_trim_within,
    lines_of, lines_spec, plain_line, str_chars, text_of, trim, trimmed_equals,
};

verus! {

/// Why a configuration could not be saved.
#[derive(Debug, Clone, PartialEq, Eq)]
pub enum SaveConfigError {
    /// The file lacks the markers around the generated code, in order.
    MangledFile,
    /// Reading or writing the file failed, with the system's message.
    Io(String),
}

/// Where the reader of a configuration file is: before, inside or after the
/// generated code.
#[derive(Debug, Clone, Copy, PartialEq, Eq, Structural)]
pub enum SplitStage {
    Pre,
    Generated,
    Post,
}

pub open spec fn begin_marker() -> Seq<char> {
    "### BEGIN NALU GENERATED CODE ###"@
}

pub open spec fn end_marker() -> Seq<char> {
    "### END NALU GENERATED CODE ###"@
}

/// What a reader of a configuration file knows after some lines: the
/// stage, and the lines kept before and after the generated code.
pub type SplitState = (SplitStage, Seq<Seq<char>>, Seq<Seq<char>>);

/// Reads one more line: the first line that reads the begin marker
/// (leading and trailing whitespace aside) opens the generated code, the
/// first one after it that reads the end marker closes it; lines before
/// and after are kept.
pub open spec fn split_step(state: SplitState, line: Seq<char>) -> SplitState {
    let (stage, pre, post) = state;
    match stage {
        SplitStage::Pre => if trim(line) == begin_marker() {
            (SplitStage::Generated, pre, post)
        } else {
            (SplitStage::Pre, pre.push(line), post)
        },
        SplitStage::Generated => if trim(line) == end_marker() {
            (SplitStage::Post, pre, post)
        } else {
            (SplitStage::Generated, pre, post)
        },
        SplitStage::Post => (SplitStage::Post, pre, post.push(line)),
    }
}

/// The state after reading `lines` from `state` on.
pub open spec fn split_from(state: SplitState, lines: Seq<Seq<char>>) -> SplitState
    decreases lines.len(),
{
    if lines.len() == 0 {
        state
    } else {
        split_step(split_from(state, lines.drop_last()), lines.last())
    }
}

/// The stage reached after reading `lines` from the start, with the lines
/// kept before the generated code and after it.
pub open spec fn split_stage(lines: Seq<Seq<char>>) -> SplitState {
    split_from((SplitStage::Pre, Seq::empty(), Seq::empty()), lines)
}

/// The lines of a configuration file before and after its generated code,
/// or `None` when the file does not hold both markers in order.
pub open spec fn split_spec(text: Seq<char>) -> Option<(Seq<Seq<char>>, Seq<Seq<char>>)> {
    let (stage, pre, post) = split_stage(lines_spec(text));
    if stage == SplitStage::Post {
        Some((pre, post))
    } else {
        None
    }
}

fn push_line(v: &mut Vec<String>, line: &Vec<char>)
    ensures
        strings_view(final(v)@) == strings_view(old(v)@).push(line@),
{
    let s = chars_to_string(line, 0, line.len());
    assert(line@.subrange(0, line@.len() as int) =~= line@);
    let ghost before = v@;
    v.push(s);
    assert(strings_view(v@) =~= strings_view(before).push(line@));
}

/// Splits a configuration file into the lines before the generated code and
/// the lines after it. Fails with `MangledFile` unless the file holds a
/// begin marker line and, after it, an end marker line.
pub fn split_generated(string: String) -> (r: Result<(Vec<String>, Vec<String>), SaveConfigError>)
    ensures
        match split_spec(string@) {
            Some((pre, post)) => r matches Ok((p, q)) && strings_view(p@) == pre && strings_view(q@)
                == post,
            None => r == Err::<(Vec<String>, Vec<String>), SaveConfigError>(
                SaveConfigError::MangledFile,
            ),
        },
{
    let chars = str_chars(string.as_str());
    let lines = lines_of(&chars);
    let mut stage = SplitStage::Pre;
    let mut pre: Vec<String> = Vec::new();
    let mut post: Vec<String> = Vec::new();
    let mut i: usize = 0;
    while i < lines.len()
        invariant
            i <= lines@.len(),
            char_lines_view(lines@) == lines_spec(string@),
            split_stage(char_lines_view(lines@).take(i as int)) == (
                stage,
                strings_view(pre@),
                strings_view(post@),
            ),
        decreases lines.len() - i,
    {
        proof {
            let all = char_lines_view(lines@);
            assert(all.take(i + 1).drop_last() =~= all.take(i as int));
            assert(all.take(i + 1).last() == lines@[i as int]@);
        }
        let line = &lines[i];
        match stage {
            SplitStage::Pre => {
                if trimmed_equals(line, "### BEGIN NALU GENERATED CODE ###") {
                    stage = SplitStage::Generated;
                } else {
                    push_line(&mut pre, line);
                }
            },
            SplitStage::Generated => {
                if trimmed_equals(line, "### END NALU GENERATED CODE ###") {
                    stage = SplitStage::Post;
                }
            },
            SplitStage::Post => push_line(&mut post, line),
        }
        i += 1;
    }
    proof {
        assert(char_lines_view(lines@).take(i as int) =~= char_lines_view(lines@));
    }
    if stage != SplitStage::Post {
        Err(SaveConfigError::MangledFile)
    } else {
        Ok((pre, post))
    }
}

/// The lines of the nodes owned by the viewer, one node after the other,
/// each at two levels of indentation.
pub open spec fn nalu_node_lines(nodes: Seq<SignalNodePyInternal>) -> Seq<Seq<char>>
    decreases nodes.len(),
{
    if nodes.len() == 0 {
        Seq::empty()
    } else {
        nalu_node_lines(nodes.drop_last()) + if owner_of(nodes.last()) == ConfigOwner::Nalu {
            python_lines(nodes.last(), 2)
        } else {
            Seq::empty()
        }
    }
}

/// The generated code for a configuration of `nodes`: a function
/// `nalu_config` that returns the nodes owned by the viewer, between the
/// two markers.
pub open spec fn generated_lines(nodes: Seq<SignalNodePyInternal>) -> Seq<Seq<char>> {
    seq![
        begin_marker(),
        "# fmt: off"@,
        "def nalu_config(vcd_header):"@,
        "    \"\"\"Nalu generated waveform config\"\"\""@,
    ] + (if nodes.len() == 0 {
        seq!["    return []"@]
    } else {
        seq!["    return ["@] + nalu_node_lines(nodes) + seq!["    ]"@]
    }) + seq!["# fmt: on"@, end_marker()]
}

/// Nodes that can be printed two levels deep.
pub open spec fn printable(nodes: Seq<SignalNodePyInternal>) -> bool {
    forall|i: int| 0 <= i < nodes.len() ==> (2 + depth(#[trigger] nodes[i])) * 4 <= usize::MAX
}

fn push_literal(v: &mut Vec<String>, line: &str)
    ensures
        strings_view(final(v)@) == strings_view(old(v)@).push(line@),
{
    let chars = str_chars(line);
    push_line(v, &chars);
}

/// The generated code for a configuration of `nodes`, line by line.
pub fn generate_config(nodes: &Vec<SignalNodePyInternal>) -> (r: Vec<String>)
    requires
        printable(nodes@),
    ensures
        strings_view(r@) == generated_lines(nodes@),
{
    let mut generated: Vec<String> = Vec::new();
    push_literal(&mut generated, "### BEGIN NALU GENERATED CODE ###");
    push_literal(&mut generated, "# fmt: off");
    push_literal(&mut generated, "def nalu_config(vcd_header):");
    push_literal(&mut generated, "    \"\"\"Nalu generated waveform config\"\"\"");
    let ghost head = strings_view(generated@);
    if nodes.len() == 0 {
        push_literal(&mut generated, "    return []");
    } else {
        push_literal(&mut generated, "    return [");
        let ghost opened = strings_view(generated@);
        let mut i: usize = 0;
        while i < nodes.len()
            invariant
                i <= nodes@.len(),
                printable(nodes@),
                strings_view(generated@) == opened + nalu_node_lines(nodes@.take(i as int)),
            decreases nodes.len() - i,
        {
            proof {
                assert(nodes@.take(i + 1).drop_last() =~= nodes@.take(i as int));
                assert(nodes@.take(i + 1).last() == nodes@[i as int]);
            }
            if nodes[i].get_owner() == ConfigOwner::Nalu {
                assert((2 + depth(nodes@[i as int])) * 4 <= usize::MAX);
                let mut lines = nodes[i].print_python(2);
                let ghost before = generated@;
                let ghost added = lines@;
                generated.append(&mut lines);
                assert(strings_view(before + added) =~= strings_view(before) + strings_view(added));
                assert(strings_view(generated@) =~= opened + nalu_node_lines(nodes@.take(i + 1)));
            } else {
                assert(strings_view(generated@) =~= opened + nalu_node_lines(nodes@.take(i + 1)));
            }
            i += 1;
        }
        assert(nodes@.take(i as int) =~= nodes@);
        push_literal(&mut generated, "    ]");
    }
    push_literal(&mut generated, "# fmt: on");
    push_literal(&mut generated, "### END NALU GENERATED CODE ###");
    assert(strings_view(generated@) =~= generated_lines(nodes@));
    generated
}

/// The lines of a configuration file saved with `nodes`, given the file's
/// present text `string` (the template `default_str` where there is no
/// file): the file's own lines before and after the generated code, with new
/// generated code between them. Where `string` lacks the markers, and
/// `force` is set, the template's lines are used instead.
pub open spec fn config_lines_spec(
    string: Seq<char>,
    default_str: Seq<char>,
    nodes: Seq<SignalNodePyInternal>,
    force: bool,
) -> Option<Seq<Seq<char>>> {
    let parts = match split_spec(string) {
        Some(p) => Some(p),
        None => if force {
            split_spec(default_str)
        } else {
            None
        },
    };
    match parts {
        Some((pre, post)) => Some(pre + generated_lines(nodes) + post),
        None => None,
    }
}

/// The lines to write for a configuration of `nodes` (see
/// `config_lines_spec`); `MangledFile` where neither text has the markers
/// that it needs.
pub fn config_lines(string: String, default_str: String, nodes: &Vec<SignalNodePyInternal>, force: bool) -> (r:
    Result<Vec<String>, SaveConfigError>)
    requires
        printable(nodes@),
    ensures
        match config_lines_spec(string@, default_str@, nodes@, force) {
            Some(lines) => r matches Ok(v) && strings_view(v@) == lines,
            None => r == Err::<Vec<String>, SaveConfigError>(SaveConfigError::MangledFile),
        },
{
    let (pre, post) = match split_generated(string) {
        Ok((pre, post)) => (pre, post),
        Err(err) => {
            if force {
                match split_generated(default_str) {
                    Ok((pre, post)) => (pre, post),
                    Err(err) => {
                        return Err(err);
                    },
                }
            } else {
                return Err(err);
            }
        },
    };
    let mut out = pre;
    let mut generated = generate_config(nodes);
    let mut post = post;
    let ghost a = out@;
    let ghost b = generated@;
    let ghost c = post@;
    out.append(&mut generated);
    out.append(&mut post);
    assert(strings_view(a + b + c) =~= strings_view(a) + strings_view(b) + strings_view(c));
    Ok(out)
}

/// Reading two lists of lines one after the other is reading the first and
/// then, from where it left off, the second.
pub proof fn lemma_split_from_append(state: SplitState, a: Seq<Seq<char>>, b: Seq<Seq<char>>)
    ensures
        split_from(state, a + b) == split_from(split_from(state, a), b),
    decreases b.len(),
{
    if b.len() == 0 {
        assert(a + b =~= a);
    } else {
        assert((a + b).drop_last() =~= a + b.drop_last());
        assert((a + b).last() == b.last());
        lemma_split_from_append(state, a, b.drop_last());
    }
}

/// No line kept before the generated code reads the begin marker.
proof fn lemma_pre_not_begin(lines: Seq<Seq<char>>)
    ensures
        ({
            let pre = split_stage(lines).1;
            forall|i: int| 0 <= i < pre.len() ==> trim(#[trigger] pre[i]) != begin_marker()
        }),
    decreases lines.len(),
{
    if lines.len() > 0 {
        lemma_pre_not_begin(lines.drop_last());
        let prev = split_stage(lines.drop_last());
        assert(split_stage(lines) == split_step(prev, lines.last()));
        let pre = split_stage(lines).1;
        assert forall|i: int| 0 <= i < pre.len() implies trim(#[trigger] pre[i]) != begin_marker() by {
            if i < prev.1.len() {
                assert(pre[i] == prev.1[i]);
            }
        }
    }
}

/// Lines none of which reads the begin marker all stay before the
/// generated code.
proof fn lemma_replay_pre(pre: Seq<Seq<char>>)
    requires
        forall|i: int| 0 <= i < pre.len() ==> trim(#[trigger] pre[i]) != begin_marker(),
    ensures
        split_stage(pre) == (SplitStage::Pre, pre, Seq::<Seq<char>>::empty()),
    decreases pre.len(),
{
    if pre.len() > 0 {
        assert(forall|i: int| 0 <= i < pre.len() - 1 ==> pre.drop_last()[i] == pre[i]);
        lemma_replay_pre(pre.drop_last());
        assert(pre.drop_last().push(pre.last()) =~= pre);
    } else {
        assert(pre =~= Seq::<Seq<char>>::empty());
    }
}

/// After the generated code every line is kept.
proof fn lemma_replay_post(pre: Seq<Seq<char>>, post: Seq<Seq<char>>)
    ensures
        split_from((SplitStage::Post, pre, Seq::empty()), post) == (SplitStage::Post, pre, post),
    decreases post.len(),
{
    if post.len() > 0 {
        lemma_replay_post(pre, post.drop_last());
        assert(post.drop_last().push(post.last()) =~= post);
    } else {
        assert(post =~= Seq::<Seq<char>>::empty());
    }
}

/// Inside the generated code, lines that do not read the end marker change
/// nothing.
proof fn lemma_stay_generated(pre: Seq<Seq<char>>, mid: Seq<Seq<char>>)
    requires
        forall|i: int| 0 <= i < mid.len() ==> trim(#[trigger] mid[i]) != end_marker(),
    ensures
        split_from((SplitStage::Generated, pre, Seq::empty()), mid) == (
            SplitStage::Generated,
            pre,
            Seq::<Seq<char>>::empty(),
        ),
    decreases mid.len(),
{
    if mid.len() > 0 {
        assert(forall|i: int| 0 <= i < mid.len() - 1 ==> mid.drop_last()[i] == mid[i]);
        lemma_stay_generated(pre, mid.drop_last());
    }
}

/// A line shorter than the end marker does not read it.
proof fn lemma_short_not_end(l: Seq<char>)
    requires
        l.len() < 31,
    ensures
        trim(l) != end_marker(),
{
    reveal_strlit("### END NALU GENERATED CODE ###");
    lemma_trim_within(l, '#');
}

/// The lines of the nodes owned by the viewer are all code lines.
proof fn lemma_nalu_node_lines_code(nodes: Seq<SignalNodePyInternal>)
    ensures
        forall|i: int| 0 <= i < nalu_node_lines(nodes).len() ==> code_line(
            #[trigger] nalu_node_lines(nodes)[i],
        ),
    decreases nodes.len(),
{
    if nodes.len() > 0 {
        lemma_nalu_node_lines_code(nodes.drop_last());
        let a = nalu_node_lines(nodes.drop_last());
        let b = if owner_of(nodes.last()) == ConfigOwner::Nalu {
            python_lines(nodes.last(), 2)
        } else {
            Seq::empty()
        };
        lemma_python_lines_code(nodes.last(), 2);
        assert forall|i: int| 0 <= i < (a + b).len() implies code_line(#[trigger] (a + b)[i]) by {
            if i < a.len() {
                assert((a + b)[i] == a[i]);
            } else {
                assert((a + b)[i] == b[i - a.len()]);
            }
        }
    }
}

/// The lines between the markers of the generated code.
pub open spec fn generated_middle(nodes: Seq<SignalNodePyInternal>) -> Seq<Seq<char>> {
    seq!["# fmt: off"@, "def nalu_config(vcd_header):"@, "    \"\"\"Nalu generated waveform config\"\"\""@]
        + (if nodes.len() == 0 {
        seq!["    return []"@]
    } else {
        seq!["    return ["@] + nalu_node_lines(nodes) + seq!["    ]"@]
    }) + seq!["# fmt: on"@]
}

/// No line between the markers reads the end marker.
proof fn lemma_middle_not_end(nodes: Seq<SignalNodePyInternal>)
    ensures
        forall|i: int| 0 <= i < generated_middle(nodes).len() ==> trim(
            #[trigger] generated_middle(nodes)[i],
        ) != end_marker(),
{
    reveal_strlit("### END NALU GENERATED CODE ###");
    reveal_strlit("# fmt: off");
    reveal_strlit("def nalu_config(vcd_header):");
    reveal_strlit("    \"\"\"Nalu generated waveform config\"\"\"");
    reveal_strlit("    return []");
    reveal_strlit("    return [");
    reveal_strlit("    ]");
    reveal_strlit("# fmt: on");
    let doc = "    \"\"\"Nalu generated waveform config\"\"\""@;
    lemma_trim_within(doc, '#');
    assert(end_marker()[0] == '#');
    lemma_short_not_end("# fmt: off"@);
    lemma_short_not_end("def nalu_config(vcd_header):"@);
    lemma_short_not_end("    return []"@);
    lemma_short_not_end("    return ["@);
    lemma_short_not_end("    ]"@);
    lemma_short_not_end("# fmt: on"@);
    lemma_nalu_node_lines_code(nodes);
    let m = generated_middle(nodes);
    assert forall|i: int| 0 <= i < m.len() implies trim(#[trigger] m[i]) != end_marker() by {
        if 3 <= i < m.len() - 1 && nodes.len() > 0 {
            let body = nalu_node_lines(nodes);
            if 4 <= i < 4 + body.len() {
                assert(m[i] == body[i - 4]);
                assert(code_line(body[i - 4]));
            }
        }
    }
}

/// The generated code read after the lines `pre`: it opens with the begin
/// marker and closes with the end marker, and keeps nothing.
proof fn lemma_read_generated(pre: Seq<Seq<char>>, nodes: Seq<SignalNodePyInternal>)
    ensures
        split_from((SplitStage::Pre, pre, Seq::empty()), generated_lines(nodes)) == (
            SplitStage::Post,
            pre,
            Seq::<Seq<char>>::empty(),
        ),
{
    reveal_strlit("### BEGIN NALU GENERATED CODE ###");
    reveal_strlit("### END NALU GENERATED CODE ###");
    lemma_trim_unchanged(begin_marker());
    lemma_trim_unchanged(end_marker());
    let mid = generated_middle(nodes);
    let g = generated_lines(nodes);
    let e = Seq::<Seq<char>>::empty();
    let st0 = (SplitStage::Pre, pre, e);
    let st1 = (SplitStage::Generated, pre, e);
    assert(g =~= seq![begin_marker()] + mid + seq![end_marker()]);
    assert(seq![begin_marker()].drop_last() =~= e);
    assert(seq![end_marker()].drop_last() =~= e);
    assert(split_from(st0, seq![begin_marker()]) == split_step(split_from(st0, e), begin_marker()));
    assert(split_from(st0, seq![begin_marker()]) == st1);
    lemma_split_from_append(st0, seq![begin_marker()], mid);
    lemma_middle_not_end(nodes);
    lemma_stay_generated(pre, mid);
    assert(split_from(st0, seq![begin_marker()] + mid) == st1);
    lemma_split_from_append(st0, seq![begin_marker()] + mid, seq![end_marker()]);
    assert(split_from(st1, seq![end_marker()]) == split_step(split_from(st1, e), end_marker()));
}

/// Saving keeps the rest of the configuration file: the saved lines, read
/// again, split into exactly the lines that stood before and after the
/// generated code (those of the file, or of the template where the file
/// lacked the markers and the save was forced).
pub proof fn lemma_saved_config_splits(
    string: Seq<char>,
    default_str: Seq<char>,
    nodes: Seq<SignalNodePyInternal>,
    force: bool,
)
    requires
        config_lines_spec(string, default_str, nodes, force) is Some,
    ensures
        ({
            let parts = match split_spec(string) {
                Some(p) => p,
                None => split_spec(default_str)->0,
            };
            split_stage(config_lines_spec(string, default_str, nodes, force)->0) == (
                SplitStage::Post,
                parts.0,
                parts.1,
            )
        }),
{
    let src = if split_spec(string) is Some {
        string
    } else {
        default_str
    };
    let (pre, post) = split_spec(src)->0;
    lemma_pre_not_begin(lines_spec(src));
    lemma_replay_pre(pre);
    let init = (SplitStage::Pre, Seq::<Seq<char>>::empty(), Seq::<Seq<char>>::empty());
    let g = generated_lines(nodes);
    lemma_split_from_append(init, pre + g, post);
    lemma_split_from_append(init, pre, g);
    lemma_read_generated(pre, nodes);
    lemma_replay_post(pre, post);
}

/// The file a save writes (each line followed by a newline) splits, when
/// read again, into the same lines before and after the generated code,
/// provided that no saved line holds a newline or ends with a carriage
/// return.
pub proof fn lemma_saved_file_splits(
    string: Seq<char>,
    default_str: Seq<char>,
    nodes: Seq<SignalNodePyInternal>,
    force: bool,
)
    requires
        config_lines_spec(string, default_str, nodes, force) is Some,
        forall|i: int|
            0 <= i < config_lines_spec(string, default_str, nodes, force)->0.len() ==> plain_line(
                #[trigger] config_lines_spec(string, default_str, nodes, force)->0[i],
            ),
    ensures
        split_spec(text_of(config_lines_spec(string, default_str, nodes, force)->0)) == Some(
            match split_spec(string) {
                Some(p) => p,
                None => split_spec(default_str)->0,
            },
        ),
{
    let lines = config_lines_spec(string, default_str, nodes, force)->0;
    lemma_lines_of_text(lines);
    lemma_saved_config_splits(string, default_str, nodes, force);
}

} // verus!
