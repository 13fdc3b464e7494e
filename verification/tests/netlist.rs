use nalu::input::{Key, KeyInput, MouseKind};
use nalu::state::netlist_viewer::{
    generate_new_node, generate_new_nodes, search_nodes, NetlistNode, NetlistRequest, NetlistViewerState, ScopeInfo,
};
use nalu::state::signal_viewer::VariableInfo;
use nalu::widgets::browser::{BrowserEntry, BrowserNode};

fn variable(label: &str) -> VariableInfo {
    VariableInfo { label: label.to_string(), bit_width: 1, idcode: 0 }
}

fn scope(name: &str, scopes: Vec<ScopeInfo>, variables: Vec<VariableInfo>) -> ScopeInfo {
    ScopeInfo { name: name.to_string(), scopes, variables }
}

fn labels(node: &BrowserNode<NetlistNode>) -> Vec<String> {
    node.get_children()
        .iter()
        .map(|c| c.get_entry().as_ref().map(|e| e.label()).unwrap_or_default())
        .collect()
}

#[test]
fn netlist_scopes_sorted_alphanumerically() {
    let root = BrowserNode::from_expanded(None, true, vec![]);
    let scopes = vec![
        scope("core10", vec![], vec![]),
        scope("core2", vec![], vec![variable("z"), variable("a11"), variable("a9")]),
        scope("alu", vec![], vec![]),
    ];
    let generated = generate_new_nodes(&root, &scopes);
    assert!(generated.is_expanded());
    assert!(generated.get_entry().is_none());
    assert_eq!(labels(&generated), vec!["alu", "core2", "core10"]);
    assert_eq!(labels(&generated.get_children()[1]), vec!["a9", "a11", "z"]);
}

#[test]
fn netlist_keeps_expansion_of_old_scopes() {
    let mut old_top = BrowserNode::from_expanded(
        Some(NetlistNode::Scope(String::from("TOP"))),
        true,
        vec![BrowserNode::from_expanded(Some(NetlistNode::Scope(String::from("inner"))), true, vec![])],
    );
    old_top.set_expanded(true);
    let root = BrowserNode::from_expanded(None, true, vec![old_top]);
    let new_top = scope("TOP", vec![scope("other", vec![], vec![]), scope("inner", vec![], vec![variable("x")])], vec![variable("clk")]);
    let generated = generate_new_nodes(&root, &vec![new_top]);
    let top = &generated.get_children()[0];
    assert!(top.is_expanded());
    assert_eq!(labels(top), vec!["inner", "other", "clk"]);
    assert!(top.get_children()[0].is_expanded());
    assert!(!top.get_children()[1].is_expanded());
    assert!(!top.get_children()[2].is_expanded());

    let single = generate_new_node(&root.get_children()[0], &scope("TOP", vec![], vec![]));
    assert!(single.is_expanded());
    assert_eq!(search_nodes(root.get_children(), &String::from("TOP"), 5), Some(0));
    assert_eq!(search_nodes(root.get_children(), &String::from("none"), 0), None);
}

#[test]
fn netlist_selected_variables_with_full_names() {
    let mut state = NetlistViewerState::new();
    let scopes = vec![scope("top", vec![], vec![variable("a"), variable("b")])];
    assert!(state.update_scopes(&scopes));
    state.resize(20, 7);
    assert!(state.get_selected_variables().is_empty());
    assert!(state.handle_key(KeyInput::plain(Key::Enter)).0);
    state.handle_key(KeyInput::plain(Key::Down));
    state.handle_key(KeyInput { key: Key::Down, shift: true, control: false });
    let selected = state.get_selected_variables();
    let names: Vec<Vec<String>> = selected.iter().map(|(name, _)| name.clone()).collect();
    assert_eq!(names, vec![vec!["top".to_string(), "a".to_string()], vec!["top".to_string(), "b".to_string()]]);
    assert_eq!(selected[1].1.label, "b");
}

#[test]
fn netlist_keys_hand_on_requests() {
    let mut state = NetlistViewerState::new();
    let scopes = vec![scope("top", vec![], vec![variable("a"), variable("b")])];
    assert!(state.update_scopes(&scopes));
    state.resize(20, 7);
    state.handle_key(KeyInput::plain(Key::Enter));
    state.handle_key(KeyInput::plain(Key::Down));
    let (used, requests) = state.handle_key(KeyInput::plain(Key::Char('a')));
    assert!(used);
    assert!(matches!(&requests[..], [NetlistRequest::Append(name, v)] if name == &vec!["top".to_string(), "a".to_string()] && v.label == "a"));
    let (_, requests) = state.handle_key(KeyInput::plain(Key::Char('i')));
    assert!(matches!(&requests[..], [NetlistRequest::Insert(_, v)] if v.label == "a"));
    let (used, requests) = state.handle_key(KeyInput::plain(Key::Char('z')));
    assert!(!used && requests.is_empty());
    let lines = state.get_browser().lines(20, 7).unwrap();
    assert_eq!(lines[1].text.trim_end(), "[-] top");
    state.handle_key(KeyInput::plain(Key::Char('f')));
    let lines = state.get_browser().lines(20, 7).unwrap();
    assert_eq!(lines[2].text.trim_end(), "    top.a");
    state.handle_key(KeyInput::plain(Key::Char('f')));
    let lines = state.get_browser().lines(20, 7).unwrap();
    assert_eq!(lines[2].text.trim_end(), "a");
}

#[test]
fn netlist_mouse_selects_and_expands() {
    let mut state = NetlistViewerState::new();
    let scopes = vec![scope("top", vec![], vec![variable("a")]), scope("x", vec![], vec![])];
    assert!(state.update_scopes(&scopes));
    state.resize(20, 7);
    assert!(state.handle_mouse(2, MouseKind::LeftDown));
    assert!(state.handle_mouse(2, MouseKind::LeftDown));
    assert!(state.handle_mouse(1, MouseKind::LeftDown));
    assert!(state.handle_mouse(1, MouseKind::LeftDown));
    let lines = state.get_browser().lines(20, 7).unwrap();
    assert_eq!(lines[1].text.trim_end(), "[-] top");
    assert_eq!(lines[2].text.trim_end(), "    a");
    assert!(!state.handle_mouse(1, MouseKind::LeftUp));
}
