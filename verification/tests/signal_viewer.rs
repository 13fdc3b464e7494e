use makai_vcd_reader::parser::VcdHeader;
use makai_vcd_reader::utils::load_single_threaded;
use makai_waveform_db::Waveform;
use nalu::input::{Key, KeyInput, MouseKind};
use nalu::python::signals::{SignalNodePyInternal, SignalRadixPy};
use nalu::python::ConfigOwner;
use nalu::state::signal_viewer::{
    check_load_config, config_nodes, convert_config_list, convert_from_config_node, convert_to_config_node,
    create_vcd_variable_node, get_node_owner, is_node_saved, replace_signals, set_node_saved, waveform_rows,
    ListAction, SignalNode, SignalViewerError, SignalViewerState, VariableInfo, WaveformNode,
};
use nalu::widgets::browser::{BrowserEntry, BrowserNode, BrowserState};
use nalu::widgets::waveform::{SpanStyle, WaveformWidget};

const VCD: &str = "$timescale 1ns $end
$scope module TOP $end
$var wire 1 ! clk $end
$var wire 4 \" data [3:0] $end
$upscope $end
$enddefinitions $end
#0
0!
b0000 \"
#10
1!
b0101 \"
#20
0!
#30
1!
b1111 \"
#40
0!
";

fn load() -> (VcdHeader, Waveform) {
    load_single_threaded(VCD.to_string(), &mut |_| {}).unwrap()
}

fn data_signal(owner: ConfigOwner) -> SignalNodePyInternal {
    SignalNodePyInternal::Signal {
        path: String::from("TOP.data"),
        radix: SignalRadixPy::Hexadecimal,
        index: None,
        expanded: true,
        owner,
    }
}

#[test]
fn config_node_loads_signal_with_bits() {
    let (header, _) = load();
    let node = convert_from_config_node(&data_signal(ConfigOwner::Nalu), &header).unwrap();
    assert!(node.is_expanded());
    assert_eq!(node.get_children().len(), 4);
    match node.get_entry() {
        Some(SignalNode::Signal { path, vcd_variable, index, saved, .. }) => {
            assert_eq!(path, &vec![String::from("TOP"), String::from("data")]);
            assert_eq!(vcd_variable.bit_width, 4);
            assert_eq!(*index, None);
            assert!(*saved);
        }
        _ => panic!("expected a signal"),
    }
    let bit = node.get_children()[2].get_entry().as_ref().unwrap();
    assert_eq!(bit.label(), "data[4] [2]");
    assert_eq!(node.get_entry().as_ref().unwrap().label(), "data[4]");
}

#[test]
fn config_node_missing_signal() {
    let (header, _) = load();
    let group = SignalNodePyInternal::Group {
        name: String::from("g"),
        children: vec![
            data_signal(ConfigOwner::Nalu),
            SignalNodePyInternal::Signal {
                path: String::from("TOP.missing"),
                radix: SignalRadixPy::Binary,
                index: None,
                expanded: false,
                owner: ConfigOwner::Nalu,
            },
        ],
        expanded: false,
        owner: ConfigOwner::Nalu,
    };
    match convert_from_config_node(&group, &header) {
        Err(SignalViewerError::VariableNotFound(path)) => assert_eq!(path, "TOP.missing"),
        _ => panic!("expected a missing variable"),
    }
}

#[test]
fn config_load_save_round_trip() {
    let (header, _) = load();
    let cfg = SignalNodePyInternal::Group {
        name: String::from("my_group"),
        children: vec![data_signal(ConfigOwner::Nalu), SignalNodePyInternal::Spacer { owner: ConfigOwner::Nalu }],
        expanded: true,
        owner: ConfigOwner::Nalu,
    };
    let node = convert_from_config_node(&cfg, &header).unwrap();
    assert_eq!(get_node_owner(&node), ConfigOwner::Nalu);
    assert_eq!(convert_to_config_node(&node, ConfigOwner::Nalu), Some(cfg));
    assert_eq!(convert_to_config_node(&node, ConfigOwner::User), None);
}

#[test]
fn saved_state_of_nodes() {
    let variable = VariableInfo { label: String::from("clk"), bit_width: 1, idcode: 0 };
    let signal = create_vcd_variable_node(
        vec![String::from("TOP"), String::from("clk")],
        variable,
        SignalRadixPy::Binary,
        ConfigOwner::Nalu,
    );
    let mut root = BrowserNode::from_expanded(None, true, vec![signal]);
    assert!(!is_node_saved(&root));
    set_node_saved(&mut root, true);
    assert!(is_node_saved(&root));
    let user = BrowserNode::new(Some(SignalNode::Spacer { owner: ConfigOwner::User, saved: false }));
    assert_eq!(get_node_owner(&user), ConfigOwner::User);
    assert!(is_node_saved(&user));
}

#[test]
fn waveform_row_fills_width() {
    let (header, waveform) = load();
    let header_clk = idcode(&header, "TOP.clk");
    let widget = WaveformWidget::new(0, 40, 40, &waveform, header_clk, None, SignalRadixPy::Binary, false);
    assert!(widget.drawable(8));
    let spans = widget.spans(8);
    let total: usize = spans.iter().map(|(s, _)| s.chars().count()).sum();
    assert_eq!(total, 8);
    let empty = WaveformWidget::new(0, 0, 40, &waveform, header_clk, None, SignalRadixPy::Binary, false);
    let spans = empty.spans(3);
    assert_eq!(spans, vec![(String::from("   "), SpanStyle::Normal)]);
}

fn signal(label: &str, idcode: usize, owner: ConfigOwner) -> BrowserNode<SignalNode> {
    let variable = VariableInfo { label: label.to_string(), bit_width: 1, idcode };
    create_vcd_variable_node(vec![String::from("TOP"), label.to_string()], variable, SignalRadixPy::Binary, owner)
}

#[test]
fn load_config_checks() {
    let mut root = BrowserNode::from_expanded(None, true, vec![signal("clk", 0, ConfigOwner::Nalu)]);
    assert!(matches!(check_load_config(&root, true, false), Err(SignalViewerError::UnsavedSignals)));
    assert!(matches!(check_load_config(&root, true, true), Ok(())));
    assert!(matches!(check_load_config(&root, false, true), Err(SignalViewerError::ConfigNotAvailable)));
    set_node_saved(&mut root, true);
    assert!(matches!(check_load_config(&root, false, false), Err(SignalViewerError::ConfigNotAvailable)));
    assert!(matches!(check_load_config(&root, true, false), Ok(())));
}

#[test]
fn config_list_converts_in_order() {
    let (header, _) = load();
    let list = vec![SignalNodePyInternal::Spacer { owner: ConfigOwner::User }, data_signal(ConfigOwner::User)];
    let nodes = convert_config_list(&list, &header).unwrap();
    assert_eq!(nodes.len(), 2);
    assert!(matches!(nodes[0].get_entry(), Some(SignalNode::Spacer { owner: ConfigOwner::User, saved: true })));
    assert_eq!(nodes[1].get_children().len(), 4);
    let missing = vec![
        data_signal(ConfigOwner::Nalu),
        SignalNodePyInternal::Signal {
            path: String::from("TOP.nothing"),
            radix: SignalRadixPy::Binary,
            index: None,
            expanded: false,
            owner: ConfigOwner::Nalu,
        },
    ];
    match convert_config_list(&missing, &header) {
        Err(SignalViewerError::VariableNotFound(path)) => assert_eq!(path, "TOP.nothing"),
        _ => panic!("expected a missing variable"),
    }
}

#[test]
fn replace_and_save_signals() {
    let mut root = BrowserNode::from_expanded(None, true, vec![signal("old", 9, ConfigOwner::Nalu)]);
    replace_signals(
        &mut root,
        vec![signal("clk", 0, ConfigOwner::Nalu)],
        vec![signal("rst", 1, ConfigOwner::User), signal("en", 2, ConfigOwner::Nalu)],
    );
    assert!(root.is_expanded());
    let labels: Vec<String> =
        root.get_children().iter().map(|c| c.get_entry().as_ref().unwrap().label()).collect();
    assert_eq!(labels, vec!["clk", "rst", "en"]);
    let saved = config_nodes(&root);
    let path = |node: &SignalNodePyInternal| match node {
        SignalNodePyInternal::Signal { path, .. } => path.clone(),
        _ => String::new(),
    };
    assert_eq!(saved.iter().map(path).collect::<Vec<String>>(), vec!["TOP.clk", "TOP.en"]);
}

#[test]
fn waveform_rows_of_window() {
    let root = BrowserNode::from_expanded(
        None,
        true,
        vec![
            signal("clk", 0, ConfigOwner::Nalu),
            BrowserNode::new(Some(SignalNode::Spacer { owner: ConfigOwner::Nalu, saved: false })),
            signal("data", 1, ConfigOwner::Nalu),
        ],
    );
    let mut state = BrowserState::new(false, true, false);
    assert_eq!(waveform_rows(&state, &root), vec![]);
    state.set_height(2);
    state.select_relative(&root, 1, true);
    assert!(state.window_end_in_range());
    assert!(state.selection_end_in_range());
    let row = |idcode: usize, is_selected: bool| WaveformNode {
        idcode,
        index: None,
        radix: SignalRadixPy::Binary,
        is_selected,
    };
    assert_eq!(waveform_rows(&state, &root), vec![Some(row(0, false)), None]);
    state.select_relative(&root, 1, true);
    assert_eq!(waveform_rows(&state, &root), vec![None, Some(row(1, true))]);
}

fn span(text: &str) -> (String, SpanStyle) {
    (text.to_string(), SpanStyle::Normal)
}

fn idcode(header: &VcdHeader, path: &str) -> usize {
    header.get_variable(path).unwrap().get_idcode()
}

#[test]
fn waveform_row_columns() {
    let (header, waveform) = load();
    let (clk_id, data_id) = (idcode(&header, "TOP.clk"), idcode(&header, "TOP.data"));
    let clk = WaveformWidget::new(0, 40, 40, &waveform, clk_id, None, SignalRadixPy::Binary, false);
    assert_eq!(clk.spans(4), vec![span("_"), span("█"), span("_"), span("█")]);
    let data = WaveformWidget::new(0, 40, 40, &waveform, data_id, None, SignalRadixPy::Hexadecimal, false);
    assert_eq!(data.spans(4), vec![span("|"), span("|h"), span("|")]);
    let bit = WaveformWidget::new(0, 40, 40, &waveform, data_id, Some(0), SignalRadixPy::Hexadecimal, false);
    assert_eq!(bit.spans(4), vec![span("_"), span("██"), span("█")]);
    let wide = WaveformWidget::new(0, 40, 40, &waveform, clk_id, None, SignalRadixPy::Binary, false);
    assert_eq!(wide.spans(1), vec![(String::from("#"), SpanStyle::Edges)]);
}

#[test]
fn waveform_row_past_the_end() {
    let (header, waveform) = load();
    let late = WaveformWidget::new(40, 60, 40, &waveform, idcode(&header, "TOP.clk"), None, SignalRadixPy::Binary, false);
    assert_eq!(late.spans(2), vec![(String::from("_"), SpanStyle::Void), span(" ")]);
    let missing = WaveformWidget::new(0, 40, 40, &waveform, usize::MAX, None, SignalRadixPy::Binary, false);
    assert_eq!(missing.spans(2), vec![span("  ")]);
}

#[test]
fn waveform_row_needs_timestamps() {
    let empty = Waveform::default();
    let row = WaveformWidget::new(0, 40, 40, &empty, 0, None, SignalRadixPy::Binary, false);
    assert!(!row.drawable(3));
    assert!(row.drawable(0));
    assert_eq!(row.spans(0), vec![]);
}

#[test]
fn signal_viewer_state_lists_signals() {
    let mut state = SignalViewerState::new();
    let clk = VariableInfo { label: String::from("clk"), bit_width: 1, idcode: 3 };
    let bus = VariableInfo { label: String::from("bus"), bit_width: 2, idcode: 4 };
    assert!(state.append_signal(vec![String::from("TOP"), String::from("clk")], clk, SignalRadixPy::Binary));
    assert!(state.append_signal(vec![String::from("TOP"), String::from("bus")], bus, SignalRadixPy::Hexadecimal));
    state.resize(30, 6);
    let row = |idcode: usize, index: Option<usize>, radix: SignalRadixPy, is_selected: bool| {
        Some(WaveformNode { idcode, index, radix, is_selected })
    };
    assert_eq!(
        state.update_waveform_viewer(),
        vec![row(3, None, SignalRadixPy::Binary, true), row(4, None, SignalRadixPy::Hexadecimal, false), None, None]
    );
    assert!(state.handle_key(KeyInput::plain(Key::Down)));
    assert!(state.handle_key(KeyInput::plain(Key::Enter)));
    assert_eq!(
        state.update_waveform_viewer(),
        vec![
            row(3, None, SignalRadixPy::Binary, false),
            row(4, None, SignalRadixPy::Hexadecimal, true),
            row(4, Some(0), SignalRadixPy::Hexadecimal, false),
            row(4, Some(1), SignalRadixPy::Hexadecimal, false),
        ]
    );
    assert!(state.handle_key(KeyInput::plain(Key::Char('g'))));
    assert!(state.handle_key(KeyInput::plain(Key::Delete)));
    assert!(!state.handle_key(KeyInput::plain(Key::Char('q'))));
    assert!(state.handle_mouse(1, MouseKind::LeftDown));
    assert_eq!(state.update_waveform_viewer()[0], row(3, None, SignalRadixPy::Binary, true));
    assert!(state.handle_mouse(0, MouseKind::ScrollDown));
    assert_eq!(
        state.update_waveform_viewer(),
        vec![row(4, Some(0), SignalRadixPy::Hexadecimal, false), row(4, Some(1), SignalRadixPy::Hexadecimal, true), None, None]
    );
    state.modify(ListAction::Group);
    assert!(!is_node_saved(state.get_node()));
    state.mark_saved();
    assert!(is_node_saved(state.get_node()));
}

#[test]
fn signal_viewer_state_full_names() {
    let mut state = SignalViewerState::new();
    let clk = VariableInfo { label: String::from("clk"), bit_width: 1, idcode: 3 };
    state.append_signal(vec![String::from("TOP"), String::from("clk")], clk, SignalRadixPy::Binary);
    state.resize(30, 5);
    assert!(!state.get_browser_state().is_full_name_enabled());
    assert!(state.get_browser_state().is_indent_enabled());
    assert!(state.handle_key(KeyInput::plain(Key::Char('f'))));
    assert!(state.get_browser_state().is_full_name_enabled());
    assert!(state.get_browser_state().is_indent_enabled());
    assert!(state.handle_key(KeyInput::plain(Key::Char('f'))));
    assert!(!state.get_browser_state().is_full_name_enabled());
    assert!(!state.get_browser_state().is_indent_enabled());
}

#[test]
fn signal_viewer_state_applies_config() {
    let (header, _) = load();
    let mut state = SignalViewerState::new();
    let nalu = convert_config_list(&vec![data_signal(ConfigOwner::Nalu)], &header).unwrap();
    let user = convert_config_list(&vec![SignalNodePyInternal::Spacer { owner: ConfigOwner::User }], &header).unwrap();
    assert!(state.apply_config(nalu, user));
    assert_eq!(state.get_node().get_children().len(), 2);
    assert!(is_node_saved(state.get_node()));
    state.resize(30, 10);
    let rows = state.update_waveform_viewer();
    assert_eq!(rows.len(), 8);
    assert!(matches!(rows[0], Some(WaveformNode { index: None, is_selected: true, .. })));
    assert!(matches!(rows[4], Some(WaveformNode { index: Some(3), is_selected: false, .. })));
    assert_eq!(rows[5], None);
}

const VCD_XZ: &str = "$timescale 1ns $end
$scope module TOP $end
$var wire 2 # u [1:0] $end
$upscope $end
$enddefinitions $end
#0
bxx #
#10
bzz #
#20
b01 #
";

#[test]
fn waveform_row_unknown_and_high_impedance() {
    let (header, waveform) = load_single_threaded(VCD_XZ.to_string(), &mut |_| {}).unwrap();
    let u = idcode(&header, "TOP.u");
    let row = WaveformWidget::new(0, 30, 30, &waveform, u, None, SignalRadixPy::Binary, false);
    let styles: Vec<SpanStyle> = row.spans(3).into_iter().map(|(_, style)| style).collect();
    assert_eq!(styles, vec![SpanStyle::Unknown, SpanStyle::HighImpedance, SpanStyle::Normal]);
    let wide = WaveformWidget::new(0, 10, 30, &waveform, u, None, SignalRadixPy::Binary, false);
    assert_eq!(wide.spans(4), vec![(String::from("|bXX"), SpanStyle::Unknown)]);
}

#[test]
fn waveform_viewer_takes_loaded_range() {
    let (_, waveform) = load();
    let mut state = nalu::state::waveform_viewer::WaveformViewerState::new();
    state.load_waveform(&waveform, -9);
    let time = state.get_timescale_state();
    assert_eq!((time.get_range().start, time.get_range().end, time.get_timestamp_max()), (0, 40, 40));
}

#[test]
fn waveform_row_vector_text() {
    let (header, waveform) = load();
    let data_id = idcode(&header, "TOP.data");
    let text = |radix: SignalRadixPy| {
        let row = WaveformWidget::new(0, 40, 40, &waveform, data_id, None, radix, false);
        row.spans(80).into_iter().map(|(text, _)| text).collect::<String>()
    };
    let hex = text(SignalRadixPy::Hexadecimal);
    assert!(hex.contains("h0") && hex.contains("h5") && hex.contains("hF"));
    let octal = text(SignalRadixPy::Octal);
    assert!(octal.contains("o00") && octal.contains("o05") && octal.contains("o17"));
    let binary = text(SignalRadixPy::Binary);
    assert!(binary.contains("b0000") && binary.contains("b0101") && binary.contains("b1111"));
    assert_eq!(binary.chars().count(), 80);
    let decimal = text(SignalRadixPy::Decimal);
    assert!(decimal.contains("d0") && decimal.contains("d5") && decimal.contains("d15"));
    let bit = WaveformWidget::new(0, 40, 40, &waveform, data_id, Some(2), SignalRadixPy::Decimal, false);
    let bit_text = bit.spans(80).into_iter().map(|(text, _)| text).collect::<String>();
    assert_eq!(bit_text.chars().count(), 80);
}
