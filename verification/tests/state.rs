use nalu::state::waveform_viewer::{WaveformKeyOutcome, WaveformViewerState};
use nalu::input::{Key, KeyInput, MouseKind};
use nalu::logging::FrameTimestamps;
use nalu::state::{NaluKeyOutcome, NaluOverlay, NaluState};

fn key(c: char) -> KeyInput {
    KeyInput::plain(Key::Char(c))
}

#[test]
fn nalu_loading_quits_on_q() {
    let mut state = NaluState::new(String::from("a.vcd"), None);
    assert_eq!(*state.get_overlay(), NaluOverlay::Loading);
    assert_eq!(state.handle_key(key('x')), NaluKeyOutcome::Handled);
    assert_eq!(state.get_done(), None);
    assert_eq!(state.handle_key(key('q')), NaluKeyOutcome::Handled);
    assert_eq!(state.get_done(), Some(String::new()));
}

#[test]
fn nalu_overlays_and_keys() {
    let mut state = NaluState::new(String::from("a.vcd"), Some(String::from("c.py")));
    assert_eq!(state.handle_mouse(1, 2, MouseKind::LeftDown), None);
    assert_eq!(state.handle_loaded(Some(-9)), (true, -9));
    assert_eq!(*state.get_overlay(), NaluOverlay::Hidden);
    assert_eq!(state.handle_mouse(1, 2, MouseKind::LeftDown), Some((1, 2, MouseKind::LeftDown)));
    assert_eq!(state.handle_key(key('h')), NaluKeyOutcome::Handled);
    assert_eq!(*state.get_overlay(), NaluOverlay::HelpPrompt);
    assert_eq!(state.handle_key(KeyInput::plain(Key::Esc)), NaluKeyOutcome::Handled);
    assert_eq!(*state.get_overlay(), NaluOverlay::Hidden);
    assert_eq!(state.handle_key(key('p')), NaluKeyOutcome::Handled);
    assert_eq!(*state.get_overlay(), NaluOverlay::Palette);
    assert_eq!(state.handle_key(key('q')), NaluKeyOutcome::Handled);
    assert_eq!(state.get_done(), None);
    assert_eq!(state.handle_key(KeyInput::plain(Key::Esc)), NaluKeyOutcome::Handled);
    assert_eq!(state.handle_key(key('s')), NaluKeyOutcome::SaveConfig);
    assert_eq!(state.handle_key(key('z')), NaluKeyOutcome::Pass);
    state.set_progress(3, 4);
    assert_eq!(state.get_percent(), 75);
    assert_eq!(state.handle_key(key('r')), NaluKeyOutcome::Reload);
    assert_eq!(*state.get_overlay(), NaluOverlay::Loading);
    assert_eq!(state.get_percent(), 0);
    assert_eq!(state.handle_loaded(None), (false, 0));
    assert_eq!(state.get_python_path(), Some(String::from("c.py")));
    assert_eq!(state.get_vcd_path(), "a.vcd");
    assert_eq!(state.get_palette(), "");
    state.fail(String::from("VCD Loading Error: x"));
    assert_eq!(state.get_done(), Some(String::from("VCD Loading Error: x")));
}

#[test]
fn frame_timestamps_sections() {
    let mut frame = FrameTimestamps::new();
    assert_eq!(frame.get_sections().len(), 0);
    assert_eq!(frame.total(), 0);
    frame.timestamp(String::from("input"));
    frame.timestamp(String::from("render"));
    let sections = frame.get_sections();
    assert_eq!(sections.len(), 2);
    assert_eq!(sections[0].0, "input");
    assert_eq!(sections[1].0, "render");
    assert_eq!(frame.total(), sections[0].1 + sections[1].1);
    let default = FrameTimestamps::default();
    assert!(default.get_sections().is_empty());
}

#[test]
fn frame_timestamps_record() {
    let mut frame = FrameTimestamps::new();
    frame.record(String::from("a"), 5);
    frame.record(String::from("b"), 7);
    let sections = frame.get_sections();
    assert_eq!(sections.len(), 2);
    assert_eq!(sections[0], (String::from("a"), 5));
    assert_eq!(sections[1], (String::from("b"), 7));
    assert_eq!(frame.total(), 12);
}


#[test]
fn waveform_viewer_keys() {
    let mut state = WaveformViewerState::new();
    let range = |state: &WaveformViewerState| {
        let r = state.get_timescale_state().get_range();
        (r.start, r.end)
    };
    assert_eq!(range(&state), (0, 1000000));
    let key = |c: char| nalu::input::KeyInput::plain(nalu::input::Key::Char(c));
    assert_eq!(state.handle_key(key('=')), WaveformKeyOutcome::Handled);
    assert_eq!(range(&state), (250000, 750000));
    assert_eq!(state.handle_key(key('-')), WaveformKeyOutcome::Handled);
    assert_eq!(range(&state), (0, 1000000));
    assert_eq!(state.handle_key(key(']')), WaveformKeyOutcome::Handled);
    assert_eq!(range(&state), (500000, 1500000));
    assert_eq!(state.handle_key(key('}')), WaveformKeyOutcome::Handled);
    assert_eq!(range(&state), (500000, 1500000));
    assert_eq!(state.handle_key(key('{')), WaveformKeyOutcome::Handled);
    assert_eq!(range(&state), (0, 1000000));
    assert!(!state.is_python_view());
    assert_eq!(state.handle_key(key('v')), WaveformKeyOutcome::Handled);
    assert!(state.is_python_view());
    assert_eq!(state.handle_key(key('g')), WaveformKeyOutcome::Forward);
    assert_eq!(
        state.handle_key(nalu::input::KeyInput::plain(nalu::input::Key::Up)),
        WaveformKeyOutcome::Forward
    );
    assert_eq!(state.handle_key(key('x')), WaveformKeyOutcome::Ignored);
    assert!(state.can_handle_key(key('+')));
}

#[test]
fn waveform_viewer_size() {
    let mut state = WaveformViewerState::new();
    state.resize(40, 12);
    assert_eq!((state.get_width(), state.get_height()), (38, 12));
    state.resize(2, 3);
    assert_eq!((state.get_width(), state.get_height()), (0, 3));
    state.set_size(&nalu::tui_layout::pos::Rect::new(0, 0, 10, 4), 3);
    assert_eq!((state.get_width(), state.get_height()), (4, 4));
}

#[test]
fn waveform_viewer_load() {
    let mut state = WaveformViewerState::new();
    let empty = makai_waveform_db::Waveform::default();
    state.load_waveform(&empty, -9);
    let r = state.get_timescale_state().get_range();
    assert_eq!((r.start, r.end, state.get_timescale_state().get_timestamp_max()), (0, 0, 0));
}

#[test]
fn waveform_viewer_ruler_checks() {
    let mut state = WaveformViewerState::new();
    let time = state.get_timescale_state();
    assert!(time.can_render(20));
    assert!(!time.render(20).is_empty());
    let empty = makai_waveform_db::Waveform::default();
    state.load_waveform(&empty, -9);
    let time = state.get_timescale_state();
    assert!(time.can_render(10));
    assert_eq!(time.render(10), vec![String::from("|0|")]);
}
