use makai_waveform_db::Waveform;
use vstd::prelude::*;

use crate::input::{Key, KeyInput};
use crate::state::signal_viewer::WaveformNode;
use crate::state::waveform::timescale::{WaveformTime, WaveformTimeView};
use crate::tui_layout::pos::Rect;
use crate::widgets::waveform::{timestamp_range, waveform_timestamps, WaveformWidget};

verus! {

/// What the waveform pane shows: its size inside the border, the time
/// range, the rows of signals, and whether the output of the Python script
/// is shown in place of the waveform.
pub struct WaveformViewerView {
    pub width: nat,
    pub height: nat,
    pub time: WaveformTimeView,
    pub entries: Seq<Option<WaveformNode>>,
    pub python_view: bool,
}

/// What the caller does after the pane took a key.
#[derive(Debug, Clone, Copy, PartialEq, Eq, Structural)]
pub enum WaveformKeyOutcome {
    /// The pane used the key.
    Handled,
    /// The key moves in the list of signals: hand it to that list.
    Forward,
    /// The key means nothing to the pane.
    Ignored,
}

/// Whether the key leaves the time range within `u64`: zooming out (`-`,
/// `_`), in (`=`, `+`) and right (`]`, `}`) must.
pub open spec fn key_fits(time: WaveformTimeView, key: Key) -> bool {
    match key {
        Key::Char('-') => time.zoom_out_ok(),
        Key::Char('_') => time.zoom_out_ok(),
        Key::Char('=') => time.zoom_in_ok(),
        Key::Char('+') => time.zoom_in_ok(),
        Key::Char(']') => time.zoom_right_ok(),
        Key::Char('}') => time.zoom_right_ok(),
        _ => true,
    }
}

/// The keys the list of signals moves by.
pub open spec fn forwarded(key: Key) -> bool {
    match key {
        Key::Up => true,
        Key::Down => true,
        Key::PageDown => true,
        Key::PageUp => true,
        Key::Enter => true,
        Key::Char('g') => true,
        Key::Char('f') => true,
        Key::Delete => true,
        _ => false,
    }
}

/// What a key does to the pane: `v` switches to and from the Python view;
/// `-` and `_` zoom out, `=` and `+` zoom in, `[` and `{` move left, `]`
/// and `}` move right; the keys of the list of signals are handed on.
pub open spec fn waveform_key_spec(
    before: WaveformViewerView,
    after: WaveformViewerView,
    key: Key,
    r: WaveformKeyOutcome,
) -> bool {
    let t = before.time;
    let moved = |time: WaveformTimeView| after == WaveformViewerView { time, ..before } && r
        == WaveformKeyOutcome::Handled;
    match key {
        Key::Char('v') => after == WaveformViewerView { python_view: !before.python_view, ..before } && r
            == WaveformKeyOutcome::Handled,
        Key::Char('-') => moved(t.after_zoom_out()),
        Key::Char('_') => moved(t.after_zoom_out()),
        Key::Char('=') => moved(t.after_zoom_in()),
        Key::Char('+') => moved(t.after_zoom_in()),
        Key::Char('[') => moved(t.after_zoom_left()),
        Key::Char('{') => moved(t.after_zoom_left()),
        Key::Char(']') => moved(t.after_zoom_right()),
        Key::Char('}') => moved(t.after_zoom_right()),
        _ => after == before && r == if forwarded(key) {
            WaveformKeyOutcome::Forward
        } else {
            WaveformKeyOutcome::Ignored
        },
    }
}

/// The waveform pane: the time range shown, the rows of signals, and the
/// size of the pane.
pub struct WaveformViewerState {
    width: usize,
    height: usize,
    timescale_state: WaveformTime,
    signal_entries: Vec<Option<WaveformNode>>,
    python_view: bool,
}

impl View for WaveformViewerState {
    type V = WaveformViewerView;

    closed spec fn view(&self) -> WaveformViewerView {
        WaveformViewerView {
            width: self.width as nat,
            height: self.height as nat,
            time: self.timescale_state@,
            entries: self.signal_entries@,
            python_view: self.python_view,
        }
    }
}

impl WaveformViewerState {
    /// A pane of no size, with no rows, over the default time range.
    pub fn new() -> (r: Self)
        ensures
            r@ == (WaveformViewerView {
                width: 0,
                height: 0,
                time: WaveformTimeView { start: 0, end: 1000000, cursor: 0, timescale: 6, max: 1000000 },
                entries: Seq::empty(),
                python_view: false,
            }),
    {
        let r = WaveformViewerState {
            width: 0,
            height: 0,
            timescale_state: WaveformTime::new(),
            signal_entries: Vec::new(),
            python_view: false,
        };
        assert(r@.entries =~= Seq::<Option<WaveformNode>>::empty());
        r
    }

    /// Shows the whole of a newly loaded waveform, from its first to its
    /// last timestamp, with its timescale.
    pub fn load_waveform(&mut self, waveform: &Waveform, timescale: i32)
        ensures
            ({
                let ts = waveform_timestamps(*waveform);
                let (start, end) = if ts.len() > 0 {
                    (ts[0] as nat, ts.last() as nat)
                } else {
                    (0nat, 0nat)
                };
                final(self)@ == (WaveformViewerView {
                    time: WaveformTimeView {
                        start,
                        end,
                        max: end,
                        timescale: timescale as int,
                        ..old(self)@.time
                    },
                    ..old(self)@
                })
            }),
    {
        let (start, end) = timestamp_range(waveform);
        self.timescale_state.load_waveform(start..end, end, timescale);
    }

    /// Takes the size of `size` inside borders `border_width` wide: the
    /// width less both borders (none where they fill it), the full height.
    pub fn set_size(&mut self, size: &Rect, border_width: u16)
        ensures
            final(self)@ == (WaveformViewerView {
                width: if size.width > border_width * 2 {
                    (size.width - border_width * 2) as nat
                } else {
                    0
                },
                height: size.height as nat,
                ..old(self)@
            }),
    {
        let margin = border_width as u32 * 2;
        self.width = if size.width as u32 > margin {
            (size.width as u32 - margin) as usize
        } else {
            0
        };
        self.height = size.height as usize;
    }

    /// `set_size` for a pane `width` by `height` with a border one wide.
    pub fn resize(&mut self, width: u16, height: u16)
        ensures
            final(self)@ == (WaveformViewerView {
                width: if width > 2 {
                    (width - 2) as nat
                } else {
                    0
                },
                height: height as nat,
                ..old(self)@
            }),
    {
        self.set_size(&Rect { x: 0, y: 0, width, height }, 1);
    }

    /// Takes the rows the list of signals shows.
    pub fn update_signals(&mut self, entries: Vec<Option<WaveformNode>>)
        ensures
            final(self)@ == (WaveformViewerView { entries: entries@, ..old(self)@ }),
    {
        self.signal_entries = entries;
    }

    /// Whether `handle_key` can take `key` (see `key_fits`).
    pub fn can_handle_key(&self, key: KeyInput) -> (r: bool)
        ensures
            r == key_fits(self@.time, key.key),
    {
        match key.key {
            Key::Char('-') => self.timescale_state.can_zoom_out(),
            Key::Char('_') => self.timescale_state.can_zoom_out(),
            Key::Char('=') => self.timescale_state.can_zoom_in(),
            Key::Char('+') => self.timescale_state.can_zoom_in(),
            Key::Char(']') => self.timescale_state.can_zoom_right(),
            Key::Char('}') => self.timescale_state.can_zoom_right(),
            _ => true,
        }
    }

    /// Handles a key (see `waveform_key_spec`).
    pub fn handle_key(&mut self, key: KeyInput) -> (r: WaveformKeyOutcome)
        requires
            key_fits(old(self)@.time, key.key),
        ensures
            waveform_key_spec(old(self)@, final(self)@, key.key, r),
    {
        match key.key {
            Key::Char('v') => self.python_view = !self.python_view,
            Key::Char('-') => self.timescale_state.zoom_out(false),
            Key::Char('=') => self.timescale_state.zoom_in(false),
            Key::Char('[') => self.timescale_state.zoom_left(false),
            Key::Char(']') => self.timescale_state.zoom_right(false),
            Key::Char('_') => self.timescale_state.zoom_out(true),
            Key::Char('+') => self.timescale_state.zoom_in(true),
            Key::Char('{') => self.timescale_state.zoom_left(true),
            Key::Char('}') => self.timescale_state.zoom_right(true),
            Key::Up | Key::Down | Key::PageDown | Key::PageUp | Key::Enter | Key::Char('g') | Key::Char('f')
            | Key::Delete => {
                return WaveformKeyOutcome::Forward;
            },
            _ => {
                return WaveformKeyOutcome::Ignored;
            },
        }
        WaveformKeyOutcome::Handled
    }

    pub fn get_width(&self) -> (r: usize)
        ensures
            r == self@.width,
    {
        self.width
    }

    pub fn get_height(&self) -> (r: usize)
        ensures
            r == self@.height,
    {
        self.height
    }

    pub fn is_python_view(&self) -> (r: bool)
        ensures
            r == self@.python_view,
    {
        self.python_view
    }

    pub fn get_timescale_state(&self) -> (r: &WaveformTime)
        ensures
            r@ == self@.time,
    {
        &self.timescale_state
    }

    /// The row of each entry of the list over `waveform`: a row for a
    /// signal over the time range shown, none for a line without one.
    pub fn get_waveform_widget<'a>(&self, waveform: &'a Waveform) -> (r: Vec<Option<WaveformWidget<'a>>>)
        ensures
            r@.len() == self@.entries.len(),
            forall|i: int|
                0 <= i < r@.len() ==> match (#[trigger] r@[i], self@.entries[i]) {
                    (Some(w), Some(e)) => {
                        &&& w.range() == (self@.time.start as u64, self@.time.end as u64)
                        &&& w.timestamp_max() == self@.time.max
                        &&& w.waveform() == waveform
                        &&& w.idcode() == e.idcode
                        &&& w.bit_index() == e.index
                        &&& w.radix() == e.radix
                        &&& w.is_selected() == e.is_selected
                    },
                    (None, None) => true,
                    _ => false,
                },
    {
        let range = self.timescale_state.get_range();
        let max = self.timescale_state.get_timestamp_max();
        let mut rows: Vec<Option<WaveformWidget<'a>>> = Vec::new();
        let mut i: usize = 0;
        while i < self.signal_entries.len()
            invariant
                i <= self@.entries.len(),
                rows@.len() == i,
                range.start == self@.time.start,
                range.end == self@.time.end,
                max == self@.time.max,
                forall|k: int|
                    0 <= k < i ==> match (#[trigger] rows@[k], self@.entries[k]) {
                        (Some(w), Some(e)) => {
                            &&& w.range() == (self@.time.start as u64, self@.time.end as u64)
                            &&& w.timestamp_max() == self@.time.max
                            &&& w.waveform() == waveform
                            &&& w.idcode() == e.idcode
                            &&& w.bit_index() == e.index
                            &&& w.radix() == e.radix
                            &&& w.is_selected() == e.is_selected
                        },
                        (None, None) => true,
                        _ => false,
                    },
            decreases self@.entries.len() - i,
        {
            let row = match self.signal_entries[i] {
                Some(entry) => Some(
                    WaveformWidget::new(
                        range.start,
                        range.end,
                        max,
                        waveform,
                        entry.idcode,
                        entry.index,
                        entry.radix,
                        entry.is_selected,
                    ),
                ),
                None => None,
            };
            rows.push(row);
            i += 1;
        }
        rows
    }
}

} // verus!
