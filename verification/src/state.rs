pub mod browsing;
pub mod filter;
pub mod netlist_viewer;
pub mod signal_viewer;
pub mod tree;
pub mod utils;
pub mod waveform_viewer;
pub mod waveform;

use vstd::prelude::*;

use crate::input::{Key, KeyInput, MouseKind};

verus! {

/// What the viewer shows above its panes.
#[derive(Debug, Clone, Copy, PartialEq, Eq, Structural)]
pub enum NaluOverlay {
    Loading,
    Palette,
    HelpPrompt,
    QuitPrompt,
    Hidden,
}

/// What the caller has to do after the viewer took a key.
#[derive(Debug, Clone, Copy, PartialEq, Eq, Structural)]
pub enum NaluKeyOutcome {
    /// The key was used up.
    Handled,
    /// The key means nothing to the viewer: hand it on to the panes.
    Pass,
    /// Load the waveform file again.
    Reload,
    /// Save the signal configuration.
    SaveConfig,
}

/// The overlay, whether to quit, and the outcome, after `key` is pressed
/// while `overlay` is shown.
pub open spec fn nalu_key_step(overlay: NaluOverlay, key: Key) -> (NaluOverlay, bool, NaluKeyOutcome) {
    match overlay {
        NaluOverlay::Loading => (NaluOverlay::Loading, key == Key::Char('q'), NaluKeyOutcome::Handled),
        NaluOverlay::Palette => (
            if key == Key::Esc {
                NaluOverlay::Hidden
            } else {
                NaluOverlay::Palette
            },
            false,
            NaluKeyOutcome::Handled,
        ),
        NaluOverlay::HelpPrompt | NaluOverlay::QuitPrompt => (
            if key == Key::Esc {
                NaluOverlay::Hidden
            } else {
                overlay
            },
            key == Key::Char('q'),
            NaluKeyOutcome::Handled,
        ),
        NaluOverlay::Hidden => {
            if key == Key::Char('q') {
                (NaluOverlay::Hidden, true, NaluKeyOutcome::Handled)
            } else if key == Key::Char('h') {
                (NaluOverlay::HelpPrompt, false, NaluKeyOutcome::Handled)
            } else if key == Key::Char('p') {
                (NaluOverlay::Palette, false, NaluKeyOutcome::Handled)
            } else if key == Key::Char('r') {
                (NaluOverlay::Loading, false, NaluKeyOutcome::Reload)
            } else if key == Key::Char('s') {
                (NaluOverlay::Hidden, false, NaluKeyOutcome::SaveConfig)
            } else {
                (NaluOverlay::Hidden, false, NaluKeyOutcome::Pass)
            }
        },
    }
}

/// `q` quits from every overlay but the palette, where it is text; no other
/// key quits. `Esc` closes every overlay but the loading one. An overlay
/// takes every key; only without one is a key handed on.
pub proof fn lemma_quit_key(overlay: NaluOverlay, key: Key)
    ensures
        nalu_key_step(overlay, key).1 == (key == Key::Char('q') && overlay != NaluOverlay::Palette),
        key == Key::Esc && overlay != NaluOverlay::Loading ==> nalu_key_step(overlay, key).0
            == NaluOverlay::Hidden,
        overlay != NaluOverlay::Hidden ==> nalu_key_step(overlay, key).2 == NaluKeyOutcome::Handled,
{
}

/// The state of the viewer as a whole: which overlay is up, how far loading
/// has come, and whether (and with what message) to quit.
pub struct NaluState {
    vcd_path: String,
    python_path: Option<String>,
    overlay: NaluOverlay,
    progress: (usize, usize),
    palette_input: String,
    done: Option<String>,
    initial_load: bool,
}

pub struct NaluStateView {
    pub vcd_path: Seq<char>,
    pub python_path: Option<Seq<char>>,
    pub overlay: NaluOverlay,
    pub progress: (usize, usize),
    pub palette_input: Seq<char>,
    pub done: Option<Seq<char>>,
    pub initial_load: bool,
}

pub open spec fn opt_string_view(s: Option<String>) -> Option<Seq<char>> {
    match s {
        Some(s) => Some(s@),
        None => None,
    }
}

impl View for NaluState {
    type V = NaluStateView;

    closed spec fn view(&self) -> NaluStateView {
        NaluStateView {
            vcd_path: self.vcd_path@,
            python_path: opt_string_view(self.python_path),
            overlay: self.overlay,
            progress: self.progress,
            palette_input: self.palette_input@,
            done: opt_string_view(self.done),
            initial_load: self.initial_load,
        }
    }
}

fn clone_opt_string(s: &Option<String>) -> (r: Option<String>)
    ensures
        opt_string_view(r) == opt_string_view(*s),
{
    match s {
        Some(s) => Some(s.clone()),
        None => None,
    }
}

impl NaluState {
    /// A viewer about to load `vcd_path`, with the loading overlay up.
    pub fn new(vcd_path: String, python_path: Option<String>) -> (r: Self)
        ensures
            r@ == (NaluStateView {
                vcd_path: vcd_path@,
                python_path: opt_string_view(python_path),
                overlay: NaluOverlay::Loading,
                progress: (0, 0),
                palette_input: Seq::empty(),
                done: None,
                initial_load: true,
            }),
    {
        Self {
            vcd_path,
            python_path,
            overlay: NaluOverlay::Loading,
            progress: (0, 0),
            palette_input: String::new(),
            done: None,
            initial_load: true,
        }
    }

    /// A mouse event reaches the panes only while no overlay is up.
    pub fn handle_mouse(&mut self, x: u16, y: u16, kind: MouseKind) -> (r: Option<(u16, u16, MouseKind)>)
        ensures
            final(self)@ == old(self)@,
            r == (if old(self)@.overlay == NaluOverlay::Hidden {
                Some((x, y, kind))
            } else {
                None
            }),
    {
        match self.overlay {
            NaluOverlay::Hidden => Some((x, y, kind)),
            _ => None,
        }
    }

    /// Takes a key press: moves between overlays, asks to quit, or tells
    /// the caller to reload, to save the configuration or to hand the key on.
    /// A reload starts with the progress set back to nothing.
    pub fn handle_key(&mut self, event: KeyInput) -> (r: NaluKeyOutcome)
        ensures
            ({
                let (overlay, quit, outcome) = nalu_key_step(old(self)@.overlay, event.key);
                &&& r == outcome
                &&& final(self)@ == (NaluStateView {
                    overlay,
                    done: if quit {
                        Some(Seq::<char>::empty())
                    } else {
                        old(self)@.done
                    },
                    progress: if outcome == NaluKeyOutcome::Reload {
                        (0usize, 0usize)
                    } else {
                        old(self)@.progress
                    },
                    ..old(self)@
                })
            }),
            event.key == Key::Char('q') && old(self)@.overlay != NaluOverlay::Palette
                ==> final(self)@.done == Some(Seq::<char>::empty()),
            event.key != Key::Char('q') || old(self)@.overlay == NaluOverlay::Palette
                ==> final(self)@.done == old(self)@.done,
            event.key == Key::Esc && old(self)@.overlay != NaluOverlay::Loading
                ==> final(self)@.overlay == NaluOverlay::Hidden,
            old(self)@.overlay != NaluOverlay::Hidden ==> r == NaluKeyOutcome::Handled,
            old(self)@.overlay == NaluOverlay::Loading ==> final(self)@.overlay == NaluOverlay::Loading,
            old(self)@.overlay == NaluOverlay::Palette && event.key != Key::Esc ==> final(self)@.overlay
                == NaluOverlay::Palette,
            old(self)@.overlay == NaluOverlay::Hidden && event.key == Key::Char('h') ==> final(self)@.overlay
                == NaluOverlay::HelpPrompt && r == NaluKeyOutcome::Handled,
            old(self)@.overlay == NaluOverlay::Hidden && event.key == Key::Char('p') ==> final(self)@.overlay
                == NaluOverlay::Palette && r == NaluKeyOutcome::Handled,
            old(self)@.overlay == NaluOverlay::Hidden && event.key == Key::Char('r') ==> final(self)@.overlay
                == NaluOverlay::Loading && r == NaluKeyOutcome::Reload && final(self)@.progress == (
                0usize,
                0usize,
            ),
            old(self)@.overlay == NaluOverlay::Hidden && event.key == Key::Char('s') ==> final(self)@.overlay
                == NaluOverlay::Hidden && r == NaluKeyOutcome::SaveConfig,
            old(self)@.overlay == NaluOverlay::Hidden && event.key != Key::Char('q') && event.key != Key::Char(
                'h',
            ) && event.key != Key::Char('p') && event.key != Key::Char('r') && event.key != Key::Char('s')
                ==> r == NaluKeyOutcome::Pass && final(self)@ == old(self)@,
            r != NaluKeyOutcome::Reload ==> final(self)@.progress == old(self)@.progress,
    {
        proof {
            lemma_quit_key(old(self)@.overlay, event.key);
        }
        let code = event.key;
        let mut outcome = NaluKeyOutcome::Handled;
        match self.overlay {
            NaluOverlay::Loading => {
                if code == Key::Char('q') {
                    self.done = Some(String::new());
                }
            },
            NaluOverlay::Palette => {
                if code == Key::Esc {
                    self.overlay = NaluOverlay::Hidden;
                }
            },
            NaluOverlay::HelpPrompt | NaluOverlay::QuitPrompt => {
                match code {
                    Key::Char('q') => self.done = Some(String::new()),
                    Key::Esc => self.overlay = NaluOverlay::Hidden,
                    _ => {},
                }
            },
            NaluOverlay::Hidden => {
                match code {
                    Key::Char('q') => self.done = Some(String::new()),
                    Key::Char('h') => self.overlay = NaluOverlay::HelpPrompt,
                    Key::Char('p') => self.overlay = NaluOverlay::Palette,
                    Key::Char('r') => {
                        self.overlay = NaluOverlay::Loading;
                        self.progress = (0, 0);
                        outcome = NaluKeyOutcome::Reload;
                    },
                    Key::Char('s') => outcome = NaluKeyOutcome::SaveConfig,
                    _ => outcome = NaluKeyOutcome::Pass,
                }
            },
        }
        outcome
    }

    /// The file with the waveform.
    pub fn get_vcd_path(&self) -> (r: &String)
        ensures
            r@ == self@.vcd_path,
    {
        &self.vcd_path
    }

    /// The configuration script, if one was given.
    pub fn get_python_path(&self) -> (r: Option<String>)
        ensures
            opt_string_view(r) == self@.python_path,
    {
        clone_opt_string(&self.python_path)
    }

    /// Loading has come to `index` of `total` steps.
    pub fn set_progress(&mut self, index: usize, total: usize)
        ensures
            final(self)@ == (NaluStateView { progress: (index, total), ..old(self)@ }),
    {
        self.progress = (index, total);
    }

    /// Loading failed: the viewer quits with `message`.
    pub fn fail(&mut self, message: String)
        ensures
            final(self)@ == (NaluStateView { done: Some(message@), ..old(self)@ }),
    {
        self.done = Some(message);
    }

    /// Loading succeeded, with the given timescale if the file has one:
    /// the overlay goes away. Returns whether the configuration is to be
    /// loaded by force (only after the first load) and the timescale, 0
    /// where the file gives none.
    pub fn handle_loaded(&mut self, timescale: Option<i32>) -> (r: (bool, i32))
        ensures
            r.0 == old(self)@.initial_load,
            r.1 == match timescale {
                Some(t) => t,
                None => 0,
            },
            final(self)@ == (NaluStateView {
                overlay: NaluOverlay::Hidden,
                initial_load: false,
                ..old(self)@
            }),
    {
        self.overlay = NaluOverlay::Hidden;
        let timescale = match timescale {
            Some(timescale) => timescale,
            None => 0,
        };
        let force = self.initial_load;
        self.initial_load = false;
        (force, timescale)
    }

    pub fn get_overlay(&self) -> (r: &NaluOverlay)
        ensures
            *r == self@.overlay,
    {
        &self.overlay
    }

    /// The step loading has come to, and the number of steps.
    pub fn get_progress(&self) -> (r: (usize, usize))
        ensures
            r == self@.progress,
    {
        self.progress
    }

    /// How far loading has come, in whole percent (0 before it knows the
    /// total).
    pub fn get_percent(&self) -> (r: usize)
        requires
            self@.progress.1 != 0 ==> self@.progress.0 * 100 <= usize::MAX,
        ensures
            r == (if self@.progress.1 == 0 {
                0
            } else {
                (self@.progress.0 * 100) / (self@.progress.1 as int)
            }),
    {
        let (current, total) = self.progress;
        if total == 0 {
            0
        } else {
            current * 100 / total
        }
    }

    pub fn get_palette(&self) -> (r: String)
        ensures
            r@ == self@.palette_input,
    {
        self.palette_input.clone()
    }

    /// The message to quit with, once the viewer is to quit.
    pub fn get_done(&self) -> (r: Option<String>)
        ensures
            opt_string_view(r) == self@.done,
    {
        clone_opt_string(&self.done)
    }
}

} // verus!
