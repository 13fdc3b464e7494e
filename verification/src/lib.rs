pub mod component;
pub mod input;
pub mod logging;
pub mod python;
pub mod resize;
pub mod state;
pub mod text;
pub mod tui_layout;
pub mod view;
pub mod widgets;

