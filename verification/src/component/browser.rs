pub use crate::widgets::browser::{BrowserNode, BrowserNodePath};
