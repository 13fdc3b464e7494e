pub mod list;
pub mod pos;
