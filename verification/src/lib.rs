//! The state and rules of a file tree side panel.

pub mod draw;
pub mod input;
pub mod laws;
pub mod listing;
pub mod model;
pub mod panel;
pub mod path;
pub mod tree;

pub use draw::{Draw, Style};
pub use input::{
    EventResult, KeyCode, KeyEvent, KeyModifiers, MouseButton, MouseEvent, MouseEventKind, Rect,
};
pub use listing::{is_listing, DirEntry};
pub use model::Request;
pub use panel::FileTreePanel;
pub use path::{Component, Name, TreePath};
