//! A text buffer and editing core for a text editor: characters are laid out
//! in lines and addressed by their visual column, which takes the display
//! width of each character into account.

pub mod action;
pub mod base_editor;
pub mod command_laws;
pub mod editor;
pub mod editor_web;
pub mod history;
pub mod laws;
pub mod options;
pub mod point;
pub mod text;
pub mod text_buffer;
pub mod text_edit;
pub mod util;
pub mod web_editor;
pub mod width;

pub use action::Action;
pub use base_editor::{BaseEditor, Callback};
pub use editor::Editor;
pub use history::Recorded;
pub use options::{BaseOptions, Options};
pub use point::Point2;
pub use text_buffer::TextBuffer;
pub use text_edit::{Selection, SelectionMode, TextEdit};
pub use width::{Ch, BLANK_CH};
