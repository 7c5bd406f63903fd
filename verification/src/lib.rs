//! Core editing logic of the emma text editor: keys and key
//! sequences, key maps, the text rope, buffers with undo history and
//! search, the tree of panes, the editor state that carries out actions,
//! style spans from syntax highlighting, the colors of themes, and the
//! splitting of command lines.

pub mod key;
pub mod rope;
pub mod offset;
pub mod util;
pub mod action;
pub mod buffer;
pub mod pane_tree;
pub mod key_sequence;
pub mod key_map;
pub mod grapheme;
pub mod assoc;
pub mod state;
pub mod style;
pub mod comm;
pub mod minibuf;
pub mod shell;
pub mod overlay;
pub mod text_editor;
pub mod theme;
pub mod highlight;
pub mod command_line;
