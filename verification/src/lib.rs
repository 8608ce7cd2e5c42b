//! Pure state transitions behind the interactive widgets of a declarative
//! widget tree: lookups by key, in-place mutations of a widget's data,
//! caret editing of a text input, and parent lookup in a flattened tree.

pub mod widget;
pub mod widget_tree;
pub mod tree_laws;
pub mod tree_nodes;
pub mod text;
pub mod text_input;
pub mod caret_laws;
pub mod char_steps;
