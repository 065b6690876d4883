//! The incremental view rendering engine of a terminal front-end for a
//! remote text-editing engine: a line buffer rebuilt by replaying diff
//! operations, a style registry with an overlap-resolving range resolver, a
//! viewport controller that keeps the cursor visible, a renderer that
//! repaints only the rows that need it, and the modal keybinding tables.

pub mod chars;
pub mod devices;
pub mod gutter;
pub mod input_controller;
pub mod keyboard;
pub mod keymap;
pub mod resolver;
pub mod status_bar;
pub mod style;
pub mod view;
pub mod window;
