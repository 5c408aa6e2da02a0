//! Document synchronization engine of a browser-based code editor: text
//! buffers with grouped undo/redo, position mapping between character and
//! UTF-16 coordinates, and a registry with one document per canonical path.

pub mod error;
pub mod config;
pub mod language;
pub mod utils;
pub mod strings;
pub mod text;
pub mod rope;
pub mod history;
pub mod code;
pub mod registry;
pub mod io_handler;
pub mod search;
pub mod terminal_handler;
pub mod assets;
pub mod watcher;
