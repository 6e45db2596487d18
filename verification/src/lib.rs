//! Verified core of a non-linear video editor: rational time arithmetic,
//! the project model and its editing operations, undo history, and the
//! compilation of a project into an editing graph.
pub mod cache;
pub mod compiler;
pub mod config;
pub mod diagnostics;
pub mod dirs;
pub mod error;
pub mod export;
pub mod graph;
pub mod hardware;
pub mod history;
pub mod import;
pub mod media;
pub mod operations;
pub mod playback;
pub mod schema;
pub mod shortcuts;
pub mod text;
pub mod thumbnail;
pub mod time;
pub mod timeline;
