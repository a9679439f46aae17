//! A file-versioning engine: line-level deltas, per-file histories with an
//! undo/redo cursor, windowed views of snapshots, and the rules that decide
//! which filesystem events reach the history.
//!
//! - `delta`, `diff`: recorded line changes and how the changes of a file
//!   against its history are found.
//! - `store`, `materialize`, `view`: per-file histories, the content a file
//!   takes at a cursor, and what a viewer is shown.
//! - `exclude`, `handler`: which paths are tracked and what each event does.
//! - `ui_state`, `diff_track`: dashboard state and a textual diff listing.

pub mod clock;
pub mod delta;
pub mod diff;
pub mod diff_track;
pub mod exclude;
pub mod handler;
pub mod materialize;
pub mod sorting;
pub mod store;
pub mod text;
pub mod timeframe;
pub mod ui_state;
pub mod view;
