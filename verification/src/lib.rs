//! The state and rules of an interactive tool for resolving file conflicts.

pub mod conflict;
pub mod files;
pub mod hunk_display;
pub mod hunk_keys;
pub mod hunk_laws;
pub mod hunk_model;
pub mod hunk_records;
pub mod hunk_viewer;
pub mod labels;
pub mod merge;
pub mod screen;
pub mod scroll;
pub mod selection;
pub mod selection_laws;
pub mod simplification;
pub mod term_laws;
pub mod term_viewer;
pub mod text;

pub use conflict::{Conflict, FileConflict, KeyCode, KeyEvent, SelectToolResult, TreeValue};
pub use files::{FileMergeHunkLevel, MergeOptions, SameChange};
pub use hunk_viewer::{HunkConflictResolution, HunkConflictViewerState};
pub use labels::ConflictLabels;
pub use merge::Merge;
pub use scroll::ScrollDirection;
pub use selection::HunkSelection;
pub use term_viewer::{
    label_with_file_type, simplify_conflict, LoadedTerm, TermConflictResolution,
    TermConflictViewerState,
};
