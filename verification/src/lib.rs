//! Core logic of a small text editor: documents, their encodings and line
//! endings, find and replace, settings, the manager of open documents, its
//! autosave snapshot, and what the file watcher decides.
//!
//! Reading and writing files is left to the caller: the library is handed
//! what was read (bytes, file metadata, the outcome of a write) and says
//! what to write.

pub mod text;
pub mod encoding;
pub mod platform;
pub mod document;
pub mod search;
pub mod find;
pub mod settings;
pub mod autosave;
pub mod watch;
pub mod manager;
pub mod ui;
pub mod welcome;

pub use autosave::{autosave_path_for, AutosaveDocument, AutosaveSnapshot};
pub use document::{DiskFingerprint, DiskObservation, Document, DocumentError, DocumentResult, DocumentSummary};
pub use encoding::{LineEnding, TextEncoding};
pub use find::{FindMatch, FindSnapshot};
pub use manager::{DocumentManager, OpenStart, DEFAULT_MRU_LIMIT, MAX_FILE_SIZE_BYTES};
pub use search::{CompiledFind, FindOptions, MatchSpan};
pub use settings::{
    EditorSettings, FindDefaults, IndentType, ManagerConfig, RecentDocument, ThemeMode, UiSettings, WindowState,
};
pub use watch::{ChangeKind, FileEvent, WatchedPaths};
pub use welcome::{default_welcome_context, WelcomeContext};
