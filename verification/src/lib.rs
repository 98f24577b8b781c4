//! A file-backed kanban workspace manager.
//!
//! A workspace is a directory tree holding a board (columns as directories,
//! cards as frontmatter-annotated markdown files) and a freeform notes file.
//! The library models paths and file contents as plain strings: callers read
//! the filesystem and hand its contents in, and apply the file operations the
//! library decides on.

use vstd::prelude::*;

pub mod args;
pub mod board;
pub mod card;
pub mod config;
pub mod kv;
pub mod laws;
pub mod locator;
pub mod notes;
pub mod paths;
pub mod text;
pub mod time;
pub mod utils;
pub mod workspace;

verus! {

/// The failures the library and its callers report.
#[derive(Debug)]
pub enum KanbanError {
    /// No ancestor of the working directory holds the board marker directory.
    WorkspaceNotFound,
    /// The board configuration file is absent.
    ConfigNotFound,
    /// The board configuration file is malformed.
    ConfigParseError,
    /// A card file has no well-formed frontmatter block.
    CardParseError,
    /// An edited card document has no extractable heading.
    NoHeadline,
    /// Neither `VISUAL` nor `EDITOR` names an editor.
    EditorNotConfigured,
    /// The editor sub-process exited with a non-zero status.
    EditorFailed,
    /// A column has no resolved directory path.
    NoColumnPath,
    /// Rewriting or renaming a card file failed; the reason is the I/O error text.
    MoveFailed(String),
    /// A workspace can only be initialized under the workspace parent directory.
    InitFailed,
}

/// The text `describe` renders for each failure.
pub open spec fn describe_text(e: &KanbanError) -> Seq<char> {
    match e {
        KanbanError::WorkspaceNotFound => "no workspace found"@,
        KanbanError::ConfigNotFound => "board configuration not found"@,
        KanbanError::ConfigParseError => "board configuration is malformed"@,
        KanbanError::CardParseError => "card file is malformed"@,
        KanbanError::NoHeadline => "no headline found in card"@,
        KanbanError::EditorNotConfigured => "no editor set; set $VISUAL or $EDITOR"@,
        KanbanError::EditorFailed => "editor exited with non-zero status code"@,
        KanbanError::NoColumnPath => "no path for column"@,
        KanbanError::InitFailed => "cannot initialize a workspace here"@,
        KanbanError::MoveFailed(reason) => "failed to move card: "@ + reason@,
    }
}

impl KanbanError {
    /// A short description for user-facing messages.
    pub fn describe(&self) -> (r: String)
        ensures
            r@ == describe_text(self),
    {
        match self {
            KanbanError::WorkspaceNotFound => String::from_str("no workspace found"),
            KanbanError::ConfigNotFound => String::from_str("board configuration not found"),
            KanbanError::ConfigParseError => String::from_str("board configuration is malformed"),
            KanbanError::CardParseError => String::from_str("card file is malformed"),
            KanbanError::NoHeadline => String::from_str("no headline found in card"),
            KanbanError::EditorNotConfigured => String::from_str("no editor set; set $VISUAL or $EDITOR"),
            KanbanError::EditorFailed => String::from_str("editor exited with non-zero status code"),
            KanbanError::NoColumnPath => String::from_str("no path for column"),
            KanbanError::InitFailed => String::from_str("cannot initialize a workspace here"),
            KanbanError::MoveFailed(reason) => {
                let mut s = String::from_str("failed to move card: ");
                s.append(reason.as_str());
                s
            },
        }
    }
}

} // verus!
