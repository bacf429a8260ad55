//! The conflicts that are shown, and what comes of showing them.

use crate::labels::ConflictLabels;
use crate::merge::{Merge, Term};
use vstd::prelude::*;

verus! {

/// The value of a path in a tree.
#[derive(Debug, PartialEq, Eq)]
pub enum TreeValue {
    /// A file.
    File {
        /// The id of the contents.
        id: Vec<u8>,
        /// Whether the file can be executed.
        executable: bool,
        /// The id of the copy that the file is.
        copy_id: Vec<u8>,
    },
    /// A symbolic link, by the id of its target.
    Symlink(Vec<u8>),
    /// A directory, by its id.
    Tree(Vec<u8>),
    /// A commit of another repository, by its id.
    GitSubmodule(Vec<u8>),
}

/// What a [`TreeValue`] stands for.
pub enum TreeValueView {
    File { id: Seq<u8>, executable: bool, copy_id: Seq<u8> },
    Symlink(Seq<u8>),
    Tree(Seq<u8>),
    GitSubmodule(Seq<u8>),
}

impl Term for TreeValue {
    type Model = TreeValueView;

    open spec fn model(&self) -> TreeValueView {
        match self {
            TreeValue::File { id, executable, copy_id } => TreeValueView::File {
                id: id@,
                executable: *executable,
                copy_id: copy_id@,
            },
            TreeValue::Symlink(id) => TreeValueView::Symlink(id@),
            TreeValue::Tree(id) => TreeValueView::Tree(id@),
            TreeValue::GitSubmodule(id) => TreeValueView::GitSubmodule(id@),
        }
    }

    fn same(&self, other: &Self) -> (same: bool) {
        match (self, other) {
            (
                TreeValue::File { id: id1, executable: executable1, copy_id: copy_id1 },
                TreeValue::File { id: id2, executable: executable2, copy_id: copy_id2 },
            ) => id1.same(id2) && *executable1 == *executable2 && copy_id1.same(copy_id2),
            (TreeValue::Symlink(id1), TreeValue::Symlink(id2)) => id1.same(id2),
            (TreeValue::Tree(id1), TreeValue::Tree(id2)) => id1.same(id2),
            (TreeValue::GitSubmodule(id1), TreeValue::GitSubmodule(id2)) => id1.same(id2),
            _ => false,
        }
    }

    fn copy(&self) -> (copy: Self) {
        match self {
            TreeValue::File { id, executable, copy_id } => TreeValue::File {
                id: id.copy(),
                executable: *executable,
                copy_id: copy_id.copy(),
            },
            TreeValue::Symlink(id) => TreeValue::Symlink(id.copy()),
            TreeValue::Tree(id) => TreeValue::Tree(id.copy()),
            TreeValue::GitSubmodule(id) => TreeValue::GitSubmodule(id.copy()),
        }
    }
}

/// A conflict at a path.
#[derive(Debug)]
pub struct Conflict {
    /// The name of the file to show.
    pub file_name: String,
    /// The values of the path on all sides and bases of the merge.
    pub unsimplified_conflict: Merge<Option<TreeValue>>,
}

/// A conflict of file contents.
#[derive(Debug)]
pub struct FileConflict {
    /// The ids of the files on all sides and bases of the merge.
    pub unsimplified_ids: Merge<Option<Vec<u8>>>,
    /// The contents of the files that differ.
    pub contents: Merge<Vec<u8>>,
    /// Labels for the contents.
    pub labels: ConflictLabels,
    /// Whether the merged file can be executed, if that is not in conflict.
    pub executable: Option<bool>,
    /// The copy that the merged file is, if that is not in conflict.
    pub copy_id: Option<Vec<u8>>,
}

/// What a [`FileConflict`] stands for.
pub struct FileConflictView {
    pub unsimplified_ids: Seq<Option<Seq<u8>>>,
    pub contents: Seq<Seq<u8>>,
    pub labels: Seq<Seq<char>>,
    pub executable: Option<bool>,
    pub copy_id: Option<Seq<u8>>,
}

impl View for FileConflict {
    type V = FileConflictView;

    open spec fn view(&self) -> FileConflictView {
        FileConflictView {
            unsimplified_ids: self.unsimplified_ids@,
            contents: self.contents@,
            labels: self.labels@,
            executable: self.executable,
            copy_id: self.copy_id.model(),
        }
    }
}

impl FileConflict {
    /// Whether the terms can alternate.
    pub open spec fn wf(self) -> bool {
        self.unsimplified_ids.wf() && self.contents.wf()
    }
}

/// What the viewer asks of the program around it.
#[derive(Debug)]
pub enum SelectToolResult {
    /// Let the user edit the contents of a conflict.
    EditConflict {
        /// The name of the file to show.
        file_name: String,
        /// The contents as they are resolved so far.
        contents: Merge<Vec<u8>>,
        /// Labels for the contents.
        labels: ConflictLabels,
    },
}

/// A key on the keyboard.
#[derive(Copy, Clone, Debug, PartialEq, Eq, Structural)]
pub enum KeyCode {
    /// The arrow up.
    Up,
    /// The arrow down.
    Down,
    /// The arrow to the left.
    Left,
    /// The arrow to the right.
    Right,
    /// The enter key.
    Enter,
    /// The backspace key.
    Backspace,
    /// The delete key.
    Delete,
    /// A key that types a character.
    Char(char),
    /// Any other key.
    Other,
}

/// A key that is pressed, and the keys held with it.
#[derive(Copy, Clone, Debug, PartialEq, Eq, Structural)]
pub struct KeyEvent {
    /// The key that is pressed.
    pub code: KeyCode,
    /// The modifier keys that are held, one bit for each.
    pub modifiers: u8,
}

} // verus!
