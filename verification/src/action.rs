//! Editor actions, as produced by key maps.

use crate::buffer::BufferId;
use crate::pane_tree::Orientation;
use vstd::prelude::*;

verus! {

#[derive(Clone, Copy, Debug, PartialEq, Eq, Structural)]
pub enum Direction {
    Dec,
    Inc,
}

#[derive(Clone, Copy, Debug, PartialEq, Eq, Structural)]
pub enum Boundary {
    Grapheme,
    LineEnd,
    BufferEnd,
}

#[derive(Clone, Copy, Debug, PartialEq, Eq, Structural)]
pub enum Move {
    Boundary(Boundary),
    Line,
    Page,
}

#[derive(Debug, PartialEq, Eq)]
pub enum Action {
    /// Insert text for a key press, e.g. pressing the 'a' key inserts
    /// an 'a' character into the active buffer.
    Insert(char),
    /// Insert a new line after the cursor. The cursor position is left
    /// unchanged.
    InsertLineAfter,
    Exit,
    OpenFile,
    SaveFile,
    PreviousPane,
    NextPane,
    SplitPane(Orientation),
    ClosePane,
    Confirm,
    OpenShell,
    InteractiveSearch,
    SearchNext,
    Undo,
    Redo,
    /// Delete text in the active pane.
    Delete(Boundary, Direction),
    /// Delete the buffer in the active pane.
    DeleteBuffer,
    /// Move the cursor in the active pane.
    Move(Move, Direction),
    /// Interactively switch to a different buffer.
    SwitchToBuffer,
    /// Cancel the current operation, e.g. opening a file.
    Cancel,
    /// Try to autocomplete something, e.g. a file path.
    Autocomplete,
    RunNonInteractiveProcess,
    AppendToBuffer(BufferId, String),
}

impl Clone for Action {
    fn clone(&self) -> (res: Self)
        ensures
            res == *self,
    {
        match self {
            Action::Insert(c) => Action::Insert(*c),
            Action::InsertLineAfter => Action::InsertLineAfter,
            Action::Exit => Action::Exit,
            Action::OpenFile => Action::OpenFile,
            Action::SaveFile => Action::SaveFile,
            Action::PreviousPane => Action::PreviousPane,
            Action::NextPane => Action::NextPane,
            Action::SplitPane(o) => Action::SplitPane(*o),
            Action::ClosePane => Action::ClosePane,
            Action::Confirm => Action::Confirm,
            Action::OpenShell => Action::OpenShell,
            Action::InteractiveSearch => Action::InteractiveSearch,
            Action::SearchNext => Action::SearchNext,
            Action::Undo => Action::Undo,
            Action::Redo => Action::Redo,
            Action::Delete(b, d) => Action::Delete(*b, *d),
            Action::DeleteBuffer => Action::DeleteBuffer,
            Action::Move(m, d) => Action::Move(*m, *d),
            Action::SwitchToBuffer => Action::SwitchToBuffer,
            Action::Cancel => Action::Cancel,
            Action::Autocomplete => Action::Autocomplete,
            Action::RunNonInteractiveProcess => Action::RunNonInteractiveProcess,
            Action::AppendToBuffer(id, s) => Action::AppendToBuffer(id.clone(), s.clone()),
        }
    }
}

} // verus!
