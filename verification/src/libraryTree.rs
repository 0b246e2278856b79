//! The library tree panel's decisions: which of its two lists a key moves
//! the focus to, how the selection moves, and when a selection becomes a
//! track to play or to queue.  The list scroll state and the drawing live
//! with the surrounding program.

use vstd::prelude::*;

use crate::keys::Key;
use crate::keys::KeyEvent;
use crate::keys::KeyKind;

verus! {

/// Which of the panel's two lists holds the focus.
#[derive(Clone, Copy, Debug)]
pub enum Side {
    DirectoryTree,
    Files,
}

/// What a key asks the library tree panel to do.
#[derive(Clone, Copy, Debug)]
pub enum TreeAction {
    /// Focus the directory list.
    MoveLeft,
    /// Focus the files list.
    MoveRight,
    /// Move the selection up one entry.
    MoveUp,
    /// Move the selection down one entry.
    MoveDown,
    /// Move the selection up one page.
    MovePageUp,
    /// Move the selection down one page.
    MovePageDown,
    /// Play the selected track (or focus the files list).
    PlaySelection,
    /// Queue the selected track.
    AddSelection,
    /// Nothing.
    Ignore,
}

/// What a key asks the library tree panel to do.
pub open spec fn treeKeyActionSpec(key: KeyEvent) -> TreeAction {
    if key.kind is Press || key.kind is Repeat {
        match key.code {
            Key::Left => TreeAction::MoveLeft,
            Key::Right => TreeAction::MoveRight,
            Key::Up => TreeAction::MoveUp,
            Key::Down => TreeAction::MoveDown,
            Key::PageUp => TreeAction::MovePageUp,
            Key::PageDown => TreeAction::MovePageDown,
            Key::Enter => TreeAction::PlaySelection,
            Key::Char(c) => if c == '+' {
                TreeAction::AddSelection
            } else {
                TreeAction::Ignore
            },
            Key::Other => TreeAction::Ignore,
        }
    } else {
        TreeAction::Ignore
    }
}

/// Decide what a key does in the library tree panel: presses and repeats
/// move the focus and the selection, enter plays the selection, and `+`
/// queues it.
pub fn treeKeyAction(key: &KeyEvent) -> (r: TreeAction)
    ensures
        r == treeKeyActionSpec(*key),
{
    let relevant = match key.kind {
        KeyKind::Press => true,
        KeyKind::Repeat => true,
        KeyKind::Release => false,
    };
    if !relevant {
        return TreeAction::Ignore;
    }
    match key.code {
        Key::Left => TreeAction::MoveLeft,
        Key::Right => TreeAction::MoveRight,
        Key::Up => TreeAction::MoveUp,
        Key::Down => TreeAction::MoveDown,
        Key::PageUp => TreeAction::MovePageUp,
        Key::PageDown => TreeAction::MovePageDown,
        Key::Enter => TreeAction::PlaySelection,
        Key::Char(c) => {
            if c == '+' {
                TreeAction::AddSelection
            } else {
                TreeAction::Ignore
            }
        },
        Key::Other => TreeAction::Ignore,
    }
}

} // verus!
