//! The playlists panel: the now-playing queue, the user's saved
//! playlists, and the panel's decisions — how keys move its focus and
//! when a selection becomes the next track to play.  The list scroll
//! state and the drawing live with the surrounding program.

use vstd::prelude::*;

use crate::keys::Key;
use crate::keys::KeyEvent;
use crate::keys::KeyKind;
use crate::paths::TrackPath;
use crate::playlist::Playlist;
use crate::window::Operation;

verus! {

/// Which of the panel's two lists holds the focus.
#[derive(Clone, Copy, Debug)]
pub enum PanelSide {
    Playlists,
    PlaylistContents,
}

/// What a key asks the playlists panel to do.
#[derive(Clone, Copy, Debug)]
pub enum PanelAction {
    /// Focus the playlist list.
    MoveLeft,
    /// Focus the contents list.
    MoveRight,
    /// Move the selection up one entry.
    MoveUp,
    /// Move the selection down one entry.
    MoveDown,
    /// Act on the selection.
    Select,
    /// Nothing.
    Ignore,
}

/// What a key asks the playlists panel to do.
pub open spec fn playlistsKeyActionSpec(key: KeyEvent) -> PanelAction {
    if key.kind is Press || key.kind is Repeat {
        match key.code {
            Key::Left => PanelAction::MoveLeft,
            Key::Right => PanelAction::MoveRight,
            Key::Up => PanelAction::MoveUp,
            Key::Down => PanelAction::MoveDown,
            Key::Enter => PanelAction::Select,
            _ => PanelAction::Ignore,
        }
    } else {
        PanelAction::Ignore
    }
}

/// Decide what a key does in the playlists panel.
pub fn playlistsKeyAction(key: &KeyEvent) -> (r: PanelAction)
    ensures
        r == playlistsKeyActionSpec(*key),
{
    let relevant = match key.kind {
        KeyKind::Press => true,
        KeyKind::Repeat => true,
        KeyKind::Release => false,
    };
    if !relevant {
        return PanelAction::Ignore;
    }
    match key.code {
        Key::Left => PanelAction::MoveLeft,
        Key::Right => PanelAction::MoveRight,
        Key::Up => PanelAction::MoveUp,
        Key::Down => PanelAction::MoveDown,
        Key::Enter => PanelAction::Select,
        _ => PanelAction::Ignore,
    }
}

/// The playlists panel's lists: the now-playing queue and the user's
/// saved playlists.
pub struct Playlists {
    /// The now-playing queue.
    pub nowPlaying: Playlist,
    /// The user's saved playlists.
    pub playlists: Vec<Playlist>,
}

impl Playlists {
    /// A fresh panel: an empty now-playing queue and no saved playlists.
    pub fn new() -> (r: Playlists)
        ensures
            r.nowPlaying.nameSpec() == "Now Playing"@,
            r.nowPlaying.entriesSpec() =~= Seq::<Seq<Seq<char>>>::empty(),
            r.nowPlaying.cursorSpec() is None,
            r.playlists@.len() == 0,
    {
        Playlists { nowPlaying: Playlist::new("Now Playing".to_owned()), playlists: Vec::new() }
    }

    /// Act on a selection: with the contents list focused and an entry
    /// selected, that entry becomes the current one and is asked to play
    /// next; everything else asks for nothing.
    pub fn makeSelection(&mut self, side: PanelSide, selected: Option<usize>) -> (r: Operation)
        requires
            match selected {
                Option::Some(i) => side is PlaylistContents ==> (i as nat) < old(
                    self,
                ).nowPlaying.entriesSpec().len(),
                Option::None => true,
            },
        ensures
            final(self).playlists == old(self).playlists,
            final(self).nowPlaying.entriesSpec() == old(self).nowPlaying.entriesSpec(),
            final(self).nowPlaying.nameSpec() == old(self).nowPlaying.nameSpec(),
            match (side, selected) {
                (PanelSide::PlaylistContents, Option::Some(i)) => {
                    &&& final(self).nowPlaying.cursorSpec() == Option::Some(i)
                    &&& r matches Operation::PlayNext(p) && p@ == old(
                        self,
                    ).nowPlaying.entriesSpec()[i as int]
                },
                _ => {
                    &&& final(self).nowPlaying.cursorSpec() == old(self).nowPlaying.cursorSpec()
                    &&& r is Nothing
                },
            },
    {
        match side {
            PanelSide::Playlists => Operation::Nothing,
            PanelSide::PlaylistContents => {
                match selected {
                    Some(index) => {
                        let fileName = self.nowPlaying.entry(index).duplicate();
                        self.nowPlaying.nextEntry(index);
                        Operation::PlayNext(fileName)
                    },
                    None => Operation::Nothing,
                }
            },
        }
    }
}

} // verus!
