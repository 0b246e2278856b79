//! The main window's decisions: which tab a number key selects, when a
//! key quits or toggles playback, what a panel's answer asks the window to
//! do, how a completion notification advances the queue, and how a
//! duration is shown.  The event loop, the terminal and the drawing stay
//! outside; they perform what these functions decide.

use vstd::prelude::*;

use crate::keys::Key;
use crate::keys::KeyEvent;
use crate::keys::KeyKind;
use crate::paths::TrackPath;
use crate::playback::PlaybackState;
use crate::playlist::Playlist;
use crate::playlist::advancedCursor;
use crate::playlist::advancedEntry;

verus! {

/// The window's tabs.
#[derive(Clone, Copy, Debug)]
pub enum Tab {
    LibraryTree,
    Options,
    Playlists,
}

impl Tab {
    /// The position of the tab's title in the header row.
    pub fn value(self) -> (r: usize)
        ensures
            self is LibraryTree ==> r == 0,
            self is Options ==> r == 3,
            self is Playlists ==> r == 4,
    {
        match self {
            Tab::LibraryTree => 0,
            Tab::Options => 3,
            Tab::Playlists => 4,
        }
    }
}

/// What a panel asks the window to do with a track.
#[derive(Debug)]
pub enum Operation {
    /// Nothing needs doing.
    Nothing,
    /// Play this track, replacing the now-playing queue.
    Play(TrackPath),
    /// Play this track from within the now-playing queue.
    PlayNext(TrackPath),
    /// Add this track to the now-playing queue.
    Playlist(TrackPath),
}

impl Operation {
    /// Queue the track if there is one; otherwise nothing needs doing.
    pub fn playlist(song: Option<TrackPath>) -> (r: Operation)
        ensures
            match song {
                Option::Some(s) => r matches Operation::Playlist(p) && p == s,
                Option::None => r is Nothing,
            },
    {
        match song {
            Some(song) => Operation::Playlist(song),
            None => Operation::Nothing,
        }
    }
}

/// What a key press means to the window itself, before the active tab is
/// asked.
#[derive(Clone, Copy, Debug)]
pub enum WindowCommand {
    /// Leave the program.
    Quit,
    /// Pause or resume whatever is playing.
    TogglePlayback,
    /// Make this tab the active one.
    SwitchTab(Tab),
    /// Nothing for the window; the active tab may still answer it.
    Defer,
}

/// What a key press means to the window.
pub open spec fn windowKeyCommandSpec(key: KeyEvent) -> WindowCommand {
    if key.kind is Press {
        match key.code {
            Key::Char(c) => if c == 'q' || c == 'Q' {
                WindowCommand::Quit
            } else if c == ' ' {
                WindowCommand::TogglePlayback
            } else if c == '1' {
                WindowCommand::SwitchTab(Tab::LibraryTree)
            } else if c == '4' {
                WindowCommand::SwitchTab(Tab::Options)
            } else if c == '5' {
                WindowCommand::SwitchTab(Tab::Playlists)
            } else {
                WindowCommand::Defer
            },
            _ => WindowCommand::Defer,
        }
    } else {
        WindowCommand::Defer
    }
}

/// Decide what a key press means to the window itself: `q` quits, space
/// toggles playback, the tab numbers switch tabs, anything else is left
/// to the active tab.
pub fn windowKeyCommand(key: &KeyEvent) -> (r: WindowCommand)
    ensures
        r == windowKeyCommandSpec(*key),
{
    match key.kind {
        KeyKind::Press => match key.code {
            Key::Char(c) => {
                if c == 'q' || c == 'Q' {
                    WindowCommand::Quit
                } else if c == ' ' {
                    WindowCommand::TogglePlayback
                } else if c == '1' {
                    WindowCommand::SwitchTab(Tab::LibraryTree)
                } else if c == '4' {
                    WindowCommand::SwitchTab(Tab::Options)
                } else if c == '5' {
                    WindowCommand::SwitchTab(Tab::Playlists)
                } else {
                    WindowCommand::Defer
                }
            },
            _ => WindowCommand::Defer,
        },
        _ => WindowCommand::Defer,
    }
}

/// What toggling playback amounts to, given the current state.
#[derive(Debug)]
pub enum ToggleAction {
    /// Ask the playing track to pause.
    RequestPause,
    /// Ask the current track to play (again).
    RequestPlay,
    /// A completed track is left alone.
    Ignore,
    /// The state cannot be read; show this message.
    ReportError(String),
}

/// Decide what the space key does to the current track: pause it while it
/// plays, start it while it is paused, stopped or not yet started, leave a
/// completed one alone, and surface an unreadable state as an error.
pub fn togglePlaybackAction(state: &PlaybackState) -> (r: ToggleAction)
    ensures
        state is Playing ==> r is RequestPause,
        state is Paused || state is Stopped || state is NotStarted ==> r is RequestPlay,
        state is Complete ==> r is Ignore,
        state matches PlaybackState::Unknown(m) ==> (r matches ToggleAction::ReportError(e) && e@
            == m@),
{
    match state {
        PlaybackState::Playing => ToggleAction::RequestPause,
        PlaybackState::Paused => ToggleAction::RequestPlay,
        PlaybackState::Stopped => ToggleAction::RequestPlay,
        PlaybackState::NotStarted => ToggleAction::RequestPlay,
        PlaybackState::Complete => ToggleAction::Ignore,
        PlaybackState::Unknown(m) => ToggleAction::ReportError(m.clone()),
    }
}

/// What a completion notification asks the window to do next.
#[derive(Debug)]
pub enum CompletionAction {
    /// Start playing this queued track.
    StartNext(TrackPath),
    /// The queue is exhausted; nothing is playing any more.
    ClearCurrent,
    /// The notification asks for nothing.
    Ignore,
}

/// Handle a playback notification: a natural completion advances the
/// now-playing queue and asks for the next entry to be started, or for the
/// current track to be cleared when the queue is exhausted; any other
/// notification asks for nothing and leaves the queue alone.
pub fn handlePlaybackNotification(nowPlaying: &mut Playlist, notification: &PlaybackState) -> (r:
    CompletionAction)
    ensures
        final(nowPlaying).entriesSpec() == old(nowPlaying).entriesSpec(),
        final(nowPlaying).nameSpec() == old(nowPlaying).nameSpec(),
        notification is Complete ==> {
            &&& final(nowPlaying).cursorSpec() == advancedCursor(
                old(nowPlaying).entriesSpec().len(),
                old(nowPlaying).cursorSpec(),
            )
            &&& match advancedEntry(old(nowPlaying).entriesSpec(), old(nowPlaying).cursorSpec()) {
                Option::Some(p) => r matches CompletionAction::StartNext(t) && t@ == p,
                Option::None => r is ClearCurrent,
            }
        },
        !(notification is Complete) ==> final(nowPlaying).cursorSpec() == old(
            nowPlaying,
        ).cursorSpec() && r is Ignore,
{
    match notification {
        PlaybackState::Complete => {
            match nowPlaying.next() {
                Some(fileName) => CompletionAction::StartNext(fileName),
                None => CompletionAction::ClearCurrent,
            }
        },
        _ => CompletionAction::Ignore,
    }
}

/// One decimal digit.
pub open spec fn digitChar(d: int) -> char {
    if d == 0 {
        '0'
    } else if d == 1 {
        '1'
    } else if d == 2 {
        '2'
    } else if d == 3 {
        '3'
    } else if d == 4 {
        '4'
    } else if d == 5 {
        '5'
    } else if d == 6 {
        '6'
    } else if d == 7 {
        '7'
    } else if d == 8 {
        '8'
    } else {
        '9'
    }
}

/// `n` written in decimal.
pub open spec fn decimalDigits(n: nat) -> Seq<char>
    decreases n,
{
    if n < 10 {
        seq![digitChar(n as int)]
    } else {
        decimalDigits(n / 10) + seq![digitChar((n % 10) as int)]
    }
}

/// Minutes, space-padded to two columns.
pub open spec fn paddedMinutes(m: nat) -> Seq<char> {
    if m < 10 {
        seq![' '] + decimalDigits(m)
    } else {
        decimalDigits(m)
    }
}

/// Seconds, zero-padded to two digits.
pub open spec fn paddedSeconds(s: nat) -> Seq<char> {
    if s < 10 {
        seq!['0'] + decimalDigits(s)
    } else {
        decimalDigits(s)
    }
}

/// How a duration is shown: `--:--` for none at all, otherwise minutes
/// and seconds.
pub open spec fn durationTextSpec(seconds: nat) -> Seq<char> {
    if seconds == 0 {
        seq!['-', '-', ':', '-', '-']
    } else {
        paddedMinutes(seconds / 60) + seq![':'] + paddedSeconds(seconds % 60)
    }
}

/// One decimal digit's text.
fn digitStr(d: u64) -> (r: &'static str)
    requires
        d < 10,
    ensures
        r@ == seq![digitChar(d as int)],
{
    proof {
        reveal_strlit("0");
        reveal_strlit("1");
        reveal_strlit("2");
        reveal_strlit("3");
        reveal_strlit("4");
        reveal_strlit("5");
        reveal_strlit("6");
        reveal_strlit("7");
        reveal_strlit("8");
        reveal_strlit("9");
    }
    match d {
        0 => "0",
        1 => "1",
        2 => "2",
        3 => "3",
        4 => "4",
        5 => "5",
        6 => "6",
        7 => "7",
        8 => "8",
        _ => "9",
    }
}

/// `n` written in decimal.
fn decimalString(n: u64) -> (r: String)
    ensures
        r@ == decimalDigits(n as nat),
    decreases n,
{
    if n < 10 {
        digitStr(n).to_owned()
    } else {
        let mut s = decimalString(n / 10);
        s.append(digitStr(n % 10));
        s
    }
}

/// Show a duration of `seconds` as minutes and seconds, `--:--` when it
/// is zero (unknown).
pub fn durationAsString(seconds: u64) -> (r: String)
    ensures
        r@ == durationTextSpec(seconds as nat),
{
    if seconds == 0 {
        proof {
            reveal_strlit("--:--");
            assert("--:--"@ =~= seq!['-', '-', ':', '-', '-']);
        }
        return "--:--".to_owned();
    }
    let minutes = seconds / 60;
    let secs = seconds % 60;
    let mut out = String::new();
    if minutes < 10 {
        out.append(" ");
        proof {
            reveal_strlit(" ");
        }
    }
    out.append(decimalString(minutes).as_str());
    out.append(":");
    proof {
        reveal_strlit(":");
    }
    if secs < 10 {
        out.append("0");
        proof {
            reveal_strlit("0");
        }
    }
    out.append(decimalString(secs).as_str());
    proof {
        assert(out@ =~= durationTextSpec(seconds as nat));
    }
    out
}

} // verus!
