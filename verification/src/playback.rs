//! The per-track playback state machine.
//!
//! A playing track is driven by one worker thread that sits inside the audio
//! engine's blocking play call while the UI thread issues pause and stop
//! requests.  All of those transitions are decided here, over a single
//! [`Song`] value; the surrounding program holds that value behind its one
//! mutex, spawns or joins the worker thread, and calls into the engine
//! exactly when a decision function says the transition took effect.  That
//! compare-and-set discipline is what keeps engine calls and completion
//! notifications from being duplicated.

use vstd::prelude::*;

use crate::paths::TrackPath;
use crate::paths::displaySpec;

verus! {

/// Where a track's playback stands.
#[derive(Debug, Clone, PartialEq, Eq)]
pub enum PlaybackState {
    NotStarted,
    Playing,
    Paused,
    Stopped,
    Complete,
    /// The state could not be read (a prior panic poisoned the lock); the
    /// message says why.
    Unknown(String),
}

/// Whether two states are the same, comparing `Unknown` messages by text.
pub open spec fn stateEquiv(a: PlaybackState, b: PlaybackState) -> bool {
    match (a, b) {
        (PlaybackState::NotStarted, PlaybackState::NotStarted) => true,
        (PlaybackState::Playing, PlaybackState::Playing) => true,
        (PlaybackState::Paused, PlaybackState::Paused) => true,
        (PlaybackState::Stopped, PlaybackState::Stopped) => true,
        (PlaybackState::Complete, PlaybackState::Complete) => true,
        (PlaybackState::Unknown(x), PlaybackState::Unknown(y)) => x@ == y@,
        _ => false,
    }
}

/// The compare-and-set at the heart of the state machine: move to `target`
/// unless already there, and say whether anything changed.
pub open spec fn switchToSpec(s: PlaybackState, target: PlaybackState) -> (PlaybackState, bool) {
    if !stateEquiv(s, target) {
        (target, true)
    } else {
        (s, false)
    }
}

/// What `play()` does to the worker flag: the flag ends up set, and a
/// worker is spawned only if none was recorded before.
pub open spec fn playSpec(workerActive: bool) -> (bool, bool) {
    (true, !workerActive)
}

/// What happens when the blocking play call returns: if the state is still
/// `Playing`, the track ended naturally, so the state becomes `Complete`
/// and exactly one completion notification is owed; otherwise a concurrent
/// pause or stop already won, the state is left as it is, and no
/// notification is sent.
pub open spec fn finishSpec(s: PlaybackState) -> (PlaybackState, bool) {
    if stateEquiv(s, PlaybackState::Playing) {
        (PlaybackState::Complete, true)
    } else {
        (s, false)
    }
}

/// Whether two states are the same, as [`stateEquiv`].
pub fn stateEq(a: &PlaybackState, b: &PlaybackState) -> (r: bool)
    ensures
        r == stateEquiv(*a, *b),
{
    match (a, b) {
        (PlaybackState::NotStarted, PlaybackState::NotStarted) => true,
        (PlaybackState::Playing, PlaybackState::Playing) => true,
        (PlaybackState::Paused, PlaybackState::Paused) => true,
        (PlaybackState::Stopped, PlaybackState::Stopped) => true,
        (PlaybackState::Complete, PlaybackState::Complete) => true,
        (PlaybackState::Unknown(x), PlaybackState::Unknown(y)) => *x == *y,
        _ => false,
    }
}

/// The text a track is described by: the title (or, failing that, the
/// file's name) followed by album and artist when known; the whole path
/// when no metadata is known at all.
pub open spec fn describeTrack(
    fileName: Seq<Seq<char>>,
    title: Option<Seq<char>>,
    album: Option<Seq<char>>,
    artist: Option<Seq<char>>,
) -> Seq<char> {
    if title is None && album is None && artist is None {
        displaySpec(fileName)
    } else {
        let base = match title {
            Option::Some(t) => t,
            Option::None => if fileName.len() > 0 {
                fileName.last()
            } else {
                displaySpec(fileName)
            },
        };
        let withAlbum = match album {
            Option::Some(a) => base + seq![' ', '-', ' '] + a,
            Option::None => base,
        };
        match artist {
            Option::Some(a) => withAlbum + seq![' ', '-', ' '] + a,
            Option::None => withAlbum,
        }
    }
}

/// One track selected for playback: its description and duration, the
/// mutex-guarded playback state, and whether a worker thread is on record.
pub struct Song {
    description: String,
    duration: Option<u64>,
    played: u64,
    workerActive: bool,
    state: PlaybackState,
}

impl Song {
    /// The description shown for this track.
    pub closed spec fn descriptionSpec(self) -> Seq<char> {
        self.description@
    }

    /// The track's length in seconds, if known.
    pub closed spec fn durationSpec(self) -> Option<u64> {
        self.duration
    }

    /// How many seconds have been played.
    pub closed spec fn playedSpec(self) -> u64 {
        self.played
    }

    /// Whether a worker thread is on record for this track.
    pub closed spec fn workerActiveSpec(self) -> bool {
        self.workerActive
    }

    /// The playback state.
    pub closed spec fn stateSpec(self) -> PlaybackState {
        self.state
    }

    /// Make a session for a freshly opened track from its metadata: a zero
    /// total time means the duration is unknown.  Playback has not started,
    /// so no worker thread is on record.
    pub fn from(
        fileName: &TrackPath,
        title: Option<String>,
        album: Option<String>,
        artist: Option<String>,
        totalTime: u64,
    ) -> (r: Song)
        ensures
            r.descriptionSpec() == describeTrack(
                fileName@,
                match title {
                    Option::Some(t) => Option::Some(t@),
                    Option::None => Option::None,
                },
                match album {
                    Option::Some(a) => Option::Some(a@),
                    Option::None => Option::None,
                },
                match artist {
                    Option::Some(a) => Option::Some(a@),
                    Option::None => Option::None,
                },
            ),
            r.durationSpec() == if totalTime != 0 {
                Option::Some(totalTime)
            } else {
                Option::<u64>::None
            },
            r.playedSpec() == 0,
            !r.workerActiveSpec(),
            r.stateSpec() == PlaybackState::NotStarted,
    {
        let description = Self::buildDescriptionFrom(fileName, title, album, artist);
        Song {
            description,
            duration: if totalTime != 0 {
                Some(totalTime)
            } else {
                None
            },
            played: 0,
            workerActive: false,
            state: PlaybackState::NotStarted,
        }
    }

    /// Build the description of a track from its path and metadata.
    fn buildDescriptionFrom(
        fileName: &TrackPath,
        title: Option<String>,
        album: Option<String>,
        artist: Option<String>,
    ) -> (r: String)
        ensures
            r@ == describeTrack(
                fileName@,
                match title {
                    Option::Some(t) => Option::Some(t@),
                    Option::None => Option::None,
                },
                match album {
                    Option::Some(a) => Option::Some(a@),
                    Option::None => Option::None,
                },
                match artist {
                    Option::Some(a) => Option::Some(a@),
                    Option::None => Option::None,
                },
            ),
    {
        if title.is_none() && album.is_none() && artist.is_none() {
            return fileName.display();
        }
        let mut description: String = match title {
            Some(t) => t,
            None => {
                match fileName.lastSegment() {
                    Some(s) => s.clone(),
                    None => fileName.display(),
                }
            },
        };
        if let Some(a) = album {
            description.append(" - ");
            description.append(a.as_str());
        }
        if let Some(a) = artist {
            description.append(" - ");
            description.append(a.as_str());
        }
        proof {
            reveal_strlit(" - ");
        }
        description
    }

    /// The description shown for this track.
    pub fn description(&self) -> (r: String)
        ensures
            r@ == self.descriptionSpec(),
    {
        self.description.clone()
    }

    /// The track's length in seconds, if known.
    pub fn songDuration(&self) -> (r: Option<u64>)
        ensures
            r == self.durationSpec(),
    {
        self.duration
    }

    /// How many seconds have been played.
    pub fn playedDuration(&self) -> (r: u64)
        ensures
            r == self.playedSpec(),
    {
        self.played
    }

    /// Record that playback is wanted.  Returns whether a worker thread
    /// must be spawned: it must only when none is on record, so a second
    /// call without an intervening pause or stop spawns nothing.
    pub fn play(&mut self) -> (spawnWorker: bool)
        ensures
            final(self).workerActiveSpec() == playSpec(old(self).workerActiveSpec()).0,
            spawnWorker == playSpec(old(self).workerActiveSpec()).1,
            final(self).stateSpec() == old(self).stateSpec(),
            final(self).descriptionSpec() == old(self).descriptionSpec(),
            final(self).durationSpec() == old(self).durationSpec(),
            final(self).playedSpec() == old(self).playedSpec(),
    {
        if self.workerActive {
            false
        } else {
            self.workerActive = true;
            true
        }
    }

    /// The compare-and-set primitive: move to `target` unless already
    /// there.  Returns whether the state actually changed; this is the only
    /// point at which the state is written, and callers act on the outside
    /// world only when it answers `true`.
    pub fn switchTo(&mut self, target: PlaybackState) -> (changed: bool)
        ensures
            final(self).stateSpec() == switchToSpec(old(self).stateSpec(), target).0,
            changed == switchToSpec(old(self).stateSpec(), target).1,
            final(self).workerActiveSpec() == old(self).workerActiveSpec(),
            final(self).descriptionSpec() == old(self).descriptionSpec(),
            final(self).durationSpec() == old(self).durationSpec(),
            final(self).playedSpec() == old(self).playedSpec(),
    {
        if !stateEq(&self.state, &target) {
            self.state = target;
            true
        } else {
            false
        }
    }

    /// The worker thread's first step: try to move into `Playing`.  The
    /// engine's blocking play call is made only when this answers `true`.
    pub fn workerBeginPlayback(&mut self) -> (proceed: bool)
        ensures
            final(self).stateSpec() == switchToSpec(
                old(self).stateSpec(),
                PlaybackState::Playing,
            ).0,
            proceed == switchToSpec(old(self).stateSpec(), PlaybackState::Playing).1,
            final(self).workerActiveSpec() == old(self).workerActiveSpec(),
            final(self).descriptionSpec() == old(self).descriptionSpec(),
            final(self).durationSpec() == old(self).durationSpec(),
            final(self).playedSpec() == old(self).playedSpec(),
    {
        self.switchTo(PlaybackState::Playing)
    }

    /// The worker thread's last step, after the blocking play call has
    /// returned.  Returns whether one completion notification must be sent:
    /// only on a natural end of track, never after a pause or stop won the
    /// transition out of `Playing`.
    pub fn workerFinishPlayback(&mut self) -> (notify: bool)
        ensures
            final(self).stateSpec() == finishSpec(old(self).stateSpec()).0,
            notify == finishSpec(old(self).stateSpec()).1,
            final(self).workerActiveSpec() == old(self).workerActiveSpec(),
            final(self).descriptionSpec() == old(self).descriptionSpec(),
            final(self).durationSpec() == old(self).durationSpec(),
            final(self).playedSpec() == old(self).playedSpec(),
    {
        if stateEq(&self.state, &PlaybackState::Playing) {
            self.state = PlaybackState::Complete;
            true
        } else {
            false
        }
    }

    /// Ask playback to pause.  Returns whether the transition took effect;
    /// only then are the engine's pause call and the worker join made.  The
    /// worker thread's handle is given up either way.
    pub fn pause(&mut self) -> (engineAction: bool)
        ensures
            final(self).stateSpec() == switchToSpec(old(self).stateSpec(), PlaybackState::Paused).0,
            engineAction == switchToSpec(old(self).stateSpec(), PlaybackState::Paused).1,
            !final(self).workerActiveSpec(),
            final(self).descriptionSpec() == old(self).descriptionSpec(),
            final(self).durationSpec() == old(self).durationSpec(),
            final(self).playedSpec() == old(self).playedSpec(),
    {
        let changed = self.switchTo(PlaybackState::Paused);
        self.workerActive = false;
        changed
    }

    /// Ask playback to stop.  Returns whether the transition took effect;
    /// only then are the engine's stop call and the worker join made.  The
    /// worker thread's handle is given up either way.
    pub fn stop(&mut self) -> (engineAction: bool)
        ensures
            final(self).stateSpec() == switchToSpec(
                old(self).stateSpec(),
                PlaybackState::Stopped,
            ).0,
            engineAction == switchToSpec(old(self).stateSpec(), PlaybackState::Stopped).1,
            !final(self).workerActiveSpec(),
            final(self).descriptionSpec() == old(self).descriptionSpec(),
            final(self).durationSpec() == old(self).durationSpec(),
            final(self).playedSpec() == old(self).playedSpec(),
    {
        let changed = self.switchTo(PlaybackState::Stopped);
        self.workerActive = false;
        changed
    }

    /// A copy of the current playback state.
    pub fn state(&self) -> (r: PlaybackState)
        ensures
            r == self.stateSpec(),
    {
        match &self.state {
            PlaybackState::NotStarted => PlaybackState::NotStarted,
            PlaybackState::Playing => PlaybackState::Playing,
            PlaybackState::Paused => PlaybackState::Paused,
            PlaybackState::Stopped => PlaybackState::Stopped,
            PlaybackState::Complete => PlaybackState::Complete,
            PlaybackState::Unknown(m) => PlaybackState::Unknown(m.clone()),
        }
    }
}

/// Law: asking to play twice in a row spawns at most one worker thread —
/// the second request finds the first worker on record and spawns none.
pub proof fn playIdempotentLaw(workerActive: bool)
    ensures
        playSpec(playSpec(workerActive).0).1 == false,
{
}

/// Law: a switch to a state the machine is already in reports "unchanged"
/// and leaves the state as it was; since callers touch the engine and join
/// the worker only on "changed", no engine call and no join follow.
pub proof fn switchToUnchangedLaw(s: PlaybackState, target: PlaybackState)
    requires
        stateEquiv(s, target),
    ensures
        switchToSpec(s, target).1 == false,
        switchToSpec(s, target).0 == s,
{
}

/// Law: when the blocking play call returns with the state still
/// `Playing`, the track ended naturally: the state becomes `Complete` and
/// exactly one completion notification is owed — finishing again from the
/// completed state owes none.
pub proof fn naturalEndLaw(s: PlaybackState)
    requires
        stateEquiv(s, PlaybackState::Playing),
    ensures
        finishSpec(s).0 == PlaybackState::Complete,
        finishSpec(s).1 == true,
        finishSpec(finishSpec(s).0).1 == false,
{
}

/// Law: when an explicit stop won the race instead, the state stays
/// `Stopped` after the blocking call returns and no notification is sent.
pub proof fn stopThenFinishLaw(s: PlaybackState)
    ensures
        finishSpec(switchToSpec(s, PlaybackState::Stopped).0).0 == PlaybackState::Stopped,
        finishSpec(switchToSpec(s, PlaybackState::Stopped).0).1 == false,
{
}

/// Law: play, pause, play resumes cleanly — after the second worker's
/// first step the state is `Playing` again, and that step reports a real
/// transition (the pause actually interrupted playback).
pub proof fn pauseResumeLaw(s0: PlaybackState)
    ensures
        ({
            let s1 = switchToSpec(s0, PlaybackState::Playing).0;
            let s2 = switchToSpec(s1, PlaybackState::Paused).0;
            switchToSpec(s2, PlaybackState::Playing).0 == PlaybackState::Playing
                && switchToSpec(s2, PlaybackState::Playing).1 == true
        }),
        playSpec(false).0 == true && playSpec(false).1 == true,
{
}

} // verus!
