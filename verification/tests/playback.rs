use lyrebird::paths::TrackPath;
use lyrebird::playback::PlaybackState;
use lyrebird::playback::Song;
use lyrebird::playback::stateEq;

fn track(name: &str) -> TrackPath {
    TrackPath::fromSegments(vec![String::from("music"), String::from(name)])
}

fn fresh(name: &str) -> Song {
    Song::from(&track(name), None, None, None, 0)
}

#[test]
fn play_twice_spawns_at_most_one_worker() {
    let mut song = fresh("a.flac");
    assert!(song.play(), "the first play must spawn a worker");
    assert!(!song.play(), "the second play must not spawn another");
    assert!(!song.play());
}

#[test]
fn switch_to_same_state_reports_unchanged() {
    let mut song = fresh("a.flac");
    assert!(song.workerBeginPlayback());
    // already Playing: the compare-and-set must answer "unchanged"
    assert!(!song.switchTo(PlaybackState::Playing));
    assert_eq!(song.state(), PlaybackState::Playing);
    // and pausing twice acts only once
    assert!(song.pause());
    assert!(!song.pause());
    assert_eq!(song.state(), PlaybackState::Paused);
}

#[test]
fn natural_end_completes_and_notifies_once() {
    let mut song = fresh("a.flac");
    assert!(song.play());
    assert!(song.workerBeginPlayback());
    // the blocking play call returned with the state still Playing
    assert!(song.workerFinishPlayback(), "a natural end owes one notification");
    assert_eq!(song.state(), PlaybackState::Complete);
    // finishing again may not notify a second time
    assert!(!song.workerFinishPlayback());
    assert_eq!(song.state(), PlaybackState::Complete);
}

#[test]
fn explicit_stop_wins_and_suppresses_notification() {
    let mut song = fresh("a.flac");
    assert!(song.play());
    assert!(song.workerBeginPlayback());
    assert!(song.stop(), "the stop transition must act");
    // the blocking call returns afterwards; the state stays Stopped and
    // no notification is owed
    assert!(!song.workerFinishPlayback());
    assert_eq!(song.state(), PlaybackState::Stopped);
}

#[test]
fn play_pause_play_resumes_cleanly() {
    let mut song = fresh("a.flac");
    assert!(song.play());
    assert!(song.workerBeginPlayback());
    assert!(song.pause());
    assert_eq!(song.state(), PlaybackState::Paused);
    assert!(song.play(), "after the pause joined the worker, play spawns a new one");
    assert!(song.workerBeginPlayback());
    assert_eq!(song.state(), PlaybackState::Playing);
    assert!(!song.play(), "exactly one worker is on record");
}

#[test]
fn state_equality_compares_unknown_messages() {
    let a = PlaybackState::Unknown(String::from("poisoned"));
    let b = PlaybackState::Unknown(String::from("poisoned"));
    let c = PlaybackState::Unknown(String::from("other"));
    assert!(stateEq(&a, &b));
    assert!(!stateEq(&a, &c));
    assert!(!stateEq(&a, &PlaybackState::Stopped));
    assert!(stateEq(&PlaybackState::Paused, &PlaybackState::Paused));
}

#[test]
fn description_prefers_metadata() {
    let song = Song::from(
        &track("a.flac"),
        Some(String::from("Title")),
        Some(String::from("Album")),
        Some(String::from("Artist")),
        123,
    );
    assert_eq!(song.description(), "Title - Album - Artist");
    assert_eq!(song.songDuration(), Some(123));
    assert_eq!(song.playedDuration(), 0);
}

#[test]
fn description_falls_back_to_the_path() {
    let song = Song::from(&track("a.flac"), None, None, None, 0);
    assert_eq!(song.description(), "music/a.flac");
    assert_eq!(song.songDuration(), None);
}

#[test]
fn description_shows_an_absolute_path_cleanly() {
    let track = TrackPath::fromSegments(vec![
        String::from("/"),
        String::from("music"),
        String::from("a.flac"),
    ]);
    let song = Song::from(&track, None, None, None, 0);
    assert_eq!(song.description(), "/music/a.flac");
}

#[test]
fn description_uses_file_name_when_title_missing() {
    let song = Song::from(&track("a.flac"), None, Some(String::from("Album")), None, 7);
    assert_eq!(song.description(), "a.flac - Album");
    let song2 = Song::from(&track("b.flac"), None, None, Some(String::from("Artist")), 7);
    assert_eq!(song2.description(), "b.flac - Artist");
}
