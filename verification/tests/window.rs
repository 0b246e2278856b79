use lyrebird::config::Config;
use lyrebird::config::ConfigVersion;
use lyrebird::keys::Key;
use lyrebird::keys::KeyEvent;
use lyrebird::keys::KeyKind;
use lyrebird::libraryTree::TreeAction;
use lyrebird::libraryTree::treeKeyAction;
use lyrebird::options::OptionsPanel;
use lyrebird::paths::TrackPath;
use lyrebird::playback::PlaybackState;
use lyrebird::playlist::Playlist;
use lyrebird::playlists::PanelAction;
use lyrebird::playlists::PanelSide;
use lyrebird::playlists::Playlists;
use lyrebird::playlists::playlistsKeyAction;
use lyrebird::window::CompletionAction;
use lyrebird::window::Operation;
use lyrebird::window::Tab;
use lyrebird::window::ToggleAction;
use lyrebird::window::WindowCommand;
use lyrebird::window::durationAsString;
use lyrebird::window::handlePlaybackNotification;
use lyrebird::window::togglePlaybackAction;
use lyrebird::window::windowKeyCommand;

fn path(segments: &[&str]) -> TrackPath {
    let mut v: Vec<String> = Vec::new();
    for s in segments {
        v.push((*s).to_string());
    }
    TrackPath::fromSegments(v)
}

fn press(code: Key) -> KeyEvent {
    KeyEvent { kind: KeyKind::Press, code }
}

#[test]
fn duration_is_formatted_exactly() {
    assert_eq!(durationAsString(0), "--:--");
    assert_eq!(durationAsString(1), " 0:01");
    assert_eq!(durationAsString(59), " 0:59");
    assert_eq!(durationAsString(61), " 1:01");
    assert_eq!(durationAsString(600), "10:00");
    assert_eq!(durationAsString(3600), "60:00");
    assert_eq!(durationAsString(6000), "100:00");
}

#[test]
fn tab_values_match_header_positions() {
    assert_eq!(Tab::LibraryTree.value(), 0);
    assert_eq!(Tab::Options.value(), 3);
    assert_eq!(Tab::Playlists.value(), 4);
}

#[test]
fn window_keys_map_to_commands() {
    assert!(matches!(windowKeyCommand(&press(Key::Char('q'))), WindowCommand::Quit));
    assert!(matches!(windowKeyCommand(&press(Key::Char('Q'))), WindowCommand::Quit));
    assert!(matches!(windowKeyCommand(&press(Key::Char(' '))), WindowCommand::TogglePlayback));
    assert!(matches!(
        windowKeyCommand(&press(Key::Char('1'))),
        WindowCommand::SwitchTab(Tab::LibraryTree)
    ));
    assert!(matches!(
        windowKeyCommand(&press(Key::Char('4'))),
        WindowCommand::SwitchTab(Tab::Options)
    ));
    assert!(matches!(
        windowKeyCommand(&press(Key::Char('5'))),
        WindowCommand::SwitchTab(Tab::Playlists)
    ));
    assert!(matches!(windowKeyCommand(&press(Key::Char('x'))), WindowCommand::Defer));
    let release = KeyEvent { kind: KeyKind::Release, code: Key::Char('q') };
    assert!(matches!(windowKeyCommand(&release), WindowCommand::Defer));
}

#[test]
fn toggle_depends_on_the_playback_state() {
    assert!(matches!(togglePlaybackAction(&PlaybackState::Playing), ToggleAction::RequestPause));
    assert!(matches!(togglePlaybackAction(&PlaybackState::Paused), ToggleAction::RequestPlay));
    assert!(matches!(togglePlaybackAction(&PlaybackState::Stopped), ToggleAction::RequestPlay));
    assert!(matches!(togglePlaybackAction(&PlaybackState::NotStarted), ToggleAction::RequestPlay));
    assert!(matches!(togglePlaybackAction(&PlaybackState::Complete), ToggleAction::Ignore));
    match togglePlaybackAction(&PlaybackState::Unknown("oops".to_string())) {
        ToggleAction::ReportError(m) => assert_eq!(m, "oops"),
        other => panic!("expected an error report, got {other:?}"),
    }
}

#[test]
fn completion_advances_the_queue() {
    let mut q = Playlist::new("Now Playing".to_string());
    q.add(&path(&["a"]));
    q.add(&path(&["b"]));
    match handlePlaybackNotification(&mut q, &PlaybackState::Complete) {
        CompletionAction::StartNext(p) => assert!(p.sameAs(&path(&["a"]))),
        other => panic!("expected the first entry, got {other:?}"),
    }
    match handlePlaybackNotification(&mut q, &PlaybackState::Complete) {
        CompletionAction::StartNext(p) => assert!(p.sameAs(&path(&["b"]))),
        other => panic!("expected the second entry, got {other:?}"),
    }
    assert!(matches!(
        handlePlaybackNotification(&mut q, &PlaybackState::Complete),
        CompletionAction::ClearCurrent
    ));
}

#[test]
fn non_completion_notifications_are_ignored() {
    let mut q = Playlist::new("Now Playing".to_string());
    q.add(&path(&["a"]));
    assert!(matches!(
        handlePlaybackNotification(&mut q, &PlaybackState::Stopped),
        CompletionAction::Ignore
    ));
    // the queue was not advanced
    match handlePlaybackNotification(&mut q, &PlaybackState::Complete) {
        CompletionAction::StartNext(p) => assert!(p.sameAs(&path(&["a"]))),
        other => panic!("expected the first entry, got {other:?}"),
    }
}

#[test]
fn selection_then_completion_plays_the_following_entry() {
    let mut panel = Playlists::new();
    panel.nowPlaying.add(&path(&["a"]));
    panel.nowPlaying.add(&path(&["b"]));
    // the user picks the first entry; on its completion the second plays
    match panel.makeSelection(PanelSide::PlaylistContents, Some(0)) {
        Operation::PlayNext(p) => assert!(p.sameAs(&path(&["a"]))),
        other => panic!("expected a play-next operation, got {other:?}"),
    }
    match handlePlaybackNotification(&mut panel.nowPlaying, &PlaybackState::Complete) {
        CompletionAction::StartNext(p) => assert!(p.sameAs(&path(&["b"]))),
        other => panic!("expected the following entry, got {other:?}"),
    }
    assert!(matches!(
        handlePlaybackNotification(&mut panel.nowPlaying, &PlaybackState::Complete),
        CompletionAction::ClearCurrent
    ));
}

#[test]
fn duration_pads_each_side_of_the_colon() {
    assert_eq!(durationAsString(60), " 1:00");
    assert_eq!(durationAsString(599), " 9:59");
    assert_eq!(durationAsString(601), "10:01");
}

#[test]
fn operation_playlist_wraps_a_track() {
    assert!(matches!(Operation::playlist(None), Operation::Nothing));
    match Operation::playlist(Some(path(&["a"]))) {
        Operation::Playlist(p) => assert!(p.sameAs(&path(&["a"]))),
        other => panic!("expected a queueing operation, got {other:?}"),
    }
}

#[test]
fn tree_keys_map_to_actions() {
    assert!(matches!(treeKeyAction(&press(Key::Left)), TreeAction::MoveLeft));
    assert!(matches!(treeKeyAction(&press(Key::Right)), TreeAction::MoveRight));
    assert!(matches!(treeKeyAction(&press(Key::Up)), TreeAction::MoveUp));
    assert!(matches!(treeKeyAction(&press(Key::Down)), TreeAction::MoveDown));
    assert!(matches!(treeKeyAction(&press(Key::PageUp)), TreeAction::MovePageUp));
    assert!(matches!(treeKeyAction(&press(Key::PageDown)), TreeAction::MovePageDown));
    assert!(matches!(treeKeyAction(&press(Key::Enter)), TreeAction::PlaySelection));
    assert!(matches!(treeKeyAction(&press(Key::Char('+'))), TreeAction::AddSelection));
    assert!(matches!(treeKeyAction(&press(Key::Char('z'))), TreeAction::Ignore));
    let repeat = KeyEvent { kind: KeyKind::Repeat, code: Key::Down };
    assert!(matches!(treeKeyAction(&repeat), TreeAction::MoveDown));
    let release = KeyEvent { kind: KeyKind::Release, code: Key::Enter };
    assert!(matches!(treeKeyAction(&release), TreeAction::Ignore));
}

#[test]
fn playlists_keys_map_to_actions() {
    assert!(matches!(playlistsKeyAction(&press(Key::Left)), PanelAction::MoveLeft));
    assert!(matches!(playlistsKeyAction(&press(Key::Right)), PanelAction::MoveRight));
    assert!(matches!(playlistsKeyAction(&press(Key::Up)), PanelAction::MoveUp));
    assert!(matches!(playlistsKeyAction(&press(Key::Down)), PanelAction::MoveDown));
    assert!(matches!(playlistsKeyAction(&press(Key::Enter)), PanelAction::Select));
    assert!(matches!(playlistsKeyAction(&press(Key::PageUp)), PanelAction::Ignore));
}

#[test]
fn playlists_selection_plays_the_chosen_entry() {
    let mut panel = Playlists::new();
    panel.nowPlaying.add(&path(&["a"]));
    panel.nowPlaying.add(&path(&["b"]));
    match panel.makeSelection(PanelSide::PlaylistContents, Some(1)) {
        Operation::PlayNext(p) => assert!(p.sameAs(&path(&["b"]))),
        other => panic!("expected a play-next operation, got {other:?}"),
    }
    assert_eq!(panel.nowPlaying.currentEntry(), 1);
    assert!(matches!(panel.makeSelection(PanelSide::Playlists, Some(0)), Operation::Nothing));
    assert!(matches!(
        panel.makeSelection(PanelSide::PlaylistContents, None),
        Operation::Nothing
    ));
}

#[test]
fn options_panel_answers_nothing() {
    let mut panel = OptionsPanel::new();
    assert!(matches!(panel.handleKeyEvent(&press(Key::Enter)), Operation::Nothing));
    let mut defaulted = OptionsPanel::default();
    assert!(matches!(defaulted.handleKeyEvent(&press(Key::Up)), Operation::Nothing));
}

#[test]
fn config_carries_its_version_and_path() {
    let config = Config::new("/home/someone/Music".to_string());
    assert_eq!(config.libraryPath, "/home/someone/Music");
    assert!(matches!(config.version, ConfigVersion::Version1));
    assert_eq!(config.version.number(), 1);
}
