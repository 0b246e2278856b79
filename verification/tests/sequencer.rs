use lyrebird::paths::TrackPath;
use lyrebird::playlist::Playlist;

fn path(segments: &[&str]) -> TrackPath {
    let mut v: Vec<String> = Vec::new();
    for s in segments {
        v.push((*s).to_string());
    }
    TrackPath::fromSegments(v)
}

#[test]
fn advance_on_empty_queue_returns_nothing() {
    let mut q = Playlist::new("q".to_string());
    assert!(q.next().is_none());
    assert!(q.next().is_none());
}

#[test]
fn advance_walks_entries_in_order() {
    let mut q = Playlist::new("q".to_string());
    q.add(&path(&["a"]));
    q.add(&path(&["b"]));
    let first = q.next().expect("first advance should yield an entry");
    assert!(first.sameAs(&path(&["a"])));
    let second = q.next().expect("second advance should yield an entry");
    assert!(second.sameAs(&path(&["b"])));
    assert!(q.next().is_none());
}

#[test]
fn replace_with_makes_the_track_current() {
    let mut q = Playlist::new("q".to_string());
    q.add(&path(&["a"]));
    q.add(&path(&["b"]));
    q.replaceWith(&path(&["c"]));
    assert_eq!(q.currentEntry(), 0);
    // the replacement is already current, so nothing comes next
    assert!(q.next().is_none());
}

#[test]
fn next_entry_sets_the_cursor() {
    let mut q = Playlist::new("q".to_string());
    q.add(&path(&["a"]));
    q.add(&path(&["b"]));
    q.add(&path(&["c"]));
    q.nextEntry(1);
    assert_eq!(q.currentEntry(), 1);
    let after = q.next().expect("entry after the cursor");
    assert!(after.sameAs(&path(&["c"])));
    assert!(q.next().is_none());
}

#[test]
fn name_and_contents_are_kept() {
    let mut q = Playlist::new("Now Playing".to_string());
    q.add(&path(&["music", "x.flac"]));
    assert_eq!(q.name(), "Now Playing");
    let lines = q.contents();
    assert_eq!(lines.len(), 1);
    assert_eq!(lines[0], "music/x.flac");
    assert_eq!(q.entry(0).display(), "music/x.flac");
}

#[test]
fn current_entry_starts_at_zero() {
    let q = Playlist::new("q".to_string());
    assert_eq!(q.currentEntry(), 0);
}
