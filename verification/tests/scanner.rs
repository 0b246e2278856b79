use lyrebird::library::CachedIndex;
use lyrebird::library::DirFiles;
use lyrebird::library::FsDir;
use lyrebird::library::FsFile;
use lyrebird::library::MusicLibrary;
use lyrebird::paths::TrackPath;

fn path(segments: &[&str]) -> TrackPath {
    let mut v: Vec<String> = Vec::new();
    for s in segments {
        v.push((*s).to_string());
    }
    TrackPath::fromSegments(v)
}

fn file(name: &str, audio: bool) -> FsFile {
    FsFile { name: name.to_string(), audio }
}

fn dir(name: &str, files: Vec<FsFile>, subdirs: Vec<FsDir>) -> FsDir {
    FsDir { name: name.to_string(), files, subdirs }
}

#[test]
fn scan_keeps_audio_directory_and_prunes_empty_one() {
    // library root holds A/song.flac and the empty directory B
    let tree = dir(
        "music",
        vec![],
        vec![
            dir("A", vec![file("song.flac", true)], vec![]),
            dir("B", vec![], vec![]),
        ],
    );
    let mut lib = MusicLibrary::fromPath(path(&["music"]));
    lib.scanTree(&tree);
    assert_eq!(lib.directoryCount(), 2, "the root plus A alone");
    assert!(lib.directoryAt(1).unwrap().sameAs(&path(&["A"])));
    let names = lib.filesFor(Some(1)).expect("A holds files");
    assert_eq!(names, vec!["song.flac".to_string()]);
    assert_eq!(lib.filesCount(Some(1)), 1);
    // B was pruned: no second registered directory
    assert!(lib.directoryAt(2).is_none());
    assert!(!lib.hasFilesFor(&path(&["music", "B"])));
}

#[test]
fn scan_registers_ancestors_of_deep_audio() {
    // audio sits three levels down; every ancestor stays, an empty
    // sibling subtree goes
    let tree = dir(
        "base",
        vec![],
        vec![
            dir(
                "a",
                vec![],
                vec![dir("b", vec![], vec![dir("c", vec![file("x.mp3", true)], vec![])])],
            ),
            dir("empty", vec![], vec![dir("deeper", vec![], vec![])]),
        ],
    );
    let mut lib = MusicLibrary::fromPath(path(&["base"]));
    lib.scanTree(&tree);
    // root + a + a/b + a/b/c
    assert_eq!(lib.directoryCount(), 4);
    assert!(lib.containsDir(&path(&["a"])));
    assert!(lib.containsDir(&path(&["a", "b"])));
    assert!(lib.containsDir(&path(&["a", "b", "c"])));
    assert!(!lib.containsDir(&path(&["empty"])));
    assert!(!lib.containsDir(&path(&["empty", "deeper"])));
    assert!(lib.hasFilesFor(&path(&["base", "a", "b", "c"])));
    assert!(!lib.hasFilesFor(&path(&["base", "a"])));
}

#[test]
fn scan_ignores_files_the_engine_refuses() {
    let tree = dir(
        "base",
        vec![file("notes.txt", false), file("cover.jpg", false)],
        vec![dir("A", vec![file("song.ogg", true), file("readme.txt", false)], vec![])],
    );
    let mut lib = MusicLibrary::fromPath(path(&["base"]));
    lib.scanTree(&tree);
    assert!(!lib.hasFilesFor(&path(&["base"])), "no audio directly in the root");
    let names = lib.filesFor(Some(1)).expect("A holds audio");
    assert_eq!(names, vec!["song.ogg".to_string()]);
}

#[test]
fn scan_records_root_files_under_the_base() {
    let tree = dir("base", vec![file("root.flac", true)], vec![]);
    let mut lib = MusicLibrary::fromPath(path(&["base"]));
    lib.scanTree(&tree);
    // the root is enumerated first even though it is not registered
    assert_eq!(lib.directoryCount(), 1);
    assert!(lib.hasFilesFor(&path(&["base"])));
    let names = lib.filesFor(Some(0)).expect("the base holds files");
    assert_eq!(names, vec!["root.flac".to_string()]);
    let full = lib.fileIn(&path(&["base"]), 0).expect("first file");
    assert!(full.sameAs(&path(&["base", "root.flac"])));
}

#[test]
fn incremental_steps_match_the_pruning_rule() {
    // drive the per-step mutators the way the background walk does
    let mut lib = MusicLibrary::fromPath(path(&["base"]));
    let sub = path(&["s"]);
    lib.insertDir(&sub);
    assert!(lib.containsDir(&sub));
    // nothing was found under s: the re-check removes it again
    let abs = path(&["base", "s"]);
    if !lib.hasFilesFor(&abs) && !lib.anyDirStrictlyUnder(&sub) {
        lib.removeDir(&sub);
    }
    assert!(!lib.containsDir(&sub));
    // a directory with audio stays
    lib.insertDir(&sub);
    lib.insertAudioFile(&abs, &path(&["base", "s", "t.flac"]));
    assert!(lib.hasFilesFor(&abs));
    if !lib.hasFilesFor(&abs) && !lib.anyDirStrictlyUnder(&sub) {
        lib.removeDir(&sub);
    }
    assert!(lib.containsDir(&sub));
    // repeated inserts do not duplicate
    lib.insertDir(&sub);
    lib.insertAudioFile(&abs, &path(&["base", "s", "t.flac"]));
    assert_eq!(lib.directoryCount(), 2);
    assert_eq!(lib.filesCount(Some(1)), 1);
}

#[test]
fn files_are_listed_sorted_regardless_of_listing_order() {
    // the listing hands the files over out of order; the index sorts them
    let tree = dir(
        "base",
        vec![],
        vec![dir(
            "A",
            vec![file("two.flac", true), file("one.flac", true), file("three.flac", true)],
            vec![],
        )],
    );
    let mut lib = MusicLibrary::fromPath(path(&["base"]));
    lib.scanTree(&tree);
    let names = lib.filesFor(Some(1)).expect("A holds audio");
    assert_eq!(
        names,
        vec!["one.flac".to_string(), "three.flac".to_string(), "two.flac".to_string()]
    );
    let first = lib.fileIn(&path(&["base", "A"]), 0).expect("smallest file");
    assert!(first.sameAs(&path(&["base", "A", "one.flac"])));
}

#[test]
fn directories_are_enumerated_sorted_regardless_of_discovery_order() {
    // the subdirectories are listed B before A; the enumeration sorts them
    let tree = dir(
        "base",
        vec![],
        vec![
            dir("b", vec![file("y.flac", true)], vec![]),
            dir("a", vec![file("x.flac", true)], vec![dir("sub", vec![file("z.flac", true)], vec![])]),
        ],
    );
    let mut lib = MusicLibrary::fromPath(path(&["base"]));
    lib.scanTree(&tree);
    assert_eq!(lib.directoryCount(), 4);
    assert!(lib.directoryAt(1).unwrap().sameAs(&path(&["a"])));
    assert!(lib.directoryAt(2).unwrap().sameAs(&path(&["a", "sub"])));
    assert!(lib.directoryAt(3).unwrap().sameAs(&path(&["b"])));
    let lines = lib.directories();
    assert_eq!(lines[1], " \u{251c} a");
    assert_eq!(lines[2], " \u{2502} \u{251c} sub");
    assert_eq!(lines[3], " \u{251c} b");
}

#[test]
fn unsorted_cache_is_refused() {
    // cached directories out of order: unusable, so open falls back
    let cached = CachedIndex {
        basePath: path(&["base"]),
        dirs: vec![path(&["B"]), path(&["A"])],
        files: vec![],
    };
    let lib = MusicLibrary::open(path(&["fallback"]), Some(cached));
    assert!(lib.basePath().sameAs(&path(&["fallback"])));
    assert_eq!(lib.directoryCount(), 1);
    // a cached group with files out of order is refused the same way
    let cached2 = CachedIndex {
        basePath: path(&["base"]),
        dirs: vec![path(&["A"])],
        files: vec![DirFiles {
            dir: path(&["base", "A"]),
            files: vec![path(&["base", "A", "b.flac"]), path(&["base", "A", "a.flac"])],
        }],
    };
    let lib2 = MusicLibrary::open(path(&["fallback"]), Some(cached2));
    assert!(lib2.basePath().sameAs(&path(&["fallback"])));
}

#[test]
fn absolute_paths_display_with_a_single_leading_slash() {
    assert_eq!(path(&["/", "home", "user", "Music"]).display(), "/home/user/Music");
    assert_eq!(path(&["/"]).display(), "/");
    assert_eq!(path(&["home", "user"]).display(), "home/user");
    let tree = dir("Music", vec![], vec![dir("A", vec![file("s.flac", true)], vec![])]);
    let mut lib = MusicLibrary::fromPath(path(&["/", "home", "user", "Music"]));
    lib.scanTree(&tree);
    let lines = lib.directories();
    assert_eq!(lines[0], "\u{2570} /home/user/Music");
}

#[test]
fn cancellation_flag_reads_back() {
    let mut lib = MusicLibrary::fromPath(path(&["base"]));
    assert!(!lib.isCancelled());
    lib.requestCancellation();
    assert!(lib.isCancelled());
}

#[test]
fn open_with_invalid_cache_falls_back_to_empty() {
    // the cache lists one directory twice: unusable, so open must hand
    // back a fresh, scannable index rather than failing
    let cached = CachedIndex {
        basePath: path(&["elsewhere"]),
        dirs: vec![path(&["A"]), path(&["A"])],
        files: vec![],
    };
    let mut lib = MusicLibrary::open(path(&["base"]), Some(cached));
    assert_eq!(lib.directoryCount(), 1);
    assert!(lib.basePath().sameAs(&path(&["base"])));
    // and it is usable: a scan fills it as usual
    let tree = dir("base", vec![], vec![dir("A", vec![file("s.flac", true)], vec![])]);
    lib.scanTree(&tree);
    assert!(lib.containsDir(&path(&["A"])));
}

#[test]
fn open_without_cache_starts_empty() {
    let lib = MusicLibrary::open(path(&["base"]), None);
    assert_eq!(lib.directoryCount(), 1);
    assert!(lib.basePath().sameAs(&path(&["base"])));
    assert!(lib.filesFor(Some(0)).is_none());
}

#[test]
fn cache_round_trip_preserves_the_index() {
    let tree = dir(
        "base",
        vec![],
        vec![dir("A", vec![file("one.flac", true), file("two.flac", true)], vec![])],
    );
    let mut lib = MusicLibrary::fromPath(path(&["base"]));
    lib.scanTree(&tree);
    let cached = CachedIndex {
        basePath: lib.basePath().duplicate(),
        dirs: lib.cacheDirs(),
        files: lib.cacheGroups(),
    };
    let reloaded = MusicLibrary::open(path(&["fallback"]), Some(cached));
    assert!(reloaded.basePath().sameAs(&path(&["base"])));
    assert_eq!(reloaded.directoryCount(), 2);
    assert!(reloaded.containsDir(&path(&["A"])));
    let names = reloaded.filesFor(Some(1)).expect("A holds files");
    assert_eq!(names, vec!["one.flac".to_string(), "two.flac".to_string()]);
}

#[test]
fn duplicate_group_in_cache_is_refused() {
    let group = DirFiles { dir: path(&["base", "A"]), files: vec![path(&["base", "A", "x.flac"])] };
    let group2 = DirFiles { dir: path(&["base", "A"]), files: vec![] };
    let cached = CachedIndex {
        basePath: path(&["base"]),
        dirs: vec![path(&["A"])],
        files: vec![group, group2],
    };
    let lib = MusicLibrary::open(path(&["fallback"]), Some(cached));
    assert!(lib.basePath().sameAs(&path(&["fallback"])));
    assert_eq!(lib.directoryCount(), 1);
}

#[test]
fn directory_lines_carry_icons_and_indentation() {
    let tree = dir(
        "music",
        vec![],
        vec![dir("A", vec![], vec![dir("B", vec![file("s.flac", true)], vec![])])],
    );
    let mut lib = MusicLibrary::fromPath(path(&["home", "music"]));
    lib.scanTree(&tree);
    let lines = lib.directories();
    assert_eq!(lines.len(), 3);
    assert_eq!(lines[0], "\u{2570} home/music");
    assert_eq!(lines[1], " \u{251c} A");
    assert_eq!(lines[2], " \u{2502} \u{251c} B");
}

#[test]
fn select_track_names_the_chosen_file() {
    let tree = dir(
        "base",
        vec![],
        vec![dir("A", vec![file("one.flac", true), file("two.flac", true)], vec![])],
    );
    let mut lib = MusicLibrary::fromPath(path(&["base"]));
    lib.scanTree(&tree);
    let chosen = lib.selectTrack(Some(1), Some(1)).expect("a valid selection");
    assert!(chosen.sameAs(&path(&["base", "A", "two.flac"])));
    assert!(lib.selectTrack(Some(1), Some(2)).is_none());
    assert!(lib.selectTrack(Some(9), Some(0)).is_none());
    assert!(lib.selectTrack(None, Some(0)).is_none());
    assert!(lib.selectTrack(Some(1), None).is_none());
}
