//! Core of a terminal music player: the in-memory index of a music library
//! together with its background scanner, the playback state machine that
//! coordinates one worker thread per playing track, and the ordered
//! now-playing queue.
//!
//! Everything here works on plain values (component paths, strings,
//! integers).  The surrounding program supplies what only the outside world
//! can: directory listings, the audio engine's verdicts and blocking calls,
//! terminal events and rendering.
#![allow(non_snake_case)]

pub mod config;
pub mod keys;
pub mod library;
pub mod libraryTree;
pub mod options;
pub mod paths;
pub mod playback;
pub mod playlist;
pub mod playlists;
pub mod window;
