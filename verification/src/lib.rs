//! Scans a directory tree for "album directories": directories holding at
//! least one recognised music file with readable tag metadata. For each such
//! directory the library builds an immutable snapshot that partitions the
//! directory's regular files into music files (sorted deterministically) and
//! ordinary files, and derives per-directory consistency facts (shared album
//! title, shared artist).
//!
//! All filesystem reading happens outside this crate; the library works on
//! plain byte strings (paths, file names, tag values) handed in by the caller.

pub mod bytes;
pub mod dir_contents;
pub mod display;
pub mod music_file;
pub mod ordinary_file;
pub mod sort;
pub mod util;
