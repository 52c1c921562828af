use music_dirs::bytes::{cmp_bytes, eq_bytes, u64_to_dec};
use music_dirs::dir_contents::{DirContents, FileEntry};
use music_dirs::music_file::{MusicFile, MusicMetadata};
use music_dirs::ordinary_file::OrdinaryFile;
use music_dirs::util::is_music_file;

fn classifies(name: &str) -> bool {
    is_music_file(&name.as_bytes().to_vec())
}

#[test]
fn known_extensions_classify_as_music() {
    for name in [
        "a.mp3", "a.mp4", "a.m4a", "a.aac", "a.flac", "a.ogg", "a.opus", "a.wav", "a.wma",
    ] {
        assert!(classifies(name), "{} should classify as music", name);
    }
}

#[test]
fn extension_matching_is_case_insensitive() {
    assert!(classifies("SONG.MP3"));
    assert!(classifies("Song.Flac"));
}

#[test]
fn non_music_names_are_rejected() {
    assert!(!classifies("readme.txt"));
    assert!(!classifies("noextension"));
    assert!(!classifies("archive.mp3.bak"));
    assert!(!classifies("trailingdot."));
    assert!(!classifies(".mp3x"));
    assert!(!classifies(""));
}

#[test]
fn hidden_file_with_music_extension_classifies() {
    // The extension is what counts, even on a dot file.
    assert!(classifies(".hidden.mp3"));
}

#[test]
fn byte_comparison_is_lexicographic() {
    let a = b"abc".to_vec();
    let b = b"abd".to_vec();
    let prefix = b"ab".to_vec();
    assert_eq!(cmp_bytes(&a, &b), -1);
    assert_eq!(cmp_bytes(&b, &a), 1);
    assert_eq!(cmp_bytes(&a, &a), 0);
    assert_eq!(cmp_bytes(&prefix, &a), -1);
    assert!(eq_bytes(&a, &a));
    assert!(!eq_bytes(&a, &b));
}

#[test]
fn decimal_rendering_is_exact() {
    assert_eq!(u64_to_dec(0), b"0".to_vec());
    assert_eq!(u64_to_dec(7), b"7".to_vec());
    assert_eq!(u64_to_dec(10), b"10".to_vec());
    assert_eq!(u64_to_dec(1234567890), b"1234567890".to_vec());
}

#[test]
fn dump_lists_path_counts_and_files() {
    let snap = DirContents {
        path: b"/music/AlbumX".to_vec(),
        music_files: vec![
            MusicFile {
                path: b"/music/AlbumX/track1.mp3".to_vec(),
                name: b"track1.mp3".to_vec(),
                music_metadata: Some(MusicMetadata {
                    album: b"AlbumX".to_vec(),
                    artist: b"Band".to_vec(),
                    title: None,
                    track: None,
                }),
            },
            MusicFile {
                path: b"/music/AlbumX/track2.mp3".to_vec(),
                name: b"track2.mp3".to_vec(),
                music_metadata: Some(MusicMetadata {
                    album: b"AlbumX".to_vec(),
                    artist: b"Band".to_vec(),
                    title: None,
                    track: None,
                }),
            },
        ],
        ordinary_files: vec![OrdinaryFile {
            path: b"/music/AlbumX/cover.jpg".to_vec(),
            name: b"cover.jpg".to_vec(),
        }],
    };
    let dump = snap.display_dump();
    let expected = "Directory Name: /music/AlbumX\n\
                    music files:    2 entries\n\
                    ordinary files: 1 entries\n\
                    ordinary file:  /music/AlbumX/cover.jpg\n\
                    music file:     /music/AlbumX/track1.mp3\n\
                    music file:     /music/AlbumX/track2.mp3\n";
    assert_eq!(String::from_utf8(dump).unwrap(), expected);
}

#[test]
fn record_constructors_keep_their_fields() {
    let m = MusicFile::new(
        b"/m/t.mp3".to_vec(),
        b"t.mp3".to_vec(),
        Some(MusicMetadata {
            album: b"A".to_vec(),
            artist: b"B".to_vec(),
            title: Some(b"T".to_vec()),
            track: Some(3),
        }),
    );
    assert_eq!(m.path, b"/m/t.mp3".to_vec());
    assert_eq!(m.name, b"t.mp3".to_vec());
    let md = m.music_metadata.as_ref().unwrap();
    assert_eq!(md.album, b"A".to_vec());
    assert_eq!(md.artist, b"B".to_vec());
    assert_eq!(md.title.as_ref().unwrap(), &b"T".to_vec());
    assert_eq!(md.track, Some(3));
    let o = OrdinaryFile::new(b"/m/c.jpg".to_vec(), b"c.jpg".to_vec());
    assert_eq!(o.path, b"/m/c.jpg".to_vec());
    assert_eq!(o.name, b"c.jpg".to_vec());
}

#[test]
fn snapshot_construction_uses_the_classifier() {
    // A rejected regular file lands in the ordinary list even when it
    // carries a (stray) tag record.
    let children = vec![
        FileEntry {
            path: b"/m/t.mp3".to_vec(),
            name: b"t.mp3".to_vec(),
            is_regular: true,
            tag: Some(MusicMetadata {
                album: b"A".to_vec(),
                artist: b"B".to_vec(),
                title: None,
                track: None,
            }),
        },
        FileEntry {
            path: b"/m/notes.txt".to_vec(),
            name: b"notes.txt".to_vec(),
            is_regular: true,
            tag: Some(MusicMetadata {
                album: b"A".to_vec(),
                artist: b"B".to_vec(),
                title: None,
                track: None,
            }),
        },
    ];
    let snap = DirContents::new(b"/m".to_vec(), children).expect("snapshot expected");
    assert_eq!(snap.music_files.len(), 1);
    assert_eq!(snap.music_files[0].name, b"t.mp3".to_vec());
    assert_eq!(snap.ordinary_files.len(), 1);
    assert_eq!(snap.ordinary_files[0].name, b"notes.txt".to_vec());
}
