use music_dirs::dir_contents::{get_dirs_with_music, get_list_of_dirs, DirContents, DirListing, FileEntry, WalkEvent};
use music_dirs::music_file::MusicMetadata;

fn meta(album: &str, artist: &str) -> MusicMetadata {
    MusicMetadata {
        album: album.as_bytes().to_vec(),
        artist: artist.as_bytes().to_vec(),
        title: None,
        track: None,
    }
}

fn entry(path: &str, name: &str, is_regular: bool, tag: Option<MusicMetadata>) -> FileEntry {
    FileEntry {
        path: path.as_bytes().to_vec(),
        name: name.as_bytes().to_vec(),
        is_regular,
        tag,
    }
}

#[test]
fn album_directory_snapshot() {
    // Directory with two tagged tracks and a cover image.
    let children = vec![
        entry("/music/AlbumX/track1.mp3", "track1.mp3", true, Some(meta("AlbumX", "Band"))),
        entry("/music/AlbumX/track2.mp3", "track2.mp3", true, Some(meta("AlbumX", "Band"))),
        entry("/music/AlbumX/cover.jpg", "cover.jpg", true, None),
    ];
    let snap = DirContents::new(b"/music/AlbumX".to_vec(), children).expect("snapshot expected");
    assert_eq!(snap.path, b"/music/AlbumX".to_vec());
    assert_eq!(snap.music_files.len(), 2);
    assert_eq!(snap.ordinary_files.len(), 1);
    assert_eq!(snap.music_files[0].name, b"track1.mp3".to_vec());
    assert_eq!(snap.music_files[1].name, b"track2.mp3".to_vec());
    assert_eq!(snap.ordinary_files[0].name, b"cover.jpg".to_vec());
    let album = snap.same_album_title().expect("common album expected");
    assert_eq!(album, &b"AlbumX".to_vec());
    assert!(snap.same_artists());
}

#[test]
fn mixed_albums_no_common_value() {
    // Both tracks carry valid metadata but the album tags differ.
    let children = vec![
        entry("/music/Mixed/a.mp3", "a.mp3", true, Some(meta("One", "Band"))),
        entry("/music/Mixed/b.mp3", "b.mp3", true, Some(meta("Two", "Band"))),
    ];
    let snap = DirContents::new(b"/music/Mixed".to_vec(), children).expect("snapshot expected");
    assert_eq!(snap.music_files.len(), 2);
    assert!(snap.same_album_title().is_none());
    assert!(snap.same_artists());
}

#[test]
fn docs_directory_produces_no_snapshot() {
    let children = vec![entry("/docs/readme.txt", "readme.txt", true, None)];
    assert!(DirContents::new(b"/docs".to_vec(), children).is_none());
}

#[test]
fn music_candidates_without_metadata_drop_directory() {
    // A music-named file whose tag extraction failed does not qualify.
    let children = vec![
        entry("/m/x.mp3", "x.mp3", true, None),
        entry("/m/y.txt", "y.txt", true, None),
    ];
    assert!(DirContents::new(b"/m".to_vec(), children).is_none());
}

#[test]
fn directories_and_special_files_ignored() {
    // A subdirectory whose name looks musical still does not count.
    let children = vec![
        entry("/m/sub.mp3", "sub.mp3", false, None),
        entry("/m/track.mp3", "track.mp3", true, Some(meta("A", "B"))),
        entry("/m/pipe.fifo", "pipe.fifo", false, None),
    ];
    let snap = DirContents::new(b"/m".to_vec(), children).expect("snapshot expected");
    assert_eq!(snap.music_files.len(), 1);
    assert_eq!(snap.ordinary_files.len(), 0);
}

#[test]
fn traversal_error_reported_and_siblings_kept() {
    // A failure in one subtree yields a diagnostic; sibling events after the
    // failure are still processed.
    let events = vec![
        WalkEvent::Entry { path: b"/music/ok1".to_vec(), is_dir: true },
        WalkEvent::Failure { message: b"permission denied: /music/secret".to_vec() },
        WalkEvent::Entry { path: b"/music/ok2".to_vec(), is_dir: true },
        WalkEvent::Entry { path: b"/music/ok1/file.mp3".to_vec(), is_dir: false },
    ];
    let (dirs, diags) = get_list_of_dirs(events);
    assert_eq!(dirs, vec![b"/music/ok1".to_vec(), b"/music/ok2".to_vec()]);
    assert_eq!(diags, vec![b"permission denied: /music/secret".to_vec()]);
}

#[test]
fn scan_keeps_only_music_directories_in_order() {
    let listings = vec![
        DirListing {
            path: b"/a".to_vec(),
            children: Some(vec![entry("/a/t.mp3", "t.mp3", true, Some(meta("A", "B")))]),
        },
        // Directory whose read failed: silently dropped.
        DirListing { path: b"/b".to_vec(), children: None },
        // Directory without music: dropped.
        DirListing {
            path: b"/c".to_vec(),
            children: Some(vec![entry("/c/readme.txt", "readme.txt", true, None)]),
        },
        DirListing {
            path: b"/d".to_vec(),
            children: Some(vec![entry("/d/u.flac", "u.flac", true, Some(meta("C", "D")))]),
        },
    ];
    let snaps = get_dirs_with_music(listings);
    assert_eq!(snaps.len(), 2);
    assert_eq!(snaps[0].path, b"/a".to_vec());
    assert_eq!(snaps[1].path, b"/d".to_vec());
}

#[test]
fn abbey_road_let_it_be_no_common_album() {
    let children = vec![
        entry("/m/1.mp3", "1.mp3", true, Some(meta("Abbey Road", "The Beatles"))),
        entry("/m/2.mp3", "2.mp3", true, Some(meta("Abbey Road", "The Beatles"))),
        entry("/m/3.mp3", "3.mp3", true, Some(meta("Let It Be", "The Beatles"))),
    ];
    let snap = DirContents::new(b"/m".to_vec(), children).expect("snapshot expected");
    assert!(snap.same_album_title().is_none());
    assert!(snap.same_artists());
}

#[test]
fn empty_music_list_yields_no_album_and_no_artist() {
    // Directly-built snapshot with no music files: both queries report the
    // "no data" outcome.
    let snap = DirContents {
        path: b"/empty".to_vec(),
        music_files: Vec::new(),
        ordinary_files: Vec::new(),
    };
    assert!(snap.same_album_title().is_none());
    assert!(!snap.same_artists());
}

#[test]
fn artists_disagree() {
    let children = vec![
        entry("/m/a.mp3", "a.mp3", true, Some(meta("A", "X"))),
        entry("/m/b.mp3", "b.mp3", true, Some(meta("A", "Y"))),
    ];
    let snap = DirContents::new(b"/m".to_vec(), children).expect("snapshot expected");
    assert_eq!(snap.same_album_title().expect("common album"), &b"A".to_vec());
    assert!(!snap.same_artists());
}

#[test]
fn case_sensitive_album_comparison() {
    // Exact string equality: differing case means no common value.
    let children = vec![
        entry("/m/a.mp3", "a.mp3", true, Some(meta("album", "X"))),
        entry("/m/b.mp3", "b.mp3", true, Some(meta("Album", "X"))),
    ];
    let snap = DirContents::new(b"/m".to_vec(), children).expect("snapshot expected");
    assert!(snap.same_album_title().is_none());
}
