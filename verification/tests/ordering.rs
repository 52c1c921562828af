use music_dirs::music_file::{MusicFile, MusicMetadata};
use music_dirs::sort::sort_music_files;

fn track(name: &str, title: Option<&str>, number: Option<u32>) -> MusicFile {
    MusicFile {
        path: format!("/m/{}", name).into_bytes(),
        name: name.as_bytes().to_vec(),
        music_metadata: Some(MusicMetadata {
            album: b"A".to_vec(),
            artist: b"B".to_vec(),
            title: title.map(|t| t.as_bytes().to_vec()),
            track: number,
        }),
    }
}

fn names(v: &[MusicFile]) -> Vec<Vec<u8>> {
    v.iter().map(|m| m.name.clone()).collect()
}

#[test]
fn sort_by_track_number_first() {
    let sorted = sort_music_files(vec![
        track("b.mp3", None, Some(2)),
        track("a.mp3", None, Some(10)),
        track("c.mp3", None, Some(1)),
    ]);
    assert_eq!(
        names(&sorted),
        vec![b"c.mp3".to_vec(), b"b.mp3".to_vec(), b"a.mp3".to_vec()]
    );
}

#[test]
fn unnumbered_tracks_sort_after_numbered_ones() {
    let sorted = sort_music_files(vec![
        track("x.mp3", None, None),
        track("y.mp3", None, Some(4294967295)),
    ]);
    assert_eq!(names(&sorted), vec![b"y.mp3".to_vec(), b"x.mp3".to_vec()]);
}

#[test]
fn title_orders_unnumbered_tracks() {
    let sorted = sort_music_files(vec![
        track("1.mp3", Some("Zebra"), None),
        track("2.mp3", Some("Alpha"), None),
    ]);
    assert_eq!(names(&sorted), vec![b"2.mp3".to_vec(), b"1.mp3".to_vec()]);
}

#[test]
fn file_name_is_final_tie_break() {
    let sorted = sort_music_files(vec![
        track("beta.mp3", Some("Same"), Some(1)),
        track("alpha.mp3", Some("Same"), Some(1)),
    ]);
    assert_eq!(names(&sorted), vec![b"alpha.mp3".to_vec(), b"beta.mp3".to_vec()]);
}

#[test]
fn sorting_twice_is_a_no_op() {
    let once = sort_music_files(vec![
        track("c.mp3", None, Some(3)),
        track("a.mp3", Some("T"), None),
        track("b.mp3", None, Some(1)),
    ]);
    let names_once = names(&once);
    let twice = sort_music_files(once);
    assert_eq!(names(&twice), names_once);
}

#[test]
fn comparator_is_antisymmetric_on_distinct_names() {
    let a = track("a.mp3", None, Some(1));
    let b = track("b.mp3", None, Some(1));
    let ab = MusicFile::sort_func(&a, &b);
    let ba = MusicFile::sort_func(&b, &a);
    assert_eq!(ab, -1);
    assert_eq!(ba, 1);
    // Equal on every key only when the names are equal too.
    let a2 = track("a.mp3", None, Some(1));
    assert_eq!(MusicFile::sort_func(&a, &a2), 0);
}

#[test]
fn comparator_prefers_smaller_track_number() {
    let lo = track("z.mp3", None, Some(2));
    let hi = track("a.mp3", None, Some(11));
    // Numeric comparison, not textual: 2 < 11.
    assert_eq!(MusicFile::sort_func(&lo, &hi), -1);
}

#[test]
fn metadata_less_record_sorts_by_file_name() {
    let plain = MusicFile {
        path: b"/m/zz.mp3".to_vec(),
        name: b"zz.mp3".to_vec(),
        music_metadata: None,
    };
    let tagged = track("aa.mp3", None, None);
    let sorted = sort_music_files(vec![plain, tagged]);
    assert_eq!(names(&sorted), vec![b"aa.mp3".to_vec(), b"zz.mp3".to_vec()]);
}
