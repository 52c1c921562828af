//! Music file records: a filesystem entry plus optional tag metadata, and the
//! deterministic ordering used for the per-directory track lists.
//!
//! The comparison key is, in priority order: the track number when the tags
//! carry one (files without a track number sort after all numbered ones), then
//! the title when the tags carry one (else the file name), then the file name
//! as the final tie-break. Two records compare equal only when their file
//! names are equal, so within one directory — where names are unique — the
//! order is strict and total.

use vstd::prelude::*;

use crate::bytes::bytes_cmp;
use crate::bytes::cmp_bytes;
use crate::bytes::lemma_bytes_cmp_eq;
use crate::bytes::lemma_bytes_cmp_flip;
use crate::bytes::lemma_bytes_cmp_range;
use crate::bytes::lemma_bytes_cmp_trans;

verus! {

/// Tag metadata read from a music file by an external metadata reader.
pub struct MusicMetadata {
    /// Album title, exact bytes as tagged.
    pub album: Vec<u8>,
    /// Artist name, exact bytes as tagged.
    pub artist: Vec<u8>,
    /// Track title, when the tags carry one.
    pub title: Option<Vec<u8>>,
    /// Track number, when the tags carry one.
    pub track: Option<u32>,
}

/// A regular file recognised as a music candidate, with the outcome of the
/// metadata extraction attempt. Records whose extraction failed
/// (`music_metadata` is `None`) exist only transiently: they are filtered out
/// before a directory snapshot is assembled.
pub struct MusicFile {
    /// Full path of the file.
    pub path: Vec<u8>,
    /// File name (the last path component), unique within its directory.
    pub name: Vec<u8>,
    /// The extracted tags, or `None` when extraction failed.
    pub music_metadata: Option<MusicMetadata>,
}

/// One number past the largest `u32`: the sort key of a record without a
/// track number, placing it after every numbered track.
pub const NO_TRACK_KEY: u64 = 4294967296;

/// Numeric component of the sort key: the track number when present, else a
/// value larger than every track number.
pub open spec fn track_key(m: MusicFile) -> int {
    match m.music_metadata {
        Some(md) => match md.track {
            Some(t) => t as int,
            None => NO_TRACK_KEY as int,
        },
        None => NO_TRACK_KEY as int,
    }
}

/// Textual component of the sort key: the tagged title when present, else the
/// file name.
pub open spec fn title_key(m: MusicFile) -> Seq<u8> {
    match m.music_metadata {
        Some(md) => match md.title {
            Some(t) => t@,
            None => m.name@,
        },
        None => m.name@,
    }
}

/// Three-valued comparison of two music file records: track number, then
/// title (or file name), then file name.
pub open spec fn music_cmp(a: MusicFile, b: MusicFile) -> int {
    if track_key(a) < track_key(b) {
        -1
    } else if track_key(a) > track_key(b) {
        1
    } else if bytes_cmp(title_key(a), title_key(b)) != 0 {
        bytes_cmp(title_key(a), title_key(b))
    } else {
        bytes_cmp(a.name@, b.name@)
    }
}

/// `a` sorts no later than `b`.
pub open spec fn music_le(a: MusicFile, b: MusicFile) -> bool {
    music_cmp(a, b) <= 0
}

/// The ordering is total: of any two records, one sorts no later than the
/// other.
pub proof fn lemma_music_order_total(a: MusicFile, b: MusicFile)
    ensures
        music_le(a, b) || music_le(b, a),
        music_cmp(b, a) == -music_cmp(a, b),
{
    lemma_bytes_cmp_flip(title_key(a), title_key(b));
    lemma_bytes_cmp_flip(a.name@, b.name@);
    lemma_bytes_cmp_range(title_key(a), title_key(b));
    lemma_bytes_cmp_range(a.name@, b.name@);
}

/// The ordering is antisymmetric up to file names: two records that each sort
/// no later than the other carry the same file name. Within one directory,
/// where file names are unique, no two distinct records compare equal.
pub proof fn lemma_music_order_antisymmetric(a: MusicFile, b: MusicFile)
    ensures
        music_le(a, b) && music_le(b, a) ==> a.name@ == b.name@,
        music_cmp(a, b) == 0 ==> a.name@ == b.name@,
{
    lemma_music_order_total(a, b);
    lemma_bytes_cmp_range(title_key(a), title_key(b));
    lemma_bytes_cmp_eq(a.name@, b.name@);
}

/// The ordering is transitive, and a strict step on either side keeps it
/// strict.
pub proof fn lemma_music_order_transitive(a: MusicFile, b: MusicFile, c: MusicFile)
    requires
        music_le(a, b),
        music_le(b, c),
    ensures
        music_le(a, c),
        music_cmp(a, b) < 0 || music_cmp(b, c) < 0 ==> music_cmp(a, c) < 0,
{
    lemma_bytes_cmp_range(title_key(a), title_key(b));
    lemma_bytes_cmp_range(title_key(b), title_key(c));
    lemma_bytes_cmp_range(title_key(a), title_key(c));
    lemma_bytes_cmp_range(a.name@, b.name@);
    lemma_bytes_cmp_range(b.name@, c.name@);
    lemma_bytes_cmp_range(a.name@, c.name@);
    if track_key(a) == track_key(b) && track_key(b) == track_key(c) {
        lemma_bytes_cmp_trans(title_key(a), title_key(b), title_key(c));
        lemma_bytes_cmp_eq(title_key(a), title_key(b));
        lemma_bytes_cmp_eq(title_key(b), title_key(c));
        if bytes_cmp(title_key(a), title_key(b)) == 0 && bytes_cmp(title_key(b), title_key(c))
            == 0 {
            lemma_bytes_cmp_trans(a.name@, b.name@, c.name@);
        }
    }
}

/// Numeric sort key, executable form.
fn track_key_exec(m: &MusicFile) -> (r: u64)
    ensures
        r as int == track_key(*m),
{
    match &m.music_metadata {
        Some(md) => match md.track {
            Some(t) => t as u64,
            None => NO_TRACK_KEY,
        },
        None => NO_TRACK_KEY,
    }
}

/// Textual sort key, executable form.
fn title_key_exec(m: &MusicFile) -> (r: &Vec<u8>)
    ensures
        r@ == title_key(*m),
{
    match &m.music_metadata {
        Some(md) => match &md.title {
            Some(t) => t,
            None => &m.name,
        },
        None => &m.name,
    }
}

impl MusicFile {
    /// Wrap a music candidate together with what the external metadata
    /// reader returned for it.
    pub fn new(path: Vec<u8>, name: Vec<u8>, music_metadata: Option<MusicMetadata>) -> (r:
        MusicFile)
        ensures
            r.path == path,
            r.name == name,
            r.music_metadata == music_metadata,
    {
        MusicFile { path, name, music_metadata }
    }

    /// Deterministic comparator for the per-directory track list: negative
    /// when `left` sorts before `right`, zero only when their sort keys agree
    /// entirely (which forces equal file names), positive when after.
    pub fn sort_func(left: &MusicFile, right: &MusicFile) -> (r: i32)
        ensures
            r as int == music_cmp(*left, *right),
            -1 <= r <= 1,
    {
        let ka = track_key_exec(left);
        let kb = track_key_exec(right);
        if ka < kb {
            return -1;
        }
        if ka > kb {
            return 1;
        }
        let t = cmp_bytes(title_key_exec(left), title_key_exec(right));
        if t != 0 {
            return t;
        }
        cmp_bytes(&left.name, &right.name)
    }
}

} // verus!
