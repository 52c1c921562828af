//! Directory snapshots: for one directory, the partitioned, sorted file
//! lists, with derived consistency facts over the music files; and the
//! functions that build the snapshots for a whole traversal.
//!
//! All filesystem reading happens outside this crate. The caller hands in,
//! per directory, the immediate children as plain records: name, path,
//! whether the entry is a regular file, and what the external metadata
//! reader returned for it. This module classifies, filters, sorts and
//! assembles, and every step is specified.

use vstd::prelude::*;

use crate::music_file::MusicFile;
use crate::music_file::MusicMetadata;
use crate::ordinary_file::OrdinaryFile;
use crate::util::is_music_file;
use crate::util::is_music_name;

verus! {

/// One immediate child of a directory, as read by the caller. `tag` holds
/// what the external metadata reader returned for the file, when it was
/// asked; it is only consulted for entries that classify as music.
pub struct FileEntry {
    /// Full path of the entry.
    pub path: Vec<u8>,
    /// Entry name (the last path component), unique within the directory.
    pub name: Vec<u8>,
    /// Whether the entry is a regular file; directories and special files
    /// never enter a snapshot.
    pub is_regular: bool,
    /// The extracted tags, or `None` when extraction failed or was not
    /// attempted.
    pub tag: Option<MusicMetadata>,
}

/// A regular music-classified file whose metadata extraction succeeded: it
/// survives into the snapshot.
pub open spec fn is_kept_music(c: FileEntry) -> bool {
    c.is_regular && is_music_name(c.name@) && c.tag is Some
}

/// A regular file the classifier rejected: it lands in the ordinary list.
pub open spec fn is_ordinary(c: FileEntry) -> bool {
    c.is_regular && !is_music_name(c.name@)
}

/// The music file record a kept child becomes.
pub open spec fn music_record_of(c: FileEntry) -> MusicFile {
    MusicFile { path: c.path, name: c.name, music_metadata: c.tag }
}

/// The ordinary file record a rejected child becomes.
pub open spec fn ordinary_record_of(c: FileEntry) -> OrdinaryFile {
    OrdinaryFile { path: c.path, name: c.name }
}

/// The music file records of a directory's children, in reading order:
/// regular files that classify as music and whose metadata extraction
/// succeeded.
pub open spec fn kept_music(cs: Seq<FileEntry>) -> Seq<MusicFile>
    decreases cs.len(),
{
    if cs.len() == 0 {
        Seq::empty()
    } else if is_kept_music(cs.last()) {
        kept_music(cs.drop_last()).push(music_record_of(cs.last()))
    } else {
        kept_music(cs.drop_last())
    }
}

/// The ordinary file records of a directory's children, in reading order.
pub open spec fn ordinary_files_of(cs: Seq<FileEntry>) -> Seq<OrdinaryFile>
    decreases cs.len(),
{
    if cs.len() == 0 {
        Seq::empty()
    } else if is_ordinary(cs.last()) {
        ordinary_files_of(cs.drop_last()).push(ordinary_record_of(cs.last()))
    } else {
        ordinary_files_of(cs.drop_last())
    }
}

/// A directory qualifies for a snapshot exactly when at least one of its
/// regular files classifies as music and kept its metadata.
pub proof fn lemma_kept_music_exists(cs: Seq<FileEntry>)
    ensures
        kept_music(cs).len() > 0 <==> exists|i: int|
            0 <= i < cs.len() && is_kept_music(#[trigger] cs[i]),
    decreases cs.len(),
{
    if cs.len() > 0 {
        lemma_kept_music_exists(cs.drop_last());
        if is_kept_music(cs.last()) {
            assert(is_kept_music(cs[cs.len() - 1]));
        } else {
            if kept_music(cs.drop_last()).len() > 0 {
                let i = choose|i: int|
                    0 <= i < cs.drop_last().len() && is_kept_music(#[trigger] cs.drop_last()[i]);
                assert(is_kept_music(cs[i]));
            }
            if exists|i: int| 0 <= i < cs.len() && is_kept_music(#[trigger] cs[i]) {
                let i = choose|i: int| 0 <= i < cs.len() && is_kept_music(#[trigger] cs[i]);
                assert(i < cs.len() - 1);
                assert(is_kept_music(cs.drop_last()[i]));
            }
        }
    }
}

/// `m` stems from one of the children: a kept music file.
pub open spec fn music_from(cs: Seq<FileEntry>, m: MusicFile) -> bool {
    exists|i: int| 0 <= i < cs.len() && is_kept_music(#[trigger] cs[i]) && m == music_record_of(cs[i])
}

/// `o` stems from one of the children: a regular file the classifier
/// rejected.
pub open spec fn ordinary_from(cs: Seq<FileEntry>, o: OrdinaryFile) -> bool {
    exists|i: int| 0 <= i < cs.len() && is_ordinary(#[trigger] cs[i]) && o == ordinary_record_of(cs[i])
}

/// Where every record of the two lists comes from: each music record stems
/// from a kept child, each ordinary record from a regular child the
/// classifier rejected. In particular every music record carries metadata.
pub proof fn lemma_records_provenance(cs: Seq<FileEntry>)
    ensures
        forall|k: int|
            0 <= k < kept_music(cs).len() ==> music_from(cs, #[trigger] kept_music(cs)[k]),
        forall|k: int|
            0 <= k < ordinary_files_of(cs).len() ==> ordinary_from(
                cs,
                #[trigger] ordinary_files_of(cs)[k],
            ),
    decreases cs.len(),
{
    if cs.len() > 0 {
        lemma_records_provenance(cs.drop_last());
        assert forall|k: int| 0 <= k < kept_music(cs).len() implies music_from(
            cs,
            #[trigger] kept_music(cs)[k],
        ) by {
            if k < kept_music(cs.drop_last()).len() {
                assert(kept_music(cs)[k] == kept_music(cs.drop_last())[k]);
                let i = choose|i: int|
                    0 <= i < cs.drop_last().len() && is_kept_music(#[trigger] cs.drop_last()[i])
                        && kept_music(cs.drop_last())[k] == music_record_of(cs.drop_last()[i]);
                assert(cs.drop_last()[i] == cs[i]);
                assert(is_kept_music(cs[i]) && kept_music(cs)[k] == music_record_of(cs[i]));
            } else {
                assert(is_kept_music(cs.last()));
                let i = cs.len() - 1;
                assert(is_kept_music(cs[i]) && kept_music(cs)[k] == music_record_of(cs[i]));
            }
        }
        assert forall|k: int| 0 <= k < ordinary_files_of(cs).len() implies ordinary_from(
            cs,
            #[trigger] ordinary_files_of(cs)[k],
        ) by {
            if k < ordinary_files_of(cs.drop_last()).len() {
                assert(ordinary_files_of(cs)[k] == ordinary_files_of(cs.drop_last())[k]);
                let i = choose|i: int|
                    0 <= i < cs.drop_last().len() && is_ordinary(#[trigger] cs.drop_last()[i])
                        && ordinary_files_of(cs.drop_last())[k] == ordinary_record_of(
                        cs.drop_last()[i],
                    );
                assert(cs.drop_last()[i] == cs[i]);
                assert(is_ordinary(cs[i]) && ordinary_files_of(cs)[k] == ordinary_record_of(cs[i]));
            } else {
                assert(is_ordinary(cs.last()));
                let i = cs.len() - 1;
                assert(is_ordinary(cs[i]) && ordinary_files_of(cs)[k] == ordinary_record_of(cs[i]));
            }
        }
    }
}

/// What holds of the two lists of every snapshot: each record of the sorted
/// music list stems from a kept child — a regular file that classifies as
/// music — and carries metadata; each record of the ordinary list stems from
/// a regular file the classifier rejected.
pub proof fn lemma_snapshot_lists(cs: Seq<FileEntry>)
    ensures
        forall|e: MusicFile|
            #[trigger] crate::sort::sort_spec(kept_music(cs)).contains(e) ==> music_from(cs, e)
                && e.music_metadata is Some,
        forall|k: int|
            0 <= k < ordinary_files_of(cs).len() ==> ordinary_from(
                cs,
                #[trigger] ordinary_files_of(cs)[k],
            ),
{
    lemma_records_provenance(cs);
    crate::sort::lemma_sort_spec_elems(kept_music(cs));
    assert forall|e: MusicFile|
        #[trigger] crate::sort::sort_spec(kept_music(cs)).contains(e) implies music_from(cs, e)
        && e.music_metadata is Some by {
        assert(kept_music(cs).contains(e));
        let k = choose|k: int| 0 <= k < kept_music(cs).len() && kept_music(cs)[k] == e;
        assert(music_from(cs, kept_music(cs)[k]));
        let i = choose|i: int|
            0 <= i < cs.len() && is_kept_music(#[trigger] cs[i]) && e == music_record_of(cs[i]);
        assert(e.music_metadata == cs[i].tag);
    }
}

/// The per-directory classified result: the directory's path and its
/// partitioned file lists. The music list is sorted and non-empty, and every
/// record in it carries metadata; directories that would yield an empty
/// music list are discarded upstream.
pub struct DirContents {
    /// Path of the directory.
    pub path: Vec<u8>,
    /// The contained music files, sorted by the deterministic track order.
    pub music_files: Vec<MusicFile>,
    /// The contained other regular files.
    pub ordinary_files: Vec<OrdinaryFile>,
}

impl DirContents {
    /// Classify one directory's immediate children. Regular files are
    /// partitioned by the music classifier; music candidates without
    /// extracted metadata are dropped; if no music file remains the whole
    /// directory is discarded (`None`), else the surviving music files are
    /// sorted and the snapshot assembled.
    pub fn new(dir_path: Vec<u8>, children: Vec<FileEntry>) -> (r: Option<DirContents>)
        ensures
            r is Some <==> kept_music(children@).len() > 0,
            r is Some ==> r.unwrap().path == dir_path,
            r is Some ==> r.unwrap().music_files@ == crate::sort::sort_spec(kept_music(children@)),
            r is Some ==> r.unwrap().ordinary_files@ == ordinary_files_of(children@),
            r is Some ==> r.unwrap().music_files@.len() > 0 && crate::sort::sorted_music(
                r.unwrap().music_files@,
            ),
    {
        let ghost orig: Seq<FileEntry> = children@;
        let mut rest = children;
        let mut music: Vec<MusicFile> = Vec::new();
        let mut ordinary: Vec<OrdinaryFile> = Vec::new();
        proof {
            assert(orig.skip(0) =~= rest@);
            assert(orig.take(0) =~= Seq::<FileEntry>::empty());
        }
        while rest.len() > 0
            invariant
                rest@.len() <= orig.len(),
                orig.skip(orig.len() - rest@.len()) =~= rest@,
                music@ == kept_music(orig.take(orig.len() - rest@.len())),
                ordinary@ == ordinary_files_of(orig.take(orig.len() - rest@.len())),
            decreases rest.len(),
        {
            let ghost k = orig.len() - rest@.len();
            proof {
                assert(orig.skip(k)[0] == orig[k]);
            }
            let c = rest.remove(0);
            let ghost c0 = c;
            proof {
                assert(c0 == orig[k]);
                assert(orig.take(k + 1).drop_last() =~= orig.take(k));
                assert(orig.take(k + 1).last() == orig[k]);
                assert(orig.skip(k).drop_first() =~= orig.skip(k + 1));
            }
            let FileEntry { path, name, is_regular, tag } = c;
            if is_regular {
                if is_music_file(&name) {
                    match tag {
                        Some(md) => {
                            music.push(
                                MusicFile { path, name, music_metadata: Some(md) },
                            );
                            proof {
                                assert(music@.last() == music_record_of(c0));
                            }
                        },
                        None => {},
                    }
                } else {
                    ordinary.push(OrdinaryFile { path, name });
                    proof {
                        assert(ordinary@.last() == ordinary_record_of(c0));
                    }
                }
            }
        }
        proof {
            assert(orig.take(orig.len() as int) =~= orig);
        }
        if music.len() == 0 {
            None
        } else {
            let sorted = crate::sort::sort_music_files(music);
            proof {
                crate::sort::lemma_sort_spec_multiset(kept_music(orig));
            }
            Some(DirContents { path: dir_path, music_files: sorted, ordinary_files: ordinary })
        }
    }
}

/// The album values of the music files that carry metadata, in list order.
pub open spec fn albums_of(ms: Seq<MusicFile>) -> Seq<Vec<u8>>
    decreases ms.len(),
{
    if ms.len() == 0 {
        Seq::empty()
    } else if ms.last().music_metadata is Some {
        albums_of(ms.drop_last()).push(ms.last().music_metadata.unwrap().album)
    } else {
        albums_of(ms.drop_last())
    }
}

/// The artist values of the music files that carry metadata, in list order.
pub open spec fn artists_of(ms: Seq<MusicFile>) -> Seq<Vec<u8>>
    decreases ms.len(),
{
    if ms.len() == 0 {
        Seq::empty()
    } else if ms.last().music_metadata is Some {
        artists_of(ms.drop_last()).push(ms.last().music_metadata.unwrap().artist)
    } else {
        artists_of(ms.drop_last())
    }
}

/// All values of the list are byte-for-byte identical.
pub open spec fn all_same(vs: Seq<Vec<u8>>) -> bool {
    forall|k: int| 0 <= k < vs.len() ==> #[trigger] vs[k]@ == vs[0]@
}

/// How `all_same` evolves when one more value arrives.
proof fn lemma_all_same_push(a: Seq<Vec<u8>>, v: Vec<u8>)
    ensures
        a.len() == 0 ==> all_same(a.push(v)),
        a.len() > 0 ==> (all_same(a.push(v)) <==> all_same(a) && v@ == a[0]@),
        a.push(v)[0] == if a.len() > 0 { a[0] } else { v },
{
    let b = a.push(v);
    if a.len() == 0 {
        assert(b.len() == 1);
        assert(forall|k: int| 0 <= k < b.len() ==> #[trigger] b[k]@ == b[0]@);
    } else {
        assert(b[0] == a[0]);
        if all_same(a) && v@ == a[0]@ {
            assert forall|k: int| 0 <= k < b.len() implies #[trigger] b[k]@ == b[0]@ by {
                if k < a.len() {
                    assert(a[k]@ == a[0]@);
                } else {
                    assert(b[k] == v);
                }
            }
        }
        if all_same(b) {
            assert forall|k: int| 0 <= k < a.len() implies #[trigger] a[k]@ == a[0]@ by {
                assert(b[k]@ == b[0]@);
            }
            assert(b[a.len() as int]@ == b[0]@);
        }
    }
}

impl DirContents {
    /// The album title shared by every music file of the directory:
    /// `Some` of the common value when at least one file carries metadata
    /// and all album strings are identical (exact, case-sensitive
    /// comparison); `None` when there is no metadata at all or any two
    /// albums differ.
    pub fn same_album_title(&self) -> (r: Option<&Vec<u8>>)
        ensures
            r is Some <==> albums_of(self.music_files@).len() > 0 && all_same(
                albums_of(self.music_files@),
            ),
            r is Some ==> r.unwrap()@ == albums_of(self.music_files@)[0]@,
    {
        let ghost ms = self.music_files@;
        let mut first: Option<&Vec<u8>> = None;
        let mut ok: bool = true;
        let mut i: usize = 0;
        proof {
            assert(ms.take(0) =~= Seq::<MusicFile>::empty());
        }
        while i < self.music_files.len()
            invariant
                0 <= i <= ms.len(),
                ms == self.music_files@,
                first is None ==> albums_of(ms.take(i as int)).len() == 0 && ok,
                first matches Some(f) ==> albums_of(ms.take(i as int)).len() > 0 && f@
                    == albums_of(ms.take(i as int))[0]@ && (ok <==> all_same(
                    albums_of(ms.take(i as int)),
                )),
            decreases ms.len() - i,
        {
            proof {
                assert(ms.take(i + 1).drop_last() =~= ms.take(i as int));
                assert(ms.take(i + 1).last() == ms[i as int]);
            }
            match self.music_files[i].music_metadata.as_ref() {
                Some(md) => {
                    match first {
                        None => {
                            first = Some(&md.album);
                        },
                        Some(f) => {
                            if !crate::bytes::eq_bytes(f, &md.album) {
                                ok = false;
                            }
                        },
                    }
                },
                None => {},
            }
            proof {
                let pfx = ms.take(i as int);
                let nxt = ms.take(i + 1);
                assert(nxt.drop_last() =~= pfx);
                assert(nxt.last() == ms[i as int]);
                if ms[i as int].music_metadata is None {
                    assert(albums_of(nxt) == albums_of(pfx));
                } else {
                    let v = ms[i as int].music_metadata.unwrap().album;
                    assert(albums_of(nxt) == albums_of(pfx).push(v));
                    lemma_all_same_push(albums_of(pfx), v);
                }
            }
            i = i + 1;
        }
        proof {
            assert(ms.take(ms.len() as int) =~= ms);
        }
        match first {
            None => None,
            Some(f) => {
                if ok {
                    Some(f)
                } else {
                    None
                }
            },
        }
    }

    /// Whether the whole directory has the same artist on every music file:
    /// true only when at least one music file carries metadata and all
    /// artist strings are identical; false both when there is no metadata
    /// at all and when artists disagree.
    pub fn same_artists(&self) -> (r: bool)
        ensures
            r == (artists_of(self.music_files@).len() > 0 && all_same(
                artists_of(self.music_files@),
            )),
    {
        let ghost ms = self.music_files@;
        let mut first: Option<&Vec<u8>> = None;
        let mut ok: bool = true;
        let mut i: usize = 0;
        proof {
            assert(ms.take(0) =~= Seq::<MusicFile>::empty());
        }
        while i < self.music_files.len()
            invariant
                0 <= i <= ms.len(),
                ms == self.music_files@,
                first is None ==> artists_of(ms.take(i as int)).len() == 0 && ok,
                first matches Some(f) ==> artists_of(ms.take(i as int)).len() > 0 && f@
                    == artists_of(ms.take(i as int))[0]@ && (ok <==> all_same(
                    artists_of(ms.take(i as int)),
                )),
            decreases ms.len() - i,
        {
            proof {
                assert(ms.take(i + 1).drop_last() =~= ms.take(i as int));
                assert(ms.take(i + 1).last() == ms[i as int]);
            }
            match self.music_files[i].music_metadata.as_ref() {
                Some(md) => {
                    match first {
                        None => {
                            first = Some(&md.artist);
                        },
                        Some(f) => {
                            if !crate::bytes::eq_bytes(f, &md.artist) {
                                ok = false;
                            }
                        },
                    }
                },
                None => {},
            }
            proof {
                let pfx = ms.take(i as int);
                let nxt = ms.take(i + 1);
                assert(nxt.drop_last() =~= pfx);
                assert(nxt.last() == ms[i as int]);
                if ms[i as int].music_metadata is None {
                    assert(artists_of(nxt) == artists_of(pfx));
                } else {
                    let v = ms[i as int].music_metadata.unwrap().artist;
                    assert(artists_of(nxt) == artists_of(pfx).push(v));
                    lemma_all_same_push(artists_of(pfx), v);
                }
            }
            i = i + 1;
        }
        proof {
            assert(ms.take(ms.len() as int) =~= ms);
        }
        match first {
            None => false,
            Some(_) => ok,
        }
    }
}

/// One event of the recursive walk, as the caller's traversal produced it:
/// an entry that was reached, or a failure (permission denied, I/O error,
/// symlink loop) on some subtree.
pub enum WalkEvent {
    /// An entry the walk reached.
    Entry { path: Vec<u8>, is_dir: bool },
    /// A failure during traversal, with its diagnostic message.
    Failure { message: Vec<u8> },
}

/// The directory paths among the traversal events, in traversal order.
pub open spec fn traversal_dirs(es: Seq<WalkEvent>) -> Seq<Vec<u8>>
    decreases es.len(),
{
    if es.len() == 0 {
        Seq::empty()
    } else {
        match es.last() {
            WalkEvent::Entry { path, is_dir } => if is_dir {
                traversal_dirs(es.drop_last()).push(path)
            } else {
                traversal_dirs(es.drop_last())
            },
            WalkEvent::Failure { .. } => traversal_dirs(es.drop_last()),
        }
    }
}

/// The diagnostic messages of the failed subtrees, in traversal order.
pub open spec fn traversal_diags(es: Seq<WalkEvent>) -> Seq<Vec<u8>>
    decreases es.len(),
{
    if es.len() == 0 {
        Seq::empty()
    } else {
        match es.last() {
            WalkEvent::Entry { .. } => traversal_diags(es.drop_last()),
            WalkEvent::Failure { message } => traversal_diags(es.drop_last()).push(message),
        }
    }
}

/// Sift the events of a recursive walk: keep every directory that the walk
/// reached, in traversal order, and turn every traversal failure into a
/// diagnostic line. A failed subtree thus never aborts the scan: its
/// siblings' events follow and are kept.
pub fn get_list_of_dirs(events: Vec<WalkEvent>) -> (r: (Vec<Vec<u8>>, Vec<Vec<u8>>))
    ensures
        r.0@ == traversal_dirs(events@),
        r.1@ == traversal_diags(events@),
{
    let ghost orig: Seq<WalkEvent> = events@;
    let mut rest = events;
    let mut dirs: Vec<Vec<u8>> = Vec::new();
    let mut diags: Vec<Vec<u8>> = Vec::new();
    proof {
        assert(orig.skip(0) =~= rest@);
        assert(orig.take(0) =~= Seq::<WalkEvent>::empty());
    }
    while rest.len() > 0
        invariant
            rest@.len() <= orig.len(),
            orig.skip(orig.len() - rest@.len()) =~= rest@,
            dirs@ == traversal_dirs(orig.take(orig.len() - rest@.len())),
            diags@ == traversal_diags(orig.take(orig.len() - rest@.len())),
        decreases rest.len(),
    {
        let ghost k = orig.len() - rest@.len();
        proof {
            assert(orig.skip(k)[0] == orig[k]);
        }
        let e = rest.remove(0);
        let ghost e0 = e;
        proof {
            assert(e0 == orig[k]);
            assert(orig.take(k + 1).drop_last() =~= orig.take(k));
            assert(orig.take(k + 1).last() == orig[k]);
            assert(orig.skip(k).drop_first() =~= orig.skip(k + 1));
        }
        match e {
            WalkEvent::Entry { path, is_dir } => {
                if is_dir {
                    dirs.push(path);
                }
            },
            WalkEvent::Failure { message } => {
                diags.push(message);
            },
        }
    }
    proof {
        assert(orig.take(orig.len() as int) =~= orig);
    }
    (dirs, diags)
}

/// Sifting traversal events is compositional: what one stretch of the walk
/// contributes is independent of what came before it. In particular a
/// failure event adds its diagnostic and nothing else — the events of
/// sibling subtrees after it still contribute their directories.
pub proof fn lemma_traversal_concat(a: Seq<WalkEvent>, b: Seq<WalkEvent>)
    ensures
        traversal_dirs(a + b) == traversal_dirs(a) + traversal_dirs(b),
        traversal_diags(a + b) == traversal_diags(a) + traversal_diags(b),
    decreases b.len(),
{
    if b.len() == 0 {
        assert(a + b =~= a);
        assert(traversal_dirs(a) + traversal_dirs(b) =~= traversal_dirs(a));
        assert(traversal_diags(a) + traversal_diags(b) =~= traversal_diags(a));
    } else {
        lemma_traversal_concat(a, b.drop_last());
        assert((a + b).drop_last() =~= a + b.drop_last());
        assert((a + b).last() == b.last());
        match b.last() {
            WalkEvent::Entry { path, is_dir } => {
                if is_dir {
                    assert((traversal_dirs(a) + traversal_dirs(b.drop_last())).push(path)
                        =~= traversal_dirs(a) + traversal_dirs(b.drop_last()).push(path));
                }
            },
            WalkEvent::Failure { message } => {
                assert((traversal_diags(a) + traversal_diags(b.drop_last())).push(message)
                    =~= traversal_diags(a) + traversal_diags(b.drop_last()).push(message));
            },
        }
    }
}

/// One directory of the traversal together with its immediate children, or
/// `None` when listing the directory's children failed: such a directory is
/// silently dropped from the results.
pub struct DirListing {
    /// Path of the directory.
    pub path: Vec<u8>,
    /// Its immediate children, or `None` when the directory read failed.
    pub children: Option<Vec<FileEntry>>,
}

/// A listing that yields a snapshot: its children could be read and at
/// least one of them is a kept music file.
pub open spec fn listing_kept(l: DirListing) -> bool {
    l.children is Some && kept_music(l.children.unwrap()@).len() > 0
}

/// The listings that yield snapshots, in traversal order.
pub open spec fn kept_listings(ls: Seq<DirListing>) -> Seq<DirListing>
    decreases ls.len(),
{
    if ls.len() == 0 {
        Seq::empty()
    } else if listing_kept(ls.last()) {
        kept_listings(ls.drop_last()).push(ls.last())
    } else {
        kept_listings(ls.drop_last())
    }
}

/// The snapshot `d` is the classified form of the listing `l`.
pub open spec fn snapshot_matches(d: DirContents, l: DirListing) -> bool {
    &&& d.path == l.path
    &&& d.music_files@ == crate::sort::sort_spec(kept_music(l.children.unwrap()@))
    &&& d.ordinary_files@ == ordinary_files_of(l.children.unwrap()@)
}

/// A listing yields a snapshot exactly when its children could be read and
/// at least one of them is a regular file that classifies as music and
/// whose metadata extraction succeeded.
pub proof fn lemma_listing_kept_iff(l: DirListing)
    ensures
        listing_kept(l) <==> l.children is Some && exists|i: int|
            0 <= i < l.children.unwrap()@.len() && is_kept_music(
                #[trigger] l.children.unwrap()@[i],
            ),
{
    if l.children is Some {
        lemma_kept_music_exists(l.children.unwrap()@);
    }
}

/// Build the snapshots of a whole scan: one per listing whose children
/// could be read and that kept at least one music file, in traversal order.
/// Directories whose read failed, and directories without a surviving music
/// file, are dropped.
pub fn get_dirs_with_music(listings: Vec<DirListing>) -> (r: Vec<DirContents>)
    ensures
        r@.len() == kept_listings(listings@).len(),
        forall|k: int|
            0 <= k < r@.len() ==> snapshot_matches(#[trigger] r@[k], kept_listings(listings@)[k]),
{
    let ghost orig: Seq<DirListing> = listings@;
    let mut rest = listings;
    let mut out: Vec<DirContents> = Vec::new();
    proof {
        assert(orig.skip(0) =~= rest@);
        assert(orig.take(0) =~= Seq::<DirListing>::empty());
    }
    while rest.len() > 0
        invariant
            rest@.len() <= orig.len(),
            orig.skip(orig.len() - rest@.len()) =~= rest@,
            out@.len() == kept_listings(orig.take(orig.len() - rest@.len())).len(),
            forall|k: int|
                0 <= k < out@.len() ==> snapshot_matches(
                    #[trigger] out@[k],
                    kept_listings(orig.take(orig.len() - rest@.len()))[k],
                ),
        decreases rest.len(),
    {
        let ghost k = orig.len() - rest@.len();
        proof {
            assert(orig.skip(k)[0] == orig[k]);
        }
        let l = rest.remove(0);
        let ghost l0 = l;
        proof {
            assert(l0 == orig[k]);
            assert(orig.take(k + 1).drop_last() =~= orig.take(k));
            assert(orig.take(k + 1).last() == orig[k]);
            assert(orig.skip(k).drop_first() =~= orig.skip(k + 1));
        }
        let DirListing { path, children } = l;
        match children {
            Some(cs) => {
                match DirContents::new(path, cs) {
                    Some(d) => {
                        proof {
                            assert(snapshot_matches(d, l0));
                        }
                        out.push(d);
                    },
                    None => {},
                }
            },
            None => {},
        }
    }
    proof {
        assert(orig.take(orig.len() as int) =~= orig);
    }
    out
}

} // verus!
