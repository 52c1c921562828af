//! The human-readable dump of a directory snapshot: the directory path,
//! the two counts, and one line per file. Diagnostics only, not meant for
//! machine parsing.

use vstd::prelude::*;

use crate::bytes::dec_digits;
use crate::bytes::push_arr;
use crate::bytes::push_vec;
use crate::bytes::u64_to_dec;
use crate::dir_contents::DirContents;
use crate::music_file::MusicFile;
use crate::ordinary_file::OrdinaryFile;

verus! {

/// The bytes of `"Directory Name: "`.
pub open spec fn lbl_dir_name() -> Seq<u8> {
    seq![68u8, 105u8, 114u8, 101u8, 99u8, 116u8, 111u8, 114u8, 121u8, 32u8, 78u8, 97u8, 109u8, 101u8, 58u8, 32u8]
}
/// The bytes of `"music files:    "`.
pub open spec fn lbl_music_count() -> Seq<u8> {
    seq![109u8, 117u8, 115u8, 105u8, 99u8, 32u8, 102u8, 105u8, 108u8, 101u8, 115u8, 58u8, 32u8, 32u8, 32u8, 32u8]
}
/// The bytes of `"ordinary files: "`.
pub open spec fn lbl_ordinary_count() -> Seq<u8> {
    seq![111u8, 114u8, 100u8, 105u8, 110u8, 97u8, 114u8, 121u8, 32u8, 102u8, 105u8, 108u8, 101u8, 115u8, 58u8, 32u8]
}
/// The bytes of `" entries\n"`.
pub open spec fn lbl_entries() -> Seq<u8> {
    seq![32u8, 101u8, 110u8, 116u8, 114u8, 105u8, 101u8, 115u8, 10u8]
}
/// The bytes of `"ordinary file:  "`.
pub open spec fn lbl_ordinary_file() -> Seq<u8> {
    seq![111u8, 114u8, 100u8, 105u8, 110u8, 97u8, 114u8, 121u8, 32u8, 102u8, 105u8, 108u8, 101u8, 58u8, 32u8, 32u8]
}
/// The bytes of `"music file:     "`.
pub open spec fn lbl_music_file() -> Seq<u8> {
    seq![109u8, 117u8, 115u8, 105u8, 99u8, 32u8, 102u8, 105u8, 108u8, 101u8, 58u8, 32u8, 32u8, 32u8, 32u8, 32u8]
}

/// One line per ordinary file, in list order.
pub open spec fn ordinary_lines(os: Seq<OrdinaryFile>) -> Seq<u8>
    decreases os.len(),
{
    if os.len() == 0 {
        Seq::empty()
    } else {
        ordinary_lines(os.drop_last()) + lbl_ordinary_file() + os.last().path@ + seq![10u8]
    }
}

/// One line per music file, in list order.
pub open spec fn music_lines(ms: Seq<MusicFile>) -> Seq<u8>
    decreases ms.len(),
{
    if ms.len() == 0 {
        Seq::empty()
    } else {
        music_lines(ms.drop_last()) + lbl_music_file() + ms.last().path@ + seq![10u8]
    }
}

/// The full dump: directory path, counts, then the per-file lines.
pub open spec fn dump_of(d: DirContents) -> Seq<u8> {
    lbl_dir_name() + d.path@ + seq![10u8] + lbl_music_count() + dec_digits(d.music_files@.len())
        + lbl_entries() + lbl_ordinary_count() + dec_digits(d.ordinary_files@.len())
        + lbl_entries() + ordinary_lines(d.ordinary_files@) + music_lines(d.music_files@)
}

impl DirContents {
    /// Render the snapshot as human-readable text, one fact per line.
    pub fn display_dump(&self) -> (r: Vec<u8>)
        ensures
            r@ == dump_of(*self),
    {
        let mut out: Vec<u8> = Vec::new();
        let dir_lbl: [u8; 16] = [68u8, 105u8, 114u8, 101u8, 99u8, 116u8, 111u8, 114u8, 121u8, 32u8, 78u8, 97u8, 109u8, 101u8, 58u8, 32u8];
        let music_lbl: [u8; 16] = [109u8, 117u8, 115u8, 105u8, 99u8, 32u8, 102u8, 105u8, 108u8, 101u8, 115u8, 58u8, 32u8, 32u8, 32u8, 32u8];
        let ordinary_lbl: [u8; 16] = [111u8, 114u8, 100u8, 105u8, 110u8, 97u8, 114u8, 121u8, 32u8, 102u8, 105u8, 108u8, 101u8, 115u8, 58u8, 32u8];
        let entries_lbl: [u8; 9] = [32u8, 101u8, 110u8, 116u8, 114u8, 105u8, 101u8, 115u8, 10u8];
        let ordinary_file_lbl: [u8; 16] = [111u8, 114u8, 100u8, 105u8, 110u8, 97u8, 114u8, 121u8, 32u8, 102u8, 105u8, 108u8, 101u8, 58u8, 32u8, 32u8];
        let music_file_lbl: [u8; 16] = [109u8, 117u8, 115u8, 105u8, 99u8, 32u8, 102u8, 105u8, 108u8, 101u8, 58u8, 32u8, 32u8, 32u8, 32u8, 32u8];
        proof {
            assert(dir_lbl@ =~= lbl_dir_name());
            assert(music_lbl@ =~= lbl_music_count());
            assert(ordinary_lbl@ =~= lbl_ordinary_count());
            assert(entries_lbl@ =~= lbl_entries());
            assert(ordinary_file_lbl@ =~= lbl_ordinary_file());
            assert(music_file_lbl@ =~= lbl_music_file());
        }
        push_arr(&mut out, &dir_lbl);
        push_vec(&mut out, &self.path);
        out.push(10u8);
        push_arr(&mut out, &music_lbl);
        let mc = u64_to_dec(self.music_files.len() as u64);
        push_vec(&mut out, &mc);
        push_arr(&mut out, &entries_lbl);
        push_arr(&mut out, &ordinary_lbl);
        let oc = u64_to_dec(self.ordinary_files.len() as u64);
        push_vec(&mut out, &oc);
        push_arr(&mut out, &entries_lbl);
        let ghost head = out@;
        proof {
            assert(head =~= lbl_dir_name() + self.path@ + seq![10u8] + lbl_music_count()
                + dec_digits(self.music_files@.len()) + lbl_entries() + lbl_ordinary_count()
                + dec_digits(self.ordinary_files@.len()) + lbl_entries());
            assert(out@ =~= head + ordinary_lines(self.ordinary_files@.take(0)));
        }
        let mut i: usize = 0;
        while i < self.ordinary_files.len()
            invariant
                0 <= i <= self.ordinary_files@.len(),
                dir_lbl@ == lbl_dir_name(),
                music_lbl@ == lbl_music_count(),
                ordinary_lbl@ == lbl_ordinary_count(),
                entries_lbl@ == lbl_entries(),
                ordinary_file_lbl@ == lbl_ordinary_file(),
                music_file_lbl@ == lbl_music_file(),
                out@ == head + ordinary_lines(self.ordinary_files@.take(i as int)),
            decreases self.ordinary_files@.len() - i,
        {
            push_arr(&mut out, &ordinary_file_lbl);
            push_vec(&mut out, &self.ordinary_files[i].path);
            out.push(10u8);
            proof {
                let os = self.ordinary_files@;
                assert(os.take(i + 1).drop_last() =~= os.take(i as int));
                assert(os.take(i + 1).last() == os[i as int]);
                assert(out@ =~= head + ordinary_lines(os.take(i + 1)));
            }
            i = i + 1;
        }
        let ghost mid = out@;
        proof {
            assert(self.ordinary_files@.take(self.ordinary_files@.len() as int)
                =~= self.ordinary_files@);
            assert(mid =~= mid + music_lines(self.music_files@.take(0)));
        }
        let mut j: usize = 0;
        while j < self.music_files.len()
            invariant
                0 <= j <= self.music_files@.len(),
                music_file_lbl@ == lbl_music_file(),
                out@ == mid + music_lines(self.music_files@.take(j as int)),
            decreases self.music_files@.len() - j,
        {
            push_arr(&mut out, &music_file_lbl);
            push_vec(&mut out, &self.music_files[j].path);
            out.push(10u8);
            proof {
                let ms = self.music_files@;
                assert(ms.take(j + 1).drop_last() =~= ms.take(j as int));
                assert(ms.take(j + 1).last() == ms[j as int]);
                assert(out@ =~= mid + music_lines(ms.take(j + 1)));
            }
            j = j + 1;
        }
        proof {
            assert(self.music_files@.take(self.music_files@.len() as int) =~= self.music_files@);
            assert(out@ =~= dump_of(*self));
        }
        out
    }
}

} // verus!
