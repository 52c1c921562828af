//! The music classifier: decides from the file extension whether a regular
//! file is a plausible music file. Total — an unrecognised or missing
//! extension simply classifies as "not music".

use vstd::prelude::*;

use crate::bytes::eq_bytes;

verus! {

/// ASCII lower-casing of one byte; other bytes pass through.
pub open spec fn ascii_lower(b: u8) -> u8 {
    if 65 <= b <= 90 {
        (b + 32) as u8
    } else {
        b
    }
}

/// ASCII lower-casing of a byte string.
pub open spec fn lower_seq(s: Seq<u8>) -> Seq<u8> {
    s.map_values(|b: u8| ascii_lower(b))
}

/// Index of the last `.` in `s`, if any.
pub open spec fn last_dot(s: Seq<u8>) -> Option<int>
    decreases s.len(),
{
    if s.len() == 0 {
        None
    } else if s.last() == 46 {
        Some(s.len() - 1)
    } else {
        last_dot(s.drop_last())
    }
}

/// The fixed allow-list of audio container extensions, lower-cased.
pub open spec fn is_music_ext(e: Seq<u8>) -> bool {
    ||| e == seq![109u8, 112u8, 51u8]  // mp3
    ||| e == seq![109u8, 112u8, 52u8]  // mp4
    ||| e == seq![109u8, 52u8, 97u8]  // m4a
    ||| e == seq![97u8, 97u8, 99u8]  // aac
    ||| e == seq![102u8, 108u8, 97u8, 99u8]  // flac
    ||| e == seq![111u8, 103u8, 103u8]  // ogg
    ||| e == seq![111u8, 112u8, 117u8, 115u8]  // opus
    ||| e == seq![119u8, 97u8, 118u8]  // wav
    ||| e == seq![119u8, 109u8, 97u8]  // wma
}

/// A file name classifies as music when the part after its last dot,
/// lower-cased, is a known audio extension.
pub open spec fn is_music_name(name: Seq<u8>) -> bool {
    match last_dot(name) {
        Some(d) => is_music_ext(lower_seq(name.skip(d + 1))),
        None => false,
    }
}

/// ASCII lower-casing of one byte, executable form.
fn lower_byte(b: u8) -> (r: u8)
    ensures
        r == ascii_lower(b),
{
    if 65 <= b && b <= 90 {
        b + 32
    } else {
        b
    }
}

/// Classify a regular file by its name: is it plausibly a music file?
pub fn is_music_file(name: &Vec<u8>) -> (r: bool)
    ensures
        r == is_music_name(name@),
{
    // Find the last dot.
    let mut dot: Option<usize> = None;
    let mut i: usize = 0;
    proof {
        assert(name@.take(0) =~= Seq::<u8>::empty());
    }
    while i < name.len()
        invariant
            0 <= i <= name.len(),
            match dot {
                Some(d) => 0 <= d < i && last_dot(name@.take(i as int)) == Some(d as int),
                None => last_dot(name@.take(i as int)) is None,
            },
        decreases name.len() - i,
    {
        proof {
            assert(name@.take(i + 1).drop_last() =~= name@.take(i as int));
            assert(name@.take(i + 1).last() == name@[i as int]);
        }
        if name[i] == 46 {
            dot = Some(i);
        }
        i = i + 1;
    }
    proof {
        assert(name@.take(name@.len() as int) =~= name@);
    }
    let d = match dot {
        Some(d) => d,
        None => {
            return false;
        },
    };
    // Lower-case the extension.
    let mut ext: Vec<u8> = Vec::new();
    let mut j: usize = d + 1;
    proof {
        assert(ext@ =~= lower_seq(name@.subrange(d + 1, d + 1)));
    }
    while j < name.len()
        invariant
            d < j <= name.len(),
            d < name.len(),
            ext@ == lower_seq(name@.subrange(d + 1, j as int)),
        decreases name.len() - j,
    {
        ext.push(lower_byte(name[j]));
        proof {
            assert(name@.subrange(d + 1, j + 1) =~= name@.subrange(d + 1, j as int).push(
                name@[j as int],
            ));
            assert(lower_seq(name@.subrange(d + 1, j + 1)) =~= lower_seq(
                name@.subrange(d + 1, j as int),
            ).push(ascii_lower(name@[j as int])));
        }
        j = j + 1;
    }
    proof {
        assert(name@.subrange(d + 1, name@.len() as int) =~= name@.skip(d + 1));
    }
    // Compare against the allow-list.
    let mp3: Vec<u8> = vec![109u8, 112u8, 51u8];
    let mp4: Vec<u8> = vec![109u8, 112u8, 52u8];
    let m4a: Vec<u8> = vec![109u8, 52u8, 97u8];
    let aac: Vec<u8> = vec![97u8, 97u8, 99u8];
    let flac: Vec<u8> = vec![102u8, 108u8, 97u8, 99u8];
    let ogg: Vec<u8> = vec![111u8, 103u8, 103u8];
    let opus: Vec<u8> = vec![111u8, 112u8, 117u8, 115u8];
    let wav: Vec<u8> = vec![119u8, 97u8, 118u8];
    let wma: Vec<u8> = vec![119u8, 109u8, 97u8];
    let r = eq_bytes(&ext, &mp3) || eq_bytes(&ext, &mp4) || eq_bytes(&ext, &m4a) || eq_bytes(
        &ext,
        &aac,
    ) || eq_bytes(&ext, &flac) || eq_bytes(&ext, &ogg) || eq_bytes(&ext, &opus) || eq_bytes(
        &ext,
        &wav,
    ) || eq_bytes(&ext, &wma);
    r
}

} // verus!
