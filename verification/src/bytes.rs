//! Byte-string primitives: paths, file names and tag values are held as raw
//! bytes, and the deterministic file ordering rests on a three-valued
//! lexicographic comparison defined here.

use vstd::prelude::*;

verus! {

/// Three-valued lexicographic comparison of byte strings:
/// -1 when `x` sorts before `y`, 0 when they are equal, 1 when after.
pub open spec fn bytes_cmp(x: Seq<u8>, y: Seq<u8>) -> int
    decreases x.len(),
{
    if x.len() == 0 && y.len() == 0 {
        0
    } else if x.len() == 0 {
        -1
    } else if y.len() == 0 {
        1
    } else if x[0] < y[0] {
        -1
    } else if x[0] > y[0] {
        1
    } else {
        bytes_cmp(x.drop_first(), y.drop_first())
    }
}

pub proof fn lemma_bytes_cmp_range(x: Seq<u8>, y: Seq<u8>)
    ensures
        -1 <= bytes_cmp(x, y) <= 1,
    decreases x.len(),
{
    if x.len() > 0 && y.len() > 0 && x[0] == y[0] {
        lemma_bytes_cmp_range(x.drop_first(), y.drop_first());
    }
}

/// The comparison is zero exactly on equal byte strings.
pub proof fn lemma_bytes_cmp_eq(x: Seq<u8>, y: Seq<u8>)
    ensures
        bytes_cmp(x, y) == 0 <==> x == y,
    decreases x.len(),
{
    if x.len() == 0 && y.len() == 0 {
        assert(x =~= y);
    } else if x.len() > 0 && y.len() > 0 && x[0] == y[0] {
        lemma_bytes_cmp_eq(x.drop_first(), y.drop_first());
        if bytes_cmp(x, y) == 0 {
            assert(x =~= seq![x[0]] + x.drop_first());
            assert(y =~= seq![y[0]] + y.drop_first());
        }
    }
}

/// Swapping the arguments flips the sign.
pub proof fn lemma_bytes_cmp_flip(x: Seq<u8>, y: Seq<u8>)
    ensures
        bytes_cmp(y, x) == -bytes_cmp(x, y),
    decreases x.len(),
{
    if x.len() > 0 && y.len() > 0 && x[0] == y[0] {
        lemma_bytes_cmp_flip(x.drop_first(), y.drop_first());
    }
}

/// Transitivity, in the form needed for sorting: a weak step preserves order,
/// and a strict step on either side keeps the order strict.
pub proof fn lemma_bytes_cmp_trans(x: Seq<u8>, y: Seq<u8>, z: Seq<u8>)
    requires
        bytes_cmp(x, y) <= 0,
        bytes_cmp(y, z) <= 0,
    ensures
        bytes_cmp(x, z) <= 0,
        bytes_cmp(x, y) < 0 || bytes_cmp(y, z) < 0 ==> bytes_cmp(x, z) < 0,
    decreases x.len() + y.len() + z.len(),
{
    lemma_bytes_cmp_range(x, y);
    lemma_bytes_cmp_range(y, z);
    lemma_bytes_cmp_range(x, z);
    if x.len() == 0 {
        if z.len() == 0 {
            if y.len() > 0 {
                // bytes_cmp(y, z) == 1, against the hypothesis
                assert(bytes_cmp(y, z) == 1);
            }
        }
    } else {
        // x is non-empty; y and z must be non-empty too, else a hypothesis fails
        assert(y.len() > 0);
        assert(z.len() > 0);
        if x[0] == y[0] && y[0] == z[0] {
            lemma_bytes_cmp_trans(x.drop_first(), y.drop_first(), z.drop_first());
        }
    }
}

/// Executable form of `bytes_cmp`, one byte at a time.
pub fn cmp_bytes(x: &Vec<u8>, y: &Vec<u8>) -> (r: i32)
    ensures
        r as int == bytes_cmp(x@, y@),
        -1 <= r <= 1,
{
    proof {
        lemma_bytes_cmp_range(x@, y@);
        assert(x@.skip(0) =~= x@);
        assert(y@.skip(0) =~= y@);
    }
    let mut i: usize = 0;
    while i < x.len() && i < y.len()
        invariant
            0 <= i <= x.len(),
            0 <= i <= y.len(),
            bytes_cmp(x@, y@) == bytes_cmp(x@.skip(i as int), y@.skip(i as int)),
        decreases x.len() - i,
    {
        let a = x[i];
        let b = y[i];
        proof {
            assert(x@.skip(i as int)[0] == x@[i as int]);
            assert(y@.skip(i as int)[0] == y@[i as int]);
        }
        if a < b {
            return -1;
        }
        if a > b {
            return 1;
        }
        proof {
            assert(x@.skip(i as int).drop_first() =~= x@.skip(i + 1));
            assert(y@.skip(i as int).drop_first() =~= y@.skip(i + 1));
        }
        i = i + 1;
    }
    proof {
        assert(x@.skip(i as int).len() == x@.len() - i);
        assert(y@.skip(i as int).len() == y@.len() - i);
    }
    if x.len() == y.len() {
        0
    } else if x.len() < y.len() {
        -1
    } else {
        1
    }
}

/// Equality test on byte strings.
pub fn eq_bytes(x: &Vec<u8>, y: &Vec<u8>) -> (r: bool)
    ensures
        r == (x@ == y@),
{
    proof {
        lemma_bytes_cmp_eq(x@, y@);
    }
    cmp_bytes(x, y) == 0
}

/// Decimal digits of `n`, most significant first.
pub open spec fn dec_digits(n: nat) -> Seq<u8>
    decreases n,
{
    if n < 10 {
        seq![(48 + n) as u8]
    } else {
        dec_digits(n / 10).push((48 + n % 10) as u8)
    }
}

/// Render `n` in decimal.
pub fn u64_to_dec(n: u64) -> (r: Vec<u8>)
    ensures
        r@ == dec_digits(n as nat),
    decreases n,
{
    if n < 10 {
        let mut v: Vec<u8> = Vec::new();
        v.push((48 + n) as u8);
        proof {
            assert(v@ =~= dec_digits(n as nat));
        }
        v
    } else {
        let mut v = u64_to_dec(n / 10);
        v.push((48 + n % 10) as u8);
        v
    }
}

/// Append a fixed byte pattern to a growing buffer.
pub fn push_arr<const N: usize>(dst: &mut Vec<u8>, src: &[u8; N])
    ensures
        final(dst)@ == old(dst)@ + src@,
{
    let ghost start = dst@;
    let mut i: usize = 0;
    while i < N
        invariant
            0 <= i <= N,
            dst@ == start + src@.take(i as int),
        decreases N - i,
    {
        dst.push(src[i]);
        proof {
            assert(start + src@.take(i + 1) =~= (start + src@.take(i as int)).push(src@[i as int]));
        }
        i = i + 1;
    }
    proof {
        assert(src@.take(N as int) =~= src@);
    }
}

/// Append an owned byte string to a growing buffer.
pub fn push_vec(dst: &mut Vec<u8>, src: &Vec<u8>)
    ensures
        final(dst)@ == old(dst)@ + src@,
{
    let ghost start = dst@;
    let mut i: usize = 0;
    while i < src.len()
        invariant
            0 <= i <= src.len(),
            dst@ == start + src@.take(i as int),
        decreases src.len() - i,
    {
        dst.push(src[i]);
        proof {
            assert(start + src@.take(i + 1) =~= (start + src@.take(i as int)).push(src@[i as int]));
        }
        i = i + 1;
    }
    proof {
        assert(src@.take(src@.len() as int) =~= src@);
    }
}

} // verus!

