//! Verified insertion sort for the per-directory track lists, under the
//! deterministic ordering of `music_file`.

use vstd::prelude::*;
use vstd::seq_lib::lemma_multiset_commutative;
use vstd::multiset::Multiset;

use crate::music_file::MusicFile;
use crate::music_file::music_cmp;
use crate::music_file::music_le;
use crate::music_file::lemma_music_order_total;
use crate::music_file::lemma_music_order_transitive;
use crate::music_file::lemma_music_order_antisymmetric;

verus! {

/// `x` placed before the first element of `s` that it sorts no later than.
pub open spec fn insert_sorted(x: MusicFile, s: Seq<MusicFile>) -> Seq<MusicFile>
    decreases s.len(),
{
    if s.len() == 0 {
        seq![x]
    } else if music_le(x, s[0]) {
        seq![x] + s
    } else {
        seq![s[0]] + insert_sorted(x, s.drop_first())
    }
}

/// Insertion sort, folding the input left to right.
pub open spec fn sort_spec(s: Seq<MusicFile>) -> Seq<MusicFile>
    decreases s.len(),
{
    if s.len() == 0 {
        s
    } else {
        insert_sorted(s.last(), sort_spec(s.drop_last()))
    }
}

/// The list is ordered under the music ordering.
pub open spec fn sorted_music(s: Seq<MusicFile>) -> bool {
    forall|i: int, j: int| 0 <= i < j < s.len() ==> music_le(s[i], s[j])
}

pub proof fn lemma_insert_sorted_len(x: MusicFile, s: Seq<MusicFile>)
    ensures
        insert_sorted(x, s).len() == s.len() + 1,
    decreases s.len(),
{
    if s.len() > 0 && !music_le(x, s[0]) {
        lemma_insert_sorted_len(x, s.drop_first());
    }
}

/// The elements of an insertion are the inserted one and those of the list.
pub proof fn lemma_insert_sorted_elems(x: MusicFile, s: Seq<MusicFile>)
    ensures
        forall|e: MusicFile|
            #[trigger] insert_sorted(x, s).contains(e) <==> (e == x || s.contains(e)),
    decreases s.len(),
{
    if s.len() == 0 {
        assert forall|e: MusicFile|
            #[trigger] insert_sorted(x, s).contains(e) <==> (e == x || s.contains(e)) by {
            if insert_sorted(x, s).contains(e) {
                let i = choose|i: int| 0 <= i < seq![x].len() && seq![x][i] == e;
                assert(e == x);
            }
            if e == x {
                assert(insert_sorted(x, s)[0] == e);
            }
        }
    } else if music_le(x, s[0]) {
        assert forall|e: MusicFile|
            #[trigger] insert_sorted(x, s).contains(e) <==> (e == x || s.contains(e)) by {
            let t = seq![x] + s;
            if t.contains(e) {
                let i = choose|i: int| 0 <= i < t.len() && t[i] == e;
                if i > 0 {
                    assert(s[i - 1] == e);
                }
            }
            if e == x {
                assert(t[0] == e);
            }
            if s.contains(e) {
                let i = choose|i: int| 0 <= i < s.len() && s[i] == e;
                assert(t[i + 1] == e);
            }
        }
    } else {
        lemma_insert_sorted_elems(x, s.drop_first());
        let rest = insert_sorted(x, s.drop_first());
        let t = seq![s[0]] + rest;
        assert forall|e: MusicFile| #[trigger] t.contains(e) <==> (e == x || s.contains(e)) by {
            if t.contains(e) {
                let i = choose|i: int| 0 <= i < t.len() && t[i] == e;
                if i == 0 {
                    assert(s[0] == e);
                } else {
                    assert(rest[i - 1] == e);
                    assert(rest.contains(e));
                }
            }
            if e == x {
                assert(rest.contains(e));
                let i = choose|i: int| 0 <= i < rest.len() && rest[i] == e;
                assert(t[i + 1] == e);
            }
            if s.contains(e) {
                let i = choose|i: int| 0 <= i < s.len() && s[i] == e;
                if i == 0 {
                    assert(t[0] == e);
                } else {
                    assert(s.drop_first()[i - 1] == e);
                    assert(rest.contains(e));
                    let k = choose|k: int| 0 <= k < rest.len() && rest[k] == e;
                    assert(t[k + 1] == e);
                }
            }
        }
    }
}

/// Inserting into an ordered list keeps it ordered.
pub proof fn lemma_insert_sorted_sorted(x: MusicFile, s: Seq<MusicFile>)
    requires
        sorted_music(s),
    ensures
        sorted_music(insert_sorted(x, s)),
    decreases s.len(),
{
    if s.len() == 0 {
    } else if music_le(x, s[0]) {
        let t = seq![x] + s;
        assert forall|i: int, j: int| 0 <= i < j < t.len() implies music_le(t[i], t[j]) by {
            if i == 0 {
                if j > 1 {
                    lemma_music_order_transitive(x, s[0], s[j - 1]);
                }
            }
        }
    } else {
        assert(sorted_music(s.drop_first()));
        lemma_insert_sorted_sorted(x, s.drop_first());
        lemma_insert_sorted_elems(x, s.drop_first());
        let rest = insert_sorted(x, s.drop_first());
        let t = seq![s[0]] + rest;
        assert forall|i: int, j: int| 0 <= i < j < t.len() implies music_le(t[i], t[j]) by {
            if i == 0 {
                let e = rest[j - 1];
                assert(rest.contains(e));
                if e == x {
                    lemma_music_order_total(x, s[0]);
                } else {
                    assert(s.drop_first().contains(e));
                    let k = choose|k: int| 0 <= k < s.drop_first().len() && s.drop_first()[k] == e;
                    assert(s[k + 1] == e);
                }
            }
        }
    }
}

/// The output of the sort is ordered.
pub proof fn lemma_sort_spec_sorted(s: Seq<MusicFile>)
    ensures
        sorted_music(sort_spec(s)),
    decreases s.len(),
{
    if s.len() > 0 {
        lemma_sort_spec_sorted(s.drop_last());
        lemma_insert_sorted_sorted(s.last(), sort_spec(s.drop_last()));
    }
}

pub proof fn lemma_insert_sorted_multiset(x: MusicFile, s: Seq<MusicFile>)
    ensures
        insert_sorted(x, s).to_multiset() =~= s.to_multiset().insert(x),
    decreases s.len(),
{
    broadcast use vstd::seq_lib::group_to_multiset_ensures;
    broadcast use vstd::multiset::group_multiset_axioms;

    if s.len() == 0 {
        assert(seq![x] =~= Seq::<MusicFile>::empty().push(x));
        assert(Seq::<MusicFile>::empty().push(x).to_multiset() =~= Seq::<
            MusicFile,
        >::empty().to_multiset().insert(x));
        assert(forall|e: MusicFile| !(#[trigger] Seq::<MusicFile>::empty().contains(e)));
        assert(Seq::<MusicFile>::empty().to_multiset() =~= Multiset::<MusicFile>::empty());
    } else if music_le(x, s[0]) {
        lemma_multiset_commutative(seq![x], s);
        assert(seq![x] =~= Seq::<MusicFile>::empty().push(x));
        assert(Seq::<MusicFile>::empty().to_multiset() =~= Multiset::<MusicFile>::empty());
        assert(seq![x].to_multiset() =~= Multiset::<MusicFile>::empty().insert(x));
        assert(Multiset::<MusicFile>::empty().insert(x).add(s.to_multiset()) =~= s.to_multiset().insert(
            x,
        ));
    } else {
        lemma_insert_sorted_multiset(x, s.drop_first());
        let rest = insert_sorted(x, s.drop_first());
        lemma_multiset_commutative(seq![s[0]], rest);
        lemma_multiset_commutative(seq![s[0]], s.drop_first());
        assert(seq![s[0]] + s.drop_first() =~= s);
        assert(seq![s[0]] =~= Seq::<MusicFile>::empty().push(s[0]));
        assert(Seq::<MusicFile>::empty().to_multiset() =~= Multiset::<MusicFile>::empty());
        assert(seq![s[0]].to_multiset() =~= Multiset::<MusicFile>::empty().insert(s[0]));
        assert((seq![s[0]] + rest).to_multiset() =~= seq![s[0]].to_multiset().add(
            rest.to_multiset(),
        ));
        assert(seq![s[0]].to_multiset().add(s.drop_first().to_multiset().insert(x)) =~= seq![
            s[0],
        ].to_multiset().add(s.drop_first().to_multiset()).insert(x));
    }
}

/// The sort permutes its input: output and input hold the same records, with
/// multiplicity.
pub proof fn lemma_sort_spec_multiset(s: Seq<MusicFile>)
    ensures
        sort_spec(s).to_multiset() =~= s.to_multiset(),
        sort_spec(s).len() == s.len(),
    decreases s.len(),
{
    broadcast use vstd::seq_lib::group_to_multiset_ensures;
    broadcast use vstd::multiset::group_multiset_axioms;

    if s.len() > 0 {
        lemma_sort_spec_multiset(s.drop_last());
        lemma_insert_sorted_multiset(s.last(), sort_spec(s.drop_last()));
        assert(s =~= s.drop_last().push(s.last()));
        assert(s.drop_last().push(s.last()).to_multiset() =~= s.drop_last().to_multiset().insert(
            s.last(),
        ));
        lemma_insert_sorted_len(s.last(), sort_spec(s.drop_last()));
    }
}

/// A record in the sorted output is a record of the input, and conversely.
pub proof fn lemma_sort_spec_elems(s: Seq<MusicFile>)
    ensures
        forall|e: MusicFile| #[trigger] sort_spec(s).contains(e) <==> s.contains(e),
{
    broadcast use vstd::seq_lib::group_to_multiset_ensures;
    broadcast use vstd::multiset::group_multiset_axioms;

    lemma_sort_spec_multiset(s);
    assert forall|e: MusicFile| #[trigger] sort_spec(s).contains(e) <==> s.contains(e) by {
        assert(sort_spec(s).to_multiset().count(e) == s.to_multiset().count(e));
    }
}

/// An element larger than the whole list is inserted at its end.
proof fn lemma_insert_sorted_append(x: MusicFile, s: Seq<MusicFile>)
    requires
        forall|j: int| 0 <= j < s.len() ==> music_cmp(x, #[trigger] s[j]) > 0,
    ensures
        insert_sorted(x, s) =~= s.push(x),
    decreases s.len(),
{
    if s.len() > 0 {
        assert(music_cmp(x, s[0]) > 0);
        lemma_insert_sorted_append(x, s.drop_first());
    }
}

/// Sorting an already-sorted list whose entries carry pairwise distinct file
/// names returns it unchanged: the sort is idempotent on snapshot track
/// lists, where file names are unique.
pub proof fn lemma_sort_spec_idempotent(s: Seq<MusicFile>)
    requires
        sorted_music(s),
        forall|i: int, j: int| 0 <= i < j < s.len() ==> #[trigger] s[i].name@ != #[trigger] s[j].name@,
    ensures
        sort_spec(s) =~= s,
    decreases s.len(),
{
    assert forall|i: int, j: int| 0 <= i < j < s.len() implies music_cmp(s[i], s[j]) < 0 by {
        lemma_music_order_total(s[i], s[j]);
        lemma_music_order_antisymmetric(s[i], s[j]);
    }
    if s.len() > 0 {
        lemma_sort_spec_idempotent(s.drop_last());
        assert forall|j: int| 0 <= j < s.drop_last().len() implies music_cmp(
            s.last(),
            #[trigger] s.drop_last()[j],
        ) > 0 by {
            assert(music_cmp(s[j], s.last()) < 0);
            lemma_music_order_total(s[j], s.last());
        }
        lemma_insert_sorted_append(s.last(), s.drop_last());
        assert(s.drop_last().push(s.last()) =~= s);
    }
}

/// Insert one record into an ordered vector, keeping it ordered.
fn insert_music(v: Vec<MusicFile>, x: MusicFile) -> (r: Vec<MusicFile>)
    ensures
        r@ == insert_sorted(x, v@),
{
    let mut v = v;
    let mut idx: usize = 0;
    while idx < v.len() && MusicFile::sort_func(&x, &v[idx]) > 0
        invariant
            0 <= idx <= v.len(),
            forall|j: int| 0 <= j < idx ==> music_cmp(x, #[trigger] v@[j]) > 0,
        decreases v.len() - idx,
    {
        idx = idx + 1;
    }
    proof {
        lemma_insert_sorted_at(x, v@, idx as int);
    }
    v.insert(idx, x);
    v
}

/// Where the scan stops is where the definition of `insert_sorted` puts the
/// new record.
proof fn lemma_insert_sorted_at(x: MusicFile, s: Seq<MusicFile>, idx: int)
    requires
        0 <= idx <= s.len(),
        forall|j: int| 0 <= j < idx ==> music_cmp(x, #[trigger] s[j]) > 0,
        idx < s.len() ==> music_cmp(x, s[idx]) <= 0,
    ensures
        insert_sorted(x, s) =~= s.insert(idx, x),
    decreases s.len(),
{
    if idx == 0 {
        if s.len() == 0 {
            assert(insert_sorted(x, s) =~= s.insert(0, x));
        } else {
            assert(music_le(x, s[0]));
        }
    } else {
        assert(music_cmp(x, s[0]) > 0);
        lemma_insert_sorted_at(x, s.drop_first(), idx - 1);
        assert(seq![s[0]] + s.drop_first().insert(idx - 1, x) =~= s.insert(idx, x));
    }
}

/// Sort a vector of music file records by the deterministic track ordering.
/// The result is exactly the insertion sort of the input; in particular it is
/// ordered and a permutation of the input.
pub fn sort_music_files(v: Vec<MusicFile>) -> (r: Vec<MusicFile>)
    ensures
        r@ == sort_spec(v@),
        sorted_music(r@),
        r@.to_multiset() == v@.to_multiset(),
        r@.len() == v@.len(),
{
    let ghost orig: Seq<MusicFile> = v@;
    let mut rest = v;
    let mut r: Vec<MusicFile> = Vec::new();
    proof {
        assert(orig.skip(0) =~= rest@);
        assert(orig.take(0) =~= Seq::<MusicFile>::empty());
    }
    while rest.len() > 0
        invariant
            rest@.len() <= orig.len(),
            r@ == sort_spec(orig.take(orig.len() - rest@.len())),
            orig.skip(orig.len() - rest@.len()) =~= rest@,
        decreases rest.len(),
    {
        let ghost k = orig.len() - rest@.len();
        proof {
            assert(orig.skip(k)[0] == orig[k]);
        }
        let x = rest.remove(0);
        proof {
            assert(x == orig[k]);
            assert(orig.take(k + 1).drop_last() =~= orig.take(k));
            assert(orig.take(k + 1).last() == orig[k]);
            assert(orig.skip(k).drop_first() =~= orig.skip(k + 1));
        }
        r = insert_music(r, x);
    }
    proof {
        assert(orig.take(orig.len() as int) =~= orig);
        lemma_sort_spec_sorted(orig);
        lemma_sort_spec_multiset(orig);
    }
    r
}

} // verus!
