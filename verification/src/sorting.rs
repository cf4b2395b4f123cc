//! Lexicographic order on strategy names and the stable sort that puts the
//! report's records in name order.

use crate::stats::Stats;
use vstd::prelude::*;
use vstd::string::StrSliceExecFns;

verus! {

/// Lexicographic order on character sequences, by code point. For UTF-8
/// encoded text this coincides with byte order.
pub open spec fn lex_le(a: Seq<char>, b: Seq<char>) -> bool
    decreases a.len(),
{
    if a.len() == 0 {
        true
    } else if b.len() == 0 {
        false
    } else if a[0] == b[0] {
        lex_le(a.drop_first(), b.drop_first())
    } else {
        (a[0] as u32) < (b[0] as u32)
    }
}

/// The order is total: any two sequences compare one way or the other.
pub proof fn lemma_lex_le_total(a: Seq<char>, b: Seq<char>)
    ensures
        lex_le(a, b) || lex_le(b, a),
    decreases a.len(),
{
    if a.len() > 0 && b.len() > 0 {
        if a[0] == b[0] {
            lemma_lex_le_total(a.drop_first(), b.drop_first());
        } else {
            vstd::utf8::char_u32_cast(a[0], a[0] as u32);
            vstd::utf8::char_u32_cast(b[0], b[0] as u32);
            assert((a[0] as u32) != (b[0] as u32));
        }
    }
}

/// The order is transitive.
pub proof fn lemma_lex_le_trans(a: Seq<char>, b: Seq<char>, c: Seq<char>)
    requires
        lex_le(a, b),
        lex_le(b, c),
    ensures
        lex_le(a, c),
    decreases a.len(),
{
    if a.len() > 0 && b.len() > 0 && c.len() > 0 {
        if a[0] == b[0] && b[0] == c[0] {
            lemma_lex_le_trans(a.drop_first(), b.drop_first(), c.drop_first());
        }
    }
}

/// Compares two strings in the order of [`lex_le`].
pub fn str_le(a: &str, b: &str) -> (r: bool)
    ensures
        r == lex_le(a@, b@),
{
    let alen = a.unicode_len();
    let blen = b.unicode_len();
    let mut i: usize = 0;
    proof {
        assert(a@.skip(0) =~= a@);
        assert(b@.skip(0) =~= b@);
    }
    while i < alen && i < blen
        invariant
            alen == a@.len(),
            blen == b@.len(),
            i <= alen,
            i <= blen,
            lex_le(a@, b@) == lex_le(a@.skip(i as int), b@.skip(i as int)),
        decreases alen - i,
    {
        let ca = a.get_char(i);
        let cb = b.get_char(i);
        if (ca as u32) != (cb as u32) {
            proof {
                assert(a@.skip(i as int)[0] == a@[i as int]);
                assert(b@.skip(i as int)[0] == b@[i as int]);
            }
            return (ca as u32) < (cb as u32);
        }
        proof {
            vstd::utf8::char_u32_cast(ca, ca as u32);
            vstd::utf8::char_u32_cast(cb, cb as u32);
            assert(ca == cb);
            assert(a@.skip(i as int)[0] == a@[i as int]);
            assert(b@.skip(i as int)[0] == b@[i as int]);
            assert(a@.skip(i as int).drop_first() =~= a@.skip(i as int + 1));
            assert(b@.skip(i as int).drop_first() =~= b@.skip(i as int + 1));
        }
        i = i + 1;
    }
    if i == alen {
        proof {
            assert(a@.skip(i as int).len() == 0);
        }
        true
    } else {
        proof {
            assert(b@.skip(i as int).len() == 0);
            assert(a@.skip(i as int).len() > 0);
        }
        false
    }
}

/// Whether a record sequence is sorted by strategy name.
pub open spec fn records_sorted(s: Seq<Stats>) -> bool {
    forall|i: int, j: int| 0 <= i < j < s.len() ==> lex_le(s[i].name@, s[j].name@)
}

/// Inserts `x` into `s` behind every record whose name precedes or equals
/// `x`'s, which keeps the insertion order of records with equal names.
pub open spec fn insert_by_name(x: Stats, s: Seq<Stats>) -> Seq<Stats>
    decreases s.len(),
{
    if s.len() == 0 {
        seq![x]
    } else if lex_le(s.first().name@, x.name@) {
        seq![s.first()] + insert_by_name(x, s.drop_first())
    } else {
        seq![x] + s
    }
}

/// The records in name order: a stable insertion sort, processing the
/// records in their registration order.
pub open spec fn sorted_records(s: Seq<Stats>) -> Seq<Stats>
    decreases s.len(),
{
    if s.len() == 0 {
        Seq::empty()
    } else {
        insert_by_name(s.last(), sorted_records(s.drop_last()))
    }
}

proof fn lemma_insert_by_name_elems(x: Stats, s: Seq<Stats>)
    ensures
        insert_by_name(x, s).len() == s.len() + 1,
        forall|k: int|
            0 <= k < insert_by_name(x, s).len() ==> (#[trigger] insert_by_name(x, s)[k]) == x
                || s.contains(insert_by_name(x, s)[k]),
    decreases s.len(),
{
    if s.len() == 0 {
    } else if lex_le(s.first().name@, x.name@) {
        lemma_insert_by_name_elems(x, s.drop_first());
        let ins = insert_by_name(x, s);
        let tail = insert_by_name(x, s.drop_first());
        assert forall|k: int| 0 <= k < ins.len() implies ins[k] == x || s.contains(ins[k]) by {
            if k == 0 {
                assert(s[0] == ins[0]);
                assert(s.contains(s[0]));
            } else {
                assert(ins[k] == tail[k - 1]);
                if tail[k - 1] != x {
                    let m = choose|m: int|
                        0 <= m < s.drop_first().len() && s.drop_first()[m] == tail[k - 1];
                    assert(s[m + 1] == tail[k - 1]);
                    assert(s.contains(s[m + 1]));
                }
            }
        }
    } else {
        let ins = insert_by_name(x, s);
        assert forall|k: int| 0 <= k < ins.len() implies ins[k] == x || s.contains(ins[k]) by {
            if k > 0 {
                assert(ins[k] == s[k - 1]);
                assert(s.contains(s[k - 1]));
            }
        }
    }
}

proof fn lemma_insert_by_name_sorted(x: Stats, s: Seq<Stats>)
    requires
        records_sorted(s),
    ensures
        records_sorted(insert_by_name(x, s)),
    decreases s.len(),
{
    if s.len() == 0 {
    } else if lex_le(s.first().name@, x.name@) {
        assert(records_sorted(s.drop_first())) by {
            assert forall|i: int, j: int|
                0 <= i < j < s.drop_first().len() implies lex_le(
                s.drop_first()[i].name@,
                s.drop_first()[j].name@,
            ) by {
                assert(s.drop_first()[i] == s[i + 1]);
                assert(s.drop_first()[j] == s[j + 1]);
            }
        }
        lemma_insert_by_name_sorted(x, s.drop_first());
        lemma_insert_by_name_elems(x, s.drop_first());
        let ins = insert_by_name(x, s);
        let tail = insert_by_name(x, s.drop_first());
        assert forall|i: int, j: int| 0 <= i < j < ins.len() implies lex_le(
            ins[i].name@,
            ins[j].name@,
        ) by {
            if i == 0 {
                assert(ins[j] == tail[j - 1]);
                if tail[j - 1] == x {
                    assert(lex_le(s[0].name@, x.name@));
                } else {
                    let m = choose|m: int|
                        0 <= m < s.drop_first().len() && s.drop_first()[m] == tail[j - 1];
                    assert(s[m + 1] == tail[j - 1]);
                    assert(lex_le(s[0].name@, s[m + 1].name@));
                }
            } else {
                assert(ins[i] == tail[i - 1]);
                assert(ins[j] == tail[j - 1]);
            }
        }
    } else {
        lemma_lex_le_total(s.first().name@, x.name@);
        let ins = insert_by_name(x, s);
        assert forall|i: int, j: int| 0 <= i < j < ins.len() implies lex_le(
            ins[i].name@,
            ins[j].name@,
        ) by {
            if i == 0 {
                assert(ins[j] == s[j - 1]);
                if j == 1 {
                    assert(lex_le(x.name@, s[0].name@));
                } else {
                    lemma_lex_le_trans(x.name@, s[0].name@, s[j - 1].name@);
                }
            } else {
                assert(ins[i] == s[i - 1]);
                assert(ins[j] == s[j - 1]);
            }
        }
    }
}

proof fn lemma_insert_by_name_multiset(x: Stats, s: Seq<Stats>)
    ensures
        insert_by_name(x, s).to_multiset() == s.to_multiset().insert(x),
    decreases s.len(),
{
    broadcast use vstd::seq_lib::group_to_multiset_ensures;

    if s.len() == 0 {
        assert(insert_by_name(x, s) =~= Seq::<Stats>::empty().push(x));
        assert(Seq::<Stats>::empty().push(x).to_multiset() =~= s.to_multiset().insert(x));
    } else if lex_le(s.first().name@, x.name@) {
        lemma_insert_by_name_multiset(x, s.drop_first());
        assert(insert_by_name(x, s) =~= insert_by_name(x, s.drop_first()).insert(
            0,
            s.first(),
        ));
        assert(s =~= s.drop_first().insert(0, s.first()));
        vstd::seq_lib::to_multiset_insert(insert_by_name(x, s.drop_first()), 0, s.first());
        vstd::seq_lib::to_multiset_insert(s.drop_first(), 0, s.first());
        assert(insert_by_name(x, s).to_multiset() =~= s.to_multiset().insert(x));
    } else {
        assert(insert_by_name(x, s) =~= s.insert(0, x));
        vstd::seq_lib::to_multiset_insert(s, 0, x);
        assert(insert_by_name(x, s).to_multiset() =~= s.to_multiset().insert(x));
    }
}

/// Law: sorting the records leaves each name-ordered pair in order.
pub proof fn lemma_sorted_records_sorted(s: Seq<Stats>)
    ensures
        records_sorted(sorted_records(s)),
    decreases s.len(),
{
    if s.len() > 0 {
        lemma_sorted_records_sorted(s.drop_last());
        lemma_insert_by_name_sorted(s.last(), sorted_records(s.drop_last()));
    }
}

/// Law: sorting the records is a permutation — no record is dropped,
/// duplicated or invented.
pub proof fn lemma_sorted_records_permutes(s: Seq<Stats>)
    ensures
        sorted_records(s).to_multiset() == s.to_multiset(),
    decreases s.len(),
{
    broadcast use vstd::seq_lib::group_to_multiset_ensures;

    if s.len() > 0 {
        lemma_sorted_records_permutes(s.drop_last());
        lemma_insert_by_name_multiset(s.last(), sorted_records(s.drop_last()));
        assert(s =~= s.drop_last().push(s.last()));
        assert(s.drop_last().push(s.last()).to_multiset() =~= s.drop_last().to_multiset().insert(
            s.last(),
        ));
    }
}

proof fn lemma_insert_by_name_split(x: Stats, s: Seq<Stats>, i: int)
    requires
        0 <= i <= s.len(),
        forall|k: int| 0 <= k < i ==> lex_le((#[trigger] s[k]).name@, x.name@),
        i < s.len() ==> !lex_le(s[i].name@, x.name@),
    ensures
        insert_by_name(x, s) =~= s.take(i) + seq![x] + s.skip(i),
    decreases i,
{
    if i == 0 {
        assert(insert_by_name(x, s) =~= s.take(0) + seq![x] + s.skip(0));
    } else {
        assert(lex_le(s[0].name@, x.name@));
        assert forall|k: int| 0 <= k < i - 1 implies lex_le(
            (#[trigger] s.drop_first()[k]).name@,
            x.name@,
        ) by {
            assert(s.drop_first()[k] == s[k + 1]);
        }
        assert(i - 1 < s.drop_first().len() ==> !lex_le(s.drop_first()[i - 1].name@, x.name@));
        lemma_insert_by_name_split(x, s.drop_first(), i - 1);
        assert(insert_by_name(x, s) =~= s.take(i) + seq![x] + s.skip(i));
    }
}

/// Sorts the records by name, stably, in a fresh vector.
pub fn sort_stats(v: &Vec<Stats>) -> (out: Vec<Stats>)
    ensures
        out@ == sorted_records(v@),
{
    let mut out: Vec<Stats> = Vec::new();
    let mut k: usize = 0;
    proof {
        assert(v@.subrange(0, 0) =~= Seq::<Stats>::empty());
    }
    while k < v.len()
        invariant
            k <= v@.len(),
            out@ == sorted_records(v@.subrange(0, k as int)),
        decreases v@.len() - k,
    {
        let x = v[k];
        let mut i: usize = 0;
        loop
            invariant
                i <= out@.len(),
                forall|m: int| 0 <= m < i ==> lex_le((#[trigger] out@[m]).name@, x.name@),
            ensures
                i <= out@.len(),
                forall|m: int| 0 <= m < i ==> lex_le((#[trigger] out@[m]).name@, x.name@),
                i < out@.len() ==> !lex_le(out@[i as int].name@, x.name@),
            decreases out@.len() - i,
        {
            if i >= out.len() {
                break ;
            }
            if !str_le(out[i].name, x.name) {
                break ;
            }
            i = i + 1;
        }
        proof {
            lemma_insert_by_name_split(x, out@, i as int);
        }
        out.insert(i, x);
        proof {
            assert(v@.subrange(0, k as int + 1).drop_last() =~= v@.subrange(0, k as int));
            assert(v@.subrange(0, k as int + 1).last() == v@[k as int]);
            assert(out@ =~= insert_by_name(x, sorted_records(v@.subrange(0, k as int))));
        }
        k = k + 1;
    }
    proof {
        assert(v@.subrange(0, v@.len() as int) =~= v@);
    }
    out
}

} // verus!
