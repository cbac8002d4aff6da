//! The duplicate detector and the canonicalizer.
//!
//! Every field list is put into canonical order: sorted by field name. The
//! same order is derived independently at every site, so two lists over the
//! same name set always line up positionally. A list naming a field twice is
//! rejected; afterwards the canonical order is strict.

use vstd::multiset::Multiset;
use vstd::prelude::*;
use vstd::seq_lib::*;

use crate::errors::EngineError;
use crate::fields::Keyed;
use crate::order::lemma_lex_le_antisym;
use crate::order::lemma_lex_le_trans;
use crate::order::lemma_lex_lt_asym;
use crate::order::lemma_lex_lt_total;
use crate::order::lex_le;
use crate::order::lex_lt;

verus! {

/// The entries' keys are weakly sorted in canonical order.
pub open spec fn sorted_le_keys<X: Keyed>(s: Seq<X>) -> bool {
    forall|i: int, j: int| 0 <= i < j < s.len() ==> lex_le(#[trigger] s[i].key(), #[trigger] s[j].key())
}

/// The entries' keys are strictly sorted: canonical order with no duplicate.
pub open spec fn sorted_strict_keys<X: Keyed>(s: Seq<X>) -> bool {
    forall|i: int, j: int| 0 <= i < j < s.len() ==> lex_lt(#[trigger] s[i].key(), #[trigger] s[j].key())
}

/// No two entries share a key.
pub open spec fn distinct_keys<X: Keyed>(s: Seq<X>) -> bool {
    forall|i: int, j: int| 0 <= i < j < s.len() ==> #[trigger] s[i].key() != #[trigger] s[j].key()
}

/// The sequence of keys of a field list, in the list's order.
pub open spec fn key_seq<X: Keyed>(s: Seq<X>) -> Seq<Seq<u8>> {
    Seq::new(s.len(), |i: int| s[i].key())
}

/// A name sequence in strictly ascending canonical order.
pub open spec fn sorted_strict_names(s: Seq<Seq<u8>>) -> bool {
    forall|i: int, j: int| 0 <= i < j < s.len() ==> lex_lt(#[trigger] s[i], #[trigger] s[j])
}

/// A list with strictly sorted keys has a strictly sorted name sequence.
pub proof fn lemma_key_seq_sorted<X: Keyed>(s: Seq<X>)
    requires
        sorted_strict_keys(s),
    ensures
        sorted_strict_names(key_seq(s)),
{
    assert forall|i: int, j: int| 0 <= i < j < key_seq(s).len() implies lex_lt(
        #[trigger] key_seq(s)[i],
        #[trigger] key_seq(s)[j],
    ) by {
        assert(key_seq(s)[i] == s[i].key());
        assert(key_seq(s)[j] == s[j].key());
    }
}

/// Two lists with the same name sequence agree on key distinctness.
pub proof fn lemma_key_seq_eq_distinct<X: Keyed>(a: Seq<X>, b: Seq<X>)
    requires
        key_seq(a) == key_seq(b),
    ensures
        distinct_keys(a) <==> distinct_keys(b),
{
    assert(key_seq(a).len() == a.len());
    assert(key_seq(b).len() == b.len());
    assert(a.len() == b.len());
    if distinct_keys(a) {
        assert forall|i: int, j: int| 0 <= i < j < b.len() implies #[trigger] b[i].key()
            != #[trigger] b[j].key() by {
            assert(key_seq(a)[i] == a[i].key() && key_seq(b)[i] == b[i].key());
            assert(key_seq(a)[j] == a[j].key() && key_seq(b)[j] == b[j].key());
        }
    }
    if distinct_keys(b) {
        assert forall|i: int, j: int| 0 <= i < j < a.len() implies #[trigger] a[i].key()
            != #[trigger] a[j].key() by {
            assert(key_seq(a)[i] == a[i].key() && key_seq(b)[i] == b[i].key());
            assert(key_seq(a)[j] == a[j].key() && key_seq(b)[j] == b[j].key());
        }
    }
}

/// Strictly sorted keys are distinct.
pub proof fn lemma_strict_sorted_distinct<X: Keyed>(s: Seq<X>)
    requires
        sorted_strict_keys(s),
    ensures
        distinct_keys(s),
{
    assert forall|i: int, j: int| 0 <= i < j < s.len() implies #[trigger] s[i].key()
        != #[trigger] s[j].key() by {
        lemma_lex_lt_asym(s[i].key(), s[j].key());
    }
}

/// Rearranging a field list neither adds nor removes key names.
pub proof fn lemma_key_contains_multiset<X: Keyed>(a: Seq<X>, b: Seq<X>)
    requires
        a.to_multiset() == b.to_multiset(),
    ensures
        forall|n: Seq<u8>| key_seq(a).contains(n) <==> key_seq(b).contains(n),
{
    broadcast use vstd::multiset::group_multiset_axioms;
    broadcast use group_to_multiset_ensures;

    assert forall|n: Seq<u8>| key_seq(a).contains(n) <==> key_seq(b).contains(n) by {
        if key_seq(a).contains(n) {
            let i = choose|i: int| 0 <= i < key_seq(a).len() && key_seq(a)[i] == n;
            assert(a.contains(a[i]));
            assert(b.to_multiset().count(a[i]) > 0);
            assert(b.contains(a[i]));
            let j = choose|j: int| 0 <= j < b.len() && b[j] == a[i];
            assert(key_seq(b)[j] == n);
        }
        if key_seq(b).contains(n) {
            let i = choose|i: int| 0 <= i < key_seq(b).len() && key_seq(b)[i] == n;
            assert(b.contains(b[i]));
            assert(a.to_multiset().count(b[i]) > 0);
            assert(a.contains(b[i]));
            let j = choose|j: int| 0 <= j < a.len() && a[j] == b[i];
            assert(key_seq(a)[j] == n);
        }
    }
}

/// Two strictly sorted name sequences over the same name set are equal: the
/// canonical name order is a pure function of the set of names.
pub proof fn lemma_sorted_names_unique(a: Seq<Seq<u8>>, b: Seq<Seq<u8>>)
    requires
        sorted_strict_names(a),
        sorted_strict_names(b),
        forall|n: Seq<u8>| a.contains(n) <==> b.contains(n),
    ensures
        a == b,
    decreases a.len(),
{
    if a.len() == 0 {
        if b.len() > 0 {
            assert(b.contains(b[0]));
            assert(a.contains(b[0]));
            assert(false);
        }
        assert(a =~= b);
    } else if b.len() == 0 {
        assert(a.contains(a[0]));
        assert(b.contains(a[0]));
        assert(false);
    } else {
        assert(b.contains(b[0]));
        assert(a.contains(b[0]));
        assert(a.contains(a[0]));
        assert(b.contains(a[0]));
        let i = choose|i: int| 0 <= i < a.len() && a[i] == b[0];
        let j = choose|j: int| 0 <= j < b.len() && b[j] == a[0];
        if i > 0 && j > 0 {
            assert(lex_lt(a[0], a[i]));
            assert(lex_lt(b[0], b[j]));
            lemma_lex_lt_asym(a[0], b[0]);
            assert(false);
        }
        assert(a[0] == b[0]);
        assert forall|n: Seq<u8>| a.drop_first().contains(n) <==> b.drop_first().contains(n) by {
            lemma_head_tail_contains(a, n);
            lemma_head_tail_contains(b, n);
        }
        assert forall|p: int, q: int| 0 <= p < q < a.drop_first().len() implies lex_lt(
            #[trigger] a.drop_first()[p],
            #[trigger] a.drop_first()[q],
        ) by {
            assert(a.drop_first()[p] == a[p + 1]);
            assert(a.drop_first()[q] == a[q + 1]);
        }
        assert forall|p: int, q: int| 0 <= p < q < b.drop_first().len() implies lex_lt(
            #[trigger] b.drop_first()[p],
            #[trigger] b.drop_first()[q],
        ) by {
            assert(b.drop_first()[p] == b[p + 1]);
            assert(b.drop_first()[q] == b[q + 1]);
        }
        lemma_sorted_names_unique(a.drop_first(), b.drop_first());
        assert(a.len() == b.len());
        assert forall|k: int| 0 <= k < a.len() implies a[k] == b[k] by {
            if k > 0 {
                assert(a.drop_first()[k - 1] == a[k]);
                assert(b.drop_first()[k - 1] == b[k]);
            }
        }
        assert(a =~= b);
    }
}

/// In a strictly sorted name sequence, a name stands in the tail exactly
/// when it stands in the whole and is not the head.
proof fn lemma_head_tail_contains(a: Seq<Seq<u8>>, n: Seq<u8>)
    requires
        sorted_strict_names(a),
        a.len() > 0,
    ensures
        a.drop_first().contains(n) <==> (a.contains(n) && n != a[0]),
{
    if a.drop_first().contains(n) {
        let k = choose|k: int| 0 <= k < a.drop_first().len() && a.drop_first()[k] == n;
        assert(a[k + 1] == n);
        assert(lex_lt(a[0], a[k + 1]));
        lemma_lex_lt_asym(a[0], a[k + 1]);
        assert(a.contains(n) && n != a[0]);
    }
    if a.contains(n) && n != a[0] {
        let i = choose|i: int| 0 <= i < a.len() && a[i] == n;
        assert(i > 0);
        assert(a.drop_first()[i - 1] == n);
        assert(a.drop_first().contains(n));
    }
}

/// An empty list has an empty multiset.
proof fn lemma_empty_to_multiset<X>(s: Seq<X>)
    requires
        s.len() == 0,
    ensures
        s.to_multiset() == Multiset::<X>::empty(),
{
    broadcast use vstd::multiset::group_multiset_axioms;
    broadcast use group_to_multiset_ensures;

    assert forall|a: X| s.to_multiset().count(a) == Multiset::<X>::empty().count(a) by {
        assert(!s.contains(a));
    }
    assert(s.to_multiset() =~= Multiset::<X>::empty());
}

/// An element occurring at two positions occurs at least twice in the
/// multiset.
proof fn lemma_dup_count<X>(s: Seq<X>, i: int, j: int)
    requires
        0 <= i < j < s.len(),
        s[i] == s[j],
    ensures
        s.to_multiset().count(s[i]) >= 2,
{
    broadcast use vstd::multiset::group_multiset_axioms;
    broadcast use group_to_multiset_ensures;

    let s0 = s.subrange(0, j);
    let s1 = s.subrange(j, s.len() as int);
    assert(s =~= s0 + s1);
    lemma_multiset_commutative(s0, s1);
    assert(s0.contains(s[i]));
    assert(s1.contains(s[i]));
}

/// An element occurring at least twice in the multiset occurs at two
/// positions.
proof fn lemma_count_two_indices<X>(s: Seq<X>, x: X)
    requires
        s.to_multiset().count(x) >= 2,
    ensures
        exists|i: int, j: int| 0 <= i < j < s.len() && s[i] == x && s[j] == x,
{
    broadcast use vstd::multiset::group_multiset_axioms;
    broadcast use group_to_multiset_ensures;

    assert(s.contains(x));
    let i = choose|i: int| 0 <= i < s.len() && s[i] == x;
    assert(s.remove(i).to_multiset() =~= s.to_multiset().remove(s[i]));
    assert(s.remove(i).to_multiset().count(x) >= 1);
    assert(s.remove(i).contains(x));
    let j0 = choose|j0: int| 0 <= j0 < s.remove(i).len() && s.remove(i)[j0] == x;
    let j = if j0 < i {
        j0
    } else {
        j0 + 1
    };
    assert(s[j] == x);
    if j < i {
        assert(s[j] == x && s[i] == x);
    } else {
        assert(s[i] == x && s[j] == x);
    }
}

/// Key distinctness only depends on which entries a list holds, not on
/// their order.
pub proof fn lemma_distinct_keys_multiset<X: Keyed>(a: Seq<X>, b: Seq<X>)
    requires
        a.to_multiset() == b.to_multiset(),
        distinct_keys(a),
    ensures
        distinct_keys(b),
{
    broadcast use vstd::multiset::group_multiset_axioms;
    broadcast use group_to_multiset_ensures;

    assert forall|i: int, j: int| 0 <= i < j < b.len() implies #[trigger] b[i].key()
        != #[trigger] b[j].key() by {
        if b[i].key() == b[j].key() {
            if b[i] == b[j] {
                lemma_dup_count(b, i, j);
                assert(a.to_multiset().count(b[i]) >= 2);
                lemma_count_two_indices(a, b[i]);
                let (p, q) = choose|p: int, q: int|
                    0 <= p < q < a.len() && a[p] == b[i] && a[q] == b[i];
                assert(a[p].key() == a[q].key());
            } else {
                assert(b.contains(b[i]));
                assert(a.to_multiset().count(b[i]) > 0);
                assert(a.contains(b[i]));
                assert(b.contains(b[j]));
                assert(a.to_multiset().count(b[j]) > 0);
                assert(a.contains(b[j]));
                let p = choose|p: int| 0 <= p < a.len() && a[p] == b[i];
                let q = choose|q: int| 0 <= q < a.len() && a[q] == b[j];
                assert(p != q);
                if p < q {
                    assert(a[p].key() != a[q].key());
                } else {
                    assert(a[q].key() != a[p].key());
                }
            }
        }
    }
}

/// The canonicalizer is a pure function of the set of entries: two strictly
/// sorted lists holding the same entries are the same list. This is the
/// load-bearing property that makes independently written sites agree.
pub proof fn lemma_canonical_unique<X: Keyed>(x: Seq<X>, y: Seq<X>)
    requires
        sorted_strict_keys(x),
        sorted_strict_keys(y),
        x.to_multiset() == y.to_multiset(),
    ensures
        x == y,
    decreases x.len(),
{
    broadcast use vstd::multiset::group_multiset_axioms;
    broadcast use group_to_multiset_ensures;

    if x.len() == 0 || y.len() == 0 {
        to_multiset_len(x);
        to_multiset_len(y);
        assert(x.len() == y.len());
        assert(x =~= y);
    } else {
        assert(x.to_multiset().contains(x[0]));
        assert(y.to_multiset().contains(y[0]));
        assert(x.contains(y[0]));
        assert(y.contains(x[0]));
        let i = choose|i: int| 0 <= i < x.len() && x[i] == y[0];
        let j = choose|j: int| 0 <= j < y.len() && y[j] == x[0];
        if i > 0 {
            assert(lex_lt(x[0].key(), x[i].key()));
            if j > 0 {
                assert(lex_lt(y[0].key(), y[j].key()));
                lemma_lex_lt_asym(x[0].key(), x[i].key());
                assert(false);
            }
        }
        assert(x[0] == y[0]);
        assert(x.drop_first() =~= x.remove(0));
        assert(y.drop_first() =~= y.remove(0));
        assert(x.remove(0).to_multiset() == x.to_multiset().remove(x[0]));
        assert(y.remove(0).to_multiset() == y.to_multiset().remove(y[0]));
        assert(x.drop_first().to_multiset() == y.drop_first().to_multiset());
        assert forall|i: int, j: int| 0 <= i < j < x.drop_first().len() implies lex_lt(
            #[trigger] x.drop_first()[i].key(),
            #[trigger] x.drop_first()[j].key(),
        ) by {
            assert(x.drop_first()[i] == x[i + 1]);
            assert(x.drop_first()[j] == x[j + 1]);
            assert(lex_lt(x[i + 1].key(), x[j + 1].key()));
        }
        assert forall|i: int, j: int| 0 <= i < j < y.drop_first().len() implies lex_lt(
            #[trigger] y.drop_first()[i].key(),
            #[trigger] y.drop_first()[j].key(),
        ) by {
            assert(y.drop_first()[i] == y[i + 1]);
            assert(y.drop_first()[j] == y[j + 1]);
            assert(lex_lt(y[i + 1].key(), y[j + 1].key()));
        }
        lemma_canonical_unique(x.drop_first(), y.drop_first());
        assert(x.len() == y.len()) by {
            to_multiset_len(x);
            to_multiset_len(y);
        }
        assert forall|k: int| 0 <= k < x.len() implies x[k] == y[k] by {
            if k > 0 {
                assert(x.drop_first()[k - 1] == x[k]);
                assert(y.drop_first()[k - 1] == y[k]);
            }
        }
        assert(x =~= y);
    }
}

/// Inserts one entry into a weakly sorted list, keeping it sorted.
fn insert_sorted<X: Keyed>(out: &mut Vec<X>, x: X)
    requires
        sorted_le_keys(old(out)@),
    ensures
        sorted_le_keys(final(out)@),
        final(out)@.to_multiset() == old(out)@.to_multiset().insert(x),
{
    broadcast use to_multiset_insert;

    let mut j: usize = 0;
    while j < out.len() && out[j].key_lt(&x)
        invariant
            j <= out.len(),
            sorted_le_keys(out@),
            forall|k: int| 0 <= k < j ==> lex_lt(#[trigger] out@[k].key(), x.key()),
        decreases out.len() - j,
    {
        j += 1;
    }
    proof {
        assert forall|k: int| j <= k < out@.len() implies lex_le(
            x.key(),
            #[trigger] out@[k].key(),
        ) by {
            lemma_lex_lt_total(x.key(), out@[j as int].key());
            if k > j {
                lemma_lex_le_trans(x.key(), out@[j as int].key(), out@[k].key());
            }
        }
        let old_seq = out@;
        old_seq.insert_ensures(j as int, x);
        assert forall|i1: int, i2: int| 0 <= i1 < i2 < old_seq.insert(j as int, x).len() implies lex_le(
            #[trigger] old_seq.insert(j as int, x)[i1].key(),
            #[trigger] old_seq.insert(j as int, x)[i2].key(),
        ) by {
            let s = old_seq.insert(j as int, x);
            if i1 < j && i2 < j {
                assert(s[i1] == old_seq[i1] && s[i2] == old_seq[i2]);
            } else if i1 < j && i2 == j {
                assert(s[i1] == old_seq[i1] && s[i2] == x);
            } else if i1 < j && i2 > j {
                assert(s[i1] == old_seq[i1] && s[i2] == old_seq[i2 - 1]);
                if i1 < i2 - 1 {
                } else {
                    assert(s[i1] == s[i2]);
                }
            } else if i1 == j {
                assert(s[i1] == x && s[i2] == old_seq[i2 - 1]);
            } else {
                assert(s[i1] == old_seq[i1 - 1] && s[i2] == old_seq[i2 - 1]);
            }
        }
    }
    out.insert(j, x);
}

/// Scans a canonically sorted list for two adjacent entries with the same
/// name; because equal names are adjacent after sorting, this single linear
/// scan finds every duplicate. Returns the first offending name.
pub fn check_for_duplicates<X: Keyed>(fields: &Vec<X>) -> (r: Result<(), Vec<u8>>)
    ensures
        r is Ok <==> (forall|k: int|
            0 <= k < fields@.len() - 1 ==> #[trigger] fields@[k].key() != fields@[k + 1].key()),
        r matches Err(n) ==> exists|k: int|
            0 <= k < fields@.len() - 1 && #[trigger] fields@[k].key() == fields@[k + 1].key()
                && n@ == fields@[k].key() && (forall|p: int|
                0 <= p < k ==> #[trigger] fields@[p].key() != fields@[p + 1].key()),
{
    if fields.len() == 0 {
        return Ok(());
    }
    let mut k: usize = 0;
    while k + 1 < fields.len()
        invariant
            k < fields.len(),
            forall|p: int| 0 <= p < k ==> #[trigger] fields@[p].key() != fields@[p + 1].key(),
        decreases fields.len() - k,
    {
        if fields[k].key_eq(&fields[k + 1]) {
            let n = fields[k].key_vec();
            return Err(n);
        }
        k += 1;
    }
    Ok(())
}

/// Puts a field list into canonical order, rejecting it if two entries share
/// a name. On success the result is the strictly sorted rearrangement of the
/// input; the rejection carries a duplicated name.
pub fn canonicalize<X: Keyed>(fields: Vec<X>) -> (r: Result<Vec<X>, Vec<u8>>)
    ensures
        r is Ok <==> distinct_keys(fields@),
        r matches Ok(s) ==> sorted_strict_keys(s@) && s@.to_multiset() == fields@.to_multiset(),
        r matches Err(n) ==> exists|i: int, j: int|
            0 <= i < j < fields@.len() && #[trigger] fields@[i].key() == #[trigger] fields@[j].key()
                && n@ == fields@[i].key(),
{
    broadcast use vstd::multiset::group_multiset_axioms;
    broadcast use group_to_multiset_ensures;

    let ghost orig = fields@;
    let mut rest = fields;
    let mut out: Vec<X> = Vec::new();
    proof {
        lemma_empty_to_multiset(out@);
        assert(out@.to_multiset().add(rest@.to_multiset()) =~= orig.to_multiset());
    }
    while rest.len() > 0
        invariant
            sorted_le_keys(out@),
            out@.to_multiset().add(rest@.to_multiset()) == orig.to_multiset(),
        decreases rest.len(),
    {
        let ghost pre = rest@;
        let x = rest.pop().unwrap();
        proof {
            assert(pre =~= rest@.push(x));
            to_multiset_build(rest@, x);
            assert(pre.to_multiset() == rest@.to_multiset().insert(x));
        }
        insert_sorted(&mut out, x);
        proof {
            assert(out@.to_multiset().add(rest@.to_multiset()) =~= orig.to_multiset());
        }
    }
    proof {
        lemma_empty_to_multiset(rest@);
        assert(out@.to_multiset() =~= orig.to_multiset());
    }
    match check_for_duplicates(&out) {
        Ok(()) => {
            proof {
                assert forall|i: int, j: int| 0 <= i < j < out@.len() implies lex_lt(
                    #[trigger] out@[i].key(),
                    #[trigger] out@[j].key(),
                ) by {
                    assert(lex_le(out@[i].key(), out@[j].key()));
                    if out@[i].key() == out@[j].key() {
                        assert(lex_le(out@[i].key(), out@[i + 1].key()));
                        if i + 1 < j {
                            assert(lex_le(out@[i + 1].key(), out@[j].key()));
                        } else {
                            assert(out@[i + 1].key() == out@[j].key());
                        }
                        assert(lex_le(out@[i + 1].key(), out@[i].key()));
                        lemma_lex_le_antisym(out@[i].key(), out@[i + 1].key());
                        assert(out@[i].key() == out@[i + 1].key());
                        assert(false);
                    }
                }
                assert(distinct_keys(out@)) by {
                    assert forall|i: int, j: int| 0 <= i < j < out@.len() implies #[trigger] out@[i].key()
                        != #[trigger] out@[j].key() by {
                        lemma_lex_lt_asym(out@[i].key(), out@[j].key());
                    }
                }
                lemma_distinct_keys_multiset(out@, orig);
            }
            Ok(out)
        },
        Err(n) => {
            proof {
                let k = choose|k: int|
                    0 <= k < out@.len() - 1 && #[trigger] out@[k].key() == out@[k + 1].key() && n@
                        == out@[k].key();
                if out@[k] == out@[k + 1] {
                    lemma_dup_count(out@, k, k + 1);
                    lemma_count_two_indices(orig, out@[k]);
                } else {
                    assert(out@.contains(out@[k]));
                    assert(orig.to_multiset().count(out@[k]) > 0);
                    assert(orig.contains(out@[k]));
                    assert(out@.contains(out@[k + 1]));
                    assert(orig.to_multiset().count(out@[k + 1]) > 0);
                    assert(orig.contains(out@[k + 1]));
                    let p = choose|p: int| 0 <= p < orig.len() && orig[p] == out@[k];
                    let q = choose|q: int| 0 <= q < orig.len() && orig[q] == out@[k + 1];
                    assert(p != q);
                    if p < q {
                        assert(orig[p].key() == orig[q].key() && n@ == orig[p].key());
                    } else {
                        assert(orig[q].key() == orig[p].key() && n@ == orig[q].key());
                    }
                }
            }
            Err(n)
        },
    }
}

/// Copies the names of a field list, in source order.
pub fn names_of<X: Keyed>(fields: &Vec<X>) -> (r: Vec<Vec<u8>>)
    ensures
        r@.len() == fields@.len(),
        forall|i: int| 0 <= i < r@.len() ==> #[trigger] r@[i]@ == fields@[i].key(),
{
    let mut r: Vec<Vec<u8>> = Vec::new();
    let mut i: usize = 0;
    while i < fields.len()
        invariant
            i <= fields@.len(),
            r@.len() == i,
            forall|k: int| 0 <= k < i ==> #[trigger] r@[k]@ == fields@[k].key(),
        decreases fields@.len() - i,
    {
        r.push(fields[i].key_vec());
        i += 1;
    }
    r
}

/// The duplicate-field rejection: `e` names a duplicated field of the list
/// and the source position of its second occurrence.
pub open spec fn dup_err<X: Keyed>(fields: Seq<X>, e: EngineError) -> bool {
    &&& e matches EngineError::DuplicateField { name, position }
    &&& exists|i: int, j: int|
        0 <= i < j < fields.len() && #[trigger] fields[i].key() == #[trigger] fields[j].key()
            && fields[i].key() == name@
    &&& position < fields.len()
    &&& fields[position as int].key() == name@
    &&& exists|i: int| 0 <= i < position && #[trigger] fields[i].key() == name@
}

/// Canonicalizes a field list, or reports the duplicate that prevents it,
/// with the duplicated name and the source position of its second
/// occurrence.
pub fn canonical_or_duplicate<X: Keyed>(fields: Vec<X>) -> (r: Result<Vec<X>, EngineError>)
    ensures
        r is Ok <==> distinct_keys(fields@),
        r matches Ok(s) ==> sorted_strict_keys(s@) && s@.to_multiset() == fields@.to_multiset(),
        r matches Err(e) ==> dup_err(fields@, e),
{
    let names = names_of(&fields);
    let ghost fields0 = fields@;
    match canonicalize(fields) {
        Ok(s) => Ok(s),
        Err(n) => {
            proof {
                let (i, j) = choose|i: int, j: int|
                    0 <= i < j < fields0.len() && #[trigger] fields0[i].key()
                        == #[trigger] fields0[j].key() && n@ == fields0[i].key();
                assert(names@[i].key() == n@ && names@[j].key() == n@);
            }
            let position = find_second_position(&names, &n);
            Err(EngineError::DuplicateField { name: n, position })
        },
    }
}

/// Finds the second occurrence, in source order, of a duplicated name: the
/// position the duplicate-field rejection reports.
pub fn find_second_position<X: Keyed>(fields: &Vec<X>, name: &Vec<u8>) -> (r: usize)
    requires
        exists|i: int, j: int|
            0 <= i < j < fields@.len() && #[trigger] fields@[i].key() == #[trigger] fields@[j].key()
                && fields@[i].key() == name@,
    ensures
        r < fields@.len(),
        fields@[r as int].key() == name@,
        exists|i: int| 0 <= i < r && #[trigger] fields@[i].key() == name@,
{
    let mut seen: bool = false;
    let mut k: usize = 0;
    loop
        invariant
            k <= fields@.len(),
            seen ==> exists|i: int| 0 <= i < k && #[trigger] fields@[i].key() == name@,
            !seen ==> forall|i: int| 0 <= i < k ==> #[trigger] fields@[i].key() != name@,
            forall|i: int, j: int|
                0 <= i < j < k ==> !(#[trigger] fields@[i].key() == name@
                    && #[trigger] fields@[j].key() == name@),
            exists|i: int, j: int|
                0 <= i < j < fields@.len() && #[trigger] fields@[i].key()
                    == #[trigger] fields@[j].key() && fields@[i].key() == name@,
        decreases fields@.len() - k,
    {
        if k >= fields.len() {
            proof {
                let (i, j) = choose|i: int, j: int|
                    0 <= i < j < fields@.len() && #[trigger] fields@[i].key()
                        == #[trigger] fields@[j].key() && fields@[i].key() == name@;
                assert(fields@[i].key() == name@ && fields@[j].key() == name@);
                assert(false);
            }
            return vstd::pervasive::unreached();
        }
        let here = {
            let kv = fields[k].key_vec();
            crate::order::name_eq(&kv, name)
        };
        if here {
            if seen {
                return k;
            }
            seen = true;
        }
        k += 1;
    }
}

} // verus!
