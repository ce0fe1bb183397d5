//! Entry lists ordered by an `i64` key.
//!
//! Both rolling buffers keep their frames as a vector of `(key, value)`
//! pairs sorted by strictly increasing key, playing the role of an
//! ordered map.  This module holds the specification of insertion and
//! head-trimming on such lists together with the verified vector
//! operations that realise them.

use vstd::prelude::*;

verus! {

/// The keys of `s` are strictly increasing.
pub open spec fn keys_sorted<T>(s: Seq<(i64, T)>) -> bool {
    forall|i: int, j: int|
        0 <= i < j < s.len() ==> #[trigger] s[i].0 < #[trigger] s[j].0
}

/// Some entry of `s` carries the key `k`.
pub open spec fn has_key<T>(s: Seq<(i64, T)>, k: i64) -> bool {
    exists|i: int| 0 <= i < s.len() && (#[trigger] s[i].0) == k
}

/// Insertion into a key-ordered entry list: the new entry takes the
/// place given by its key and replaces an entry already carrying it.
pub open spec fn entry_insert<T>(s: Seq<(i64, T)>, k: i64, v: T) -> Seq<(i64, T)>
    decreases s.len(),
{
    if s.len() == 0 {
        seq![(k, v)]
    } else if k < s[0].0 {
        seq![(k, v)] + s
    } else if k == s[0].0 {
        seq![(k, v)] + s.skip(1)
    } else {
        seq![s[0]] + entry_insert(s.skip(1), k, v)
    }
}

/// Removal of every leading entry whose key is below `k`.  On a sorted
/// list this keeps exactly the entries with key at least `k`.
pub open spec fn drop_below<T>(s: Seq<(i64, T)>, k: i64) -> Seq<(i64, T)>
    decreases s.len(),
{
    if s.len() == 0 {
        s
    } else if s[0].0 < k {
        drop_below(s.skip(1), k)
    } else {
        s
    }
}

/// Unfolds `entry_insert` across a prefix of entries whose keys lie
/// below the inserted key.
pub proof fn lemma_entry_insert_unfold<T>(s: Seq<(i64, T)>, k: i64, v: T, i: int)
    requires
        0 <= i <= s.len(),
        forall|j: int| 0 <= j < i ==> (#[trigger] s[j].0) < k,
    ensures
        entry_insert(s, k, v) =~= s.take(i) + entry_insert(s.skip(i), k, v),
    decreases i,
{
    if i > 0 {
        lemma_entry_insert_unfold(s.skip(1), k, v, i - 1);
        assert(s.skip(1).skip(i - 1) =~= s.skip(i));
        assert(s.take(i) =~= seq![s[0]] + s.skip(1).take(i - 1));
    } else {
        assert(s.take(0) =~= Seq::<(i64, T)>::empty());
        assert(s.skip(0) =~= s);
    }
}

/// Sorted insertion stays sorted, grows by at most one entry, and the
/// result holds the new entry together with every old entry whose key
/// differs from the new key.
pub proof fn lemma_entry_insert_sorted<T>(s: Seq<(i64, T)>, k: i64, v: T)
    requires
        keys_sorted(s),
    ensures
        keys_sorted(entry_insert(s, k, v)),
        entry_insert(s, k, v).len() == if has_key(s, k) {
            s.len()
        } else {
            s.len() + 1
        },
        has_key(entry_insert(s, k, v), k),
        forall|i: int|
            0 <= i < entry_insert(s, k, v).len() ==> (#[trigger] entry_insert(s, k, v)[i]) == (k,
            v) || s.contains(entry_insert(s, k, v)[i]),
        forall|i: int| 0 <= i < s.len() && (#[trigger] s[i].0) != k ==> entry_insert(
            s,
            k,
            v,
        ).contains(s[i]),
    decreases s.len(),
{
    let r = entry_insert(s, k, v);
    if s.len() == 0 {
        assert(r =~= seq![(k, v)]);
        assert(r[0].0 == k);
    } else if k < s[0].0 {
        assert(r =~= seq![(k, v)] + s);
        assert(r[0].0 == k);
        assert forall|i: int| 0 <= i < s.len() && (#[trigger] s[i].0) != k implies r.contains(
            s[i],
        ) by {
            assert(r[i + 1] == s[i]);
        }
    } else if k == s[0].0 {
        assert(r =~= seq![(k, v)] + s.skip(1));
        assert(r[0].0 == k);
        assert forall|i: int| 0 <= i < s.len() && (#[trigger] s[i].0) != k implies r.contains(
            s[i],
        ) by {
            assert(i > 0);
            assert(r[i] == s[i]);
        }
    } else {
        lemma_entry_insert_sorted(s.skip(1), k, v);
        let rr = entry_insert(s.skip(1), k, v);
        assert(r =~= seq![s[0]] + rr);
        if has_key(s, k) {
            let i = choose|i: int| 0 <= i < s.len() && (#[trigger] s[i].0) == k;
            assert(s.skip(1)[i - 1].0 == k);
            assert(has_key(s.skip(1), k));
        }
        if has_key(s.skip(1), k) {
            let i = choose|i: int| 0 <= i < s.skip(1).len() && (#[trigger] s.skip(1)[i].0) == k;
            assert(s[i + 1].0 == k);
            assert(has_key(s, k));
        }
        // every entry of `rr` keeps a key at least as large as some key
        // of `s.skip(1)` or equals the new key, all above `s[0].0`
        assert forall|j: int| 0 <= j < rr.len() implies s[0].0 < (#[trigger] rr[j].0) by {
            if rr[j] == (k, v) {
            } else {
                assert(s.skip(1).contains(rr[j]));
                let i = choose|i: int| 0 <= i < s.skip(1).len() && s.skip(1)[i] == rr[j];
                assert(s[i + 1] == rr[j]);
            }
        }
        assert(keys_sorted(r));
        let idx = choose|i: int| 0 <= i < rr.len() && (#[trigger] rr[i].0) == k;
        assert(r[idx + 1].0 == k);
        assert(has_key(r, k));
        assert forall|i: int| 0 <= i < r.len() implies (#[trigger] r[i]) == (k, v) || s.contains(
            r[i],
        ) by {
            if i == 0 {
                assert(s[0] == r[0]);
            } else {
                assert(r[i] == rr[i - 1]);
                if rr[i - 1] == (k, v) {
                } else {
                    assert(s.skip(1).contains(rr[i - 1]));
                    let j = choose|j: int| 0 <= j < s.skip(1).len() && s.skip(1)[j] == rr[i - 1];
                    assert(s[j + 1] == rr[i - 1]);
                }
            }
        }
        assert forall|i: int| 0 <= i < s.len() && (#[trigger] s[i].0) != k implies r.contains(
            s[i],
        ) by {
            if i == 0 {
                assert(r[0] == s[0]);
            } else {
                assert(s.skip(1)[i - 1] == s[i]);
                assert(rr.contains(s[i]));
                let j = choose|j: int| 0 <= j < rr.len() && rr[j] == s[i];
                assert(r[j + 1] == s[i]);
            }
        }
    }
}

/// Dropping entries from the front keeps the keys sorted.
pub proof fn lemma_sorted_skip<T>(s: Seq<(i64, T)>, n: int)
    requires
        keys_sorted(s),
        0 <= n <= s.len(),
    ensures
        keys_sorted(s.skip(n)),
{
    assert forall|i: int, j: int| 0 <= i < j < s.skip(n).len() implies (#[trigger] s.skip(n)[i].0)
        < (#[trigger] s.skip(n)[j].0) by {
        assert(s.skip(n)[i] == s[i + n]);
        assert(s.skip(n)[j] == s[j + n]);
    }
}

/// Taking a prefix keeps the keys sorted.
pub proof fn lemma_sorted_take<T>(s: Seq<(i64, T)>, n: int)
    requires
        keys_sorted(s),
        0 <= n <= s.len(),
    ensures
        keys_sorted(s.take(n)),
{
    assert forall|i: int, j: int| 0 <= i < j < s.take(n).len() implies (#[trigger] s.take(n)[i].0)
        < (#[trigger] s.take(n)[j].0) by {
        assert(s.take(n)[i] == s[i]);
        assert(s.take(n)[j] == s[j]);
    }
}

/// On a sorted list, `drop_below` keeps exactly the entries whose key
/// is at least `k`, in their original order.
pub proof fn lemma_drop_below_props<T>(s: Seq<(i64, T)>, k: i64)
    requires
        keys_sorted(s),
    ensures
        keys_sorted(drop_below(s, k)),
        forall|i: int|
            0 <= i < drop_below(s, k).len() ==> (#[trigger] drop_below(s, k)[i]).0 >= k
                && s.contains(drop_below(s, k)[i]),
        forall|i: int| 0 <= i < s.len() && (#[trigger] s[i]).0 >= k ==> drop_below(s, k).contains(
            s[i],
        ),
    decreases s.len(),
{
    let r = drop_below(s, k);
    if s.len() == 0 {
    } else if s[0].0 < k {
        lemma_sorted_skip(s, 1);
        lemma_drop_below_props(s.skip(1), k);
        let rr = drop_below(s.skip(1), k);
        assert forall|i: int| 0 <= i < r.len() implies (#[trigger] r[i]).0 >= k && s.contains(
            r[i],
        ) by {
            assert(s.skip(1).contains(rr[i]));
            let j = choose|j: int| 0 <= j < s.skip(1).len() && s.skip(1)[j] == rr[i];
            assert(s[j + 1] == rr[i]);
        }
        assert forall|i: int| 0 <= i < s.len() && (#[trigger] s[i]).0 >= k implies r.contains(
            s[i],
        ) by {
            assert(i >= 1);
            assert(s.skip(1)[i - 1] == s[i]);
        }
    } else {
        assert forall|i: int| 0 <= i < r.len() implies (#[trigger] r[i]).0 >= k && s.contains(
            r[i],
        ) by {
            if i > 0 {
                assert(s[0].0 < s[i].0);
            }
        }
    }
}

/// Inserts `(k, value)` into a key-ordered vector, keeping the order.
pub fn vec_entry_insert<T>(v: &mut Vec<(i64, T)>, k: i64, value: T)
    requires
        keys_sorted(old(v)@),
    ensures
        final(v)@ == entry_insert(old(v)@, k, value),
        keys_sorted(final(v)@),
{
    proof {
        lemma_entry_insert_sorted(old(v)@, k, value);
    }
    let ghost s = v@;
    let mut i: usize = 0;
    while i < v.len() && v[i].0 < k
        invariant
            v@ == s,
            0 <= i <= s.len(),
            forall|j: int| 0 <= j < i ==> (#[trigger] s[j].0) < k,
        decreases s.len() - i,
    {
        i = i + 1;
    }
    proof {
        lemma_entry_insert_unfold(s, k, value, i as int);
    }
    if i < v.len() && v[i].0 == k {
        v.set(i, (k, value));
        proof {
            assert(s.skip(i as int)[0].0 == k);
            assert(s.skip(i as int).skip(1) =~= s.skip(i + 1));
            assert(v@ =~= s.take(i as int) + (seq![(k, value)] + s.skip(i + 1)));
        }
    } else {
        v.insert(i, (k, value));
        proof {
            if i < s.len() {
                assert(k < s.skip(i as int)[0].0);
            }
            assert(v@ =~= s.take(i as int) + (seq![(k, value)] + s.skip(i as int)));
        }
    }
}

/// Removes leading entries with a key below `k` from the front of a
/// vector.
pub fn vec_drop_below<T>(v: &mut Vec<(i64, T)>, k: i64)
    ensures
        final(v)@ == drop_below(old(v)@, k),
{
    loop
        invariant_except_break
            drop_below(v@, k) == drop_below(old(v)@, k),
        ensures
            v@ == drop_below(old(v)@, k),
        decreases v@.len(),
    {
        if v.len() == 0 {
            break ;
        }
        if v[0].0 >= k {
            break ;
        }
        let ghost before = v@;
        v.remove(0);
        proof {
            assert(v@ =~= before.skip(1));
        }
    }
}

} // verus!
