//! A stable sort of keyed moves, highest key first.
//!
//! Moves with equal keys keep the order in which they were generated, which
//! is what `slice::sort_by` gives the search.

use vstd::prelude::*;
use crate::types::Move;

verus! {

/// A move together with its ordering key.
pub type Keyed = (i32, Move);

/// Insert `x` into `sorted` after every element whose key is at least the
/// key of `x`.
pub open spec fn insert_desc(sorted: Seq<Keyed>, x: Keyed) -> Seq<Keyed>
    decreases sorted.len(),
{
    if sorted.len() == 0 {
        seq![x]
    } else if sorted.last().0 >= x.0 {
        sorted.push(x)
    } else {
        insert_desc(sorted.drop_last(), x).push(sorted.last())
    }
}

/// The stable sort of `s` by key, highest first: each element in turn is
/// placed after all earlier elements whose key is at least its own.
pub open spec fn sort_desc(s: Seq<Keyed>) -> Seq<Keyed>
    decreases s.len(),
{
    if s.len() == 0 {
        s
    } else {
        insert_desc(sort_desc(s.drop_last()), s.last())
    }
}

/// The keys of a sequence never increase.
pub open spec fn keys_descending(s: Seq<Keyed>) -> bool {
    forall|i: int, j: int| 0 <= i < j < s.len() ==> s[i].0 >= s[j].0
}

/// Scanning back from the end of `s` to the first element whose key is at
/// least that of `x` finds where `insert_desc` puts `x`.
proof fn lemma_insert_at(s: Seq<Keyed>, x: Keyed, j: int)
    requires
        0 <= j <= s.len(),
        j == 0 || s[j - 1].0 >= x.0,
        forall|k: int| j <= k < s.len() ==> s[k].0 < x.0,
    ensures
        insert_desc(s, x) == s.insert(j, x),
    decreases s.len(),
{
    if s.len() == 0 {
        assert(s.insert(j, x) =~= seq![x]);
    } else if s.last().0 >= x.0 {
        assert(s.insert(j, x) =~= s.push(x));
    } else {
        let d = s.drop_last();
        lemma_insert_at(d, x, j);
        assert(d.insert(j, x).push(s.last()) =~= s.insert(j, x));
    }
}

/// Inserting adds exactly one element: everything in the result was in
/// `sorted` or is `x`, and everything of `sorted` and `x` is in the result.
pub proof fn lemma_insert_elements(sorted: Seq<Keyed>, x: Keyed)
    ensures
        insert_desc(sorted, x).len() == sorted.len() + 1,
        insert_desc(sorted, x).contains(x),
        forall|i: int|
            0 <= i < insert_desc(sorted, x).len() ==> sorted.contains(#[trigger] insert_desc(sorted, x)[i])
                || insert_desc(sorted, x)[i] == x,
        forall|i: int| 0 <= i < sorted.len() ==> insert_desc(sorted, x).contains(#[trigger] sorted[i]),
    decreases sorted.len(),
{
    let r = insert_desc(sorted, x);
    if sorted.len() == 0 {
        assert(r[0] == x);
    } else if sorted.last().0 >= x.0 {
        assert(r[sorted.len() as int] == x);
        assert forall|i: int| 0 <= i < sorted.len() implies r.contains(#[trigger] sorted[i]) by {
            assert(r[i] == sorted[i]);
        }
    } else {
        let d = sorted.drop_last();
        lemma_insert_elements(d, x);
        let rd = insert_desc(d, x);
        assert(r == rd.push(sorted.last()));
        let k = choose|k: int| 0 <= k < rd.len() && rd[k] == x;
        assert(r[k] == x);
        assert forall|i: int| 0 <= i < r.len() implies sorted.contains(#[trigger] r[i]) || r[i] == x by {
            if i < rd.len() {
                assert(r[i] == rd[i]);
                if d.contains(rd[i]) {
                    let m = choose|m: int| 0 <= m < d.len() && d[m] == rd[i];
                    assert(sorted[m] == d[m]);
                }
            } else {
                assert(r[i] == sorted[sorted.len() - 1]);
            }
        }
        assert forall|i: int| 0 <= i < sorted.len() implies r.contains(#[trigger] sorted[i]) by {
            if i < d.len() {
                assert(d[i] == sorted[i]);
                assert(rd.contains(d[i]));
                let m = choose|m: int| 0 <= m < rd.len() && rd[m] == d[i];
                assert(r[m] == rd[m]);
            } else {
                assert(r[r.len() - 1] == sorted[i]);
            }
        }
    }
}

/// Sorting keeps the length, and every element of the result comes from
/// the input and every element of the input is in the result.
pub proof fn lemma_sort_elements(s: Seq<Keyed>)
    ensures
        sort_desc(s).len() == s.len(),
        forall|i: int| 0 <= i < sort_desc(s).len() ==> s.contains(#[trigger] sort_desc(s)[i]),
        forall|i: int| 0 <= i < s.len() ==> sort_desc(s).contains(#[trigger] s[i]),
    decreases s.len(),
{
    if s.len() > 0 {
        let d = s.drop_last();
        lemma_sort_elements(d);
        let sd = sort_desc(d);
        lemma_insert_elements(sd, s.last());
        let r = sort_desc(s);
        assert forall|i: int| 0 <= i < r.len() implies s.contains(#[trigger] r[i]) by {
            if sd.contains(r[i]) {
                let m = choose|m: int| 0 <= m < sd.len() && sd[m] == r[i];
                assert(d.contains(sd[m]));
                let k = choose|k: int| 0 <= k < d.len() && d[k] == sd[m];
                assert(s[k] == d[k]);
            } else {
                assert(s[s.len() - 1] == r[i]);
            }
        }
        assert forall|i: int| 0 <= i < s.len() implies r.contains(#[trigger] s[i]) by {
            if i < d.len() {
                assert(s[i] == d[i]);
                assert(sd.contains(d[i]));
                let m = choose|m: int| 0 <= m < sd.len() && sd[m] == d[i];
                assert(r.contains(sd[m]));
            } else {
                assert(s[i] == s.last());
            }
        }
    }
}

/// Inserting into a sequence with descending keys keeps the keys descending.
proof fn lemma_insert_descending(sorted: Seq<Keyed>, x: Keyed)
    requires
        keys_descending(sorted),
    ensures
        keys_descending(insert_desc(sorted, x)),
    decreases sorted.len(),
{
    if sorted.len() > 0 && sorted.last().0 < x.0 {
        let d = sorted.drop_last();
        lemma_insert_descending(d, x);
        lemma_insert_elements(d, x);
        let rd = insert_desc(d, x);
        let r = rd.push(sorted.last());
        assert forall|i: int, j: int| 0 <= i < j < r.len() implies r[i].0 >= r[j].0 by {
            if j == r.len() - 1 {
                if d.contains(rd[i]) {
                    let m = choose|m: int| 0 <= m < d.len() && d[m] == rd[i];
                    assert(sorted[m] == d[m]);
                }
                assert(r[i] == rd[i]);
            } else {
                assert(r[i] == rd[i] && r[j] == rd[j]);
            }
        }
    }
}

/// The result of the sort has descending keys.
pub proof fn lemma_sort_descending(s: Seq<Keyed>)
    ensures
        keys_descending(sort_desc(s)),
    decreases s.len(),
{
    if s.len() > 0 {
        lemma_sort_descending(s.drop_last());
        lemma_insert_descending(sort_desc(s.drop_last()), s.last());
    }
}

/// Sort keyed moves by key, highest first, keeping the order of equal keys.
pub fn sort_desc_by_key(items: &Vec<Keyed>) -> (out: Vec<Keyed>)
    ensures
        out@ == sort_desc(items@),
{
    let mut out: Vec<Keyed> = Vec::new();
    let n = items.len();
    let mut i: usize = 0;
    proof {
        assert(items@.take(0) =~= Seq::<Keyed>::empty());
    }
    while i < n
        invariant
            0 <= i <= n,
            n == items@.len(),
            out@ == sort_desc(items@.take(i as int)),
        decreases n - i,
    {
        let x = items[i];
        let mut j = out.len();
        while j > 0 && out[j - 1].0 < x.0
            invariant
                j <= out@.len(),
                forall|k: int| j <= k < out@.len() ==> out@[k].0 < x.0,
            decreases j,
        {
            j -= 1;
        }
        proof {
            lemma_insert_at(out@, x, j as int);
            assert(items@.take(i + 1).drop_last() =~= items@.take(i as int));
            assert(items@.take(i + 1).last() == x);
        }
        out.insert(j, x);
        i += 1;
    }
    proof {
        assert(items@.take(n as int) =~= items@);
    }
    out
}

} // verus!
