use vstd::prelude::*;
use crate::snippet::Snippet;
use vstd::multiset::Multiset;

verus! {

/// Which field of a passage a sort orders by.
#[derive(Clone, Copy, Debug, PartialEq, Eq, Structural)]
pub enum SortKey {
    EndLine,
    Score,
}

/// The ordering key of a passage.
pub open spec fn sort_key(k: SortKey, s: Snippet) -> int {
    match k {
        SortKey::EndLine => s.end_line as int,
        SortKey::Score => s.score as int,
    }
}

/// Keys never decrease along the sequence.
pub open spec fn sorted_by_key(k: SortKey, s: Seq<Snippet>) -> bool {
    forall|i: int, j: int|
        0 <= i < j < s.len() ==> sort_key(k, s[i]) <= sort_key(k, s[j])
}

/// Inserts `x` after every element whose key is at most `x`'s own: the
/// stable insertion position, which keeps the input order of equal keys.
pub open spec fn insert_sorted(k: SortKey, x: Snippet, s: Seq<Snippet>) -> Seq<Snippet>
    decreases s.len(),
{
    if s.len() == 0 {
        seq![x]
    } else if sort_key(k, x) < sort_key(k, s.last()) {
        insert_sorted(k, x, s.drop_last()).push(s.last())
    } else {
        s.push(x)
    }
}

/// Stable insertion sort: ascending keys, with elements of equal key kept
/// in their input order.
pub open spec fn sort_by_key(k: SortKey, s: Seq<Snippet>) -> Seq<Snippet>
    decreases s.len(),
{
    if s.len() == 0 {
        Seq::empty()
    } else {
        insert_sorted(k, s.last(), sort_by_key(k, s.drop_last()))
    }
}

/// Inserting adds exactly the new element, keeps the sequence sorted, and
/// grows the length by one.
pub proof fn lemma_insert_sorted_props(k: SortKey, x: Snippet, s: Seq<Snippet>)
    requires
        sorted_by_key(k, s),
    ensures
        insert_sorted(k, x, s).to_multiset() =~= s.to_multiset().insert(x),
        sorted_by_key(k, insert_sorted(k, x, s)),
        insert_sorted(k, x, s).len() == s.len() + 1,
    decreases s.len(),
{
    broadcast use vstd::seq_lib::group_to_multiset_ensures;

    if s.len() == 0 {
        assert(seq![x] =~= Seq::<Snippet>::empty().push(x));
        assert(Seq::<Snippet>::empty().to_multiset() =~= Multiset::<Snippet>::empty());
    } else if sort_key(k, x) < sort_key(k, s.last()) {
        let d = s.drop_last();
        assert(sorted_by_key(k, d)) by {
            assert(forall|i: int| 0 <= i < d.len() ==> d[i] == s[i]);
        }
        lemma_insert_sorted_props(k, x, d);
        let ins = insert_sorted(k, x, d);
        let r = ins.push(s.last());
        assert(s =~= d.push(s.last()));
        assert(r.to_multiset() =~= s.to_multiset().insert(x));
        // every element of `ins` is drawn from `d` or equals `x`, so its key
        // is at most the key of `s.last()`
        assert forall|i: int| 0 <= i < ins.len()
            implies sort_key(k, ins[i]) <= sort_key(k, s.last()) by {
            assert(ins.contains(ins[i]));
            assert(ins.to_multiset().count(ins[i]) > 0);
            if ins[i] != x {
                assert(d.to_multiset().count(ins[i]) > 0);
                assert(d.contains(ins[i]));
                let j = choose|j: int| 0 <= j < d.len() && d[j] == ins[i];
                assert(sort_key(k, s[j]) <= sort_key(k, s.last()));
            }
        }
        assert(sorted_by_key(k, r)) by {
            assert(forall|i: int| 0 <= i < ins.len() ==> r[i] == ins[i]);
        }
    } else {
        let r = s.push(x);
        assert(forall|i: int| 0 <= i < s.len()
            ==> sort_key(k, s[i]) <= sort_key(k, s.last()));
        assert(sorted_by_key(k, r)) by {
            assert(forall|i: int| 0 <= i < s.len() ==> r[i] == s[i]);
            assert(r[s.len() as int] == x);
        }
    }
}

/// Sorting keeps exactly the input elements, yields ascending keys, and
/// keeps the length.
pub proof fn lemma_sort_by_key_props(k: SortKey, s: Seq<Snippet>)
    ensures
        sort_by_key(k, s).to_multiset() =~= s.to_multiset(),
        sorted_by_key(k, sort_by_key(k, s)),
        sort_by_key(k, s).len() == s.len(),
    decreases s.len(),
{
    broadcast use vstd::seq_lib::group_to_multiset_ensures;

    if s.len() > 0 {
        let d = s.drop_last();
        lemma_sort_by_key_props(k, d);
        lemma_insert_sorted_props(k, s.last(), sort_by_key(k, d));
        assert(s =~= d.push(s.last()));
        assert(s.to_multiset() =~= d.to_multiset().insert(s.last()));
    }
}

/// A sorted permutation contains the same elements as its source.
pub proof fn lemma_sort_by_key_contains(k: SortKey, s: Seq<Snippet>, x: Snippet)
    ensures
        sort_by_key(k, s).contains(x) <==> s.contains(x),
{
    broadcast use vstd::seq_lib::group_to_multiset_ensures;

    lemma_sort_by_key_props(k, s);
    assert(sort_by_key(k, s).to_multiset().count(x) == s.to_multiset().count(x));
    assert(s.contains(x) <==> s.to_multiset().count(x) > 0);
    assert(sort_by_key(k, s).contains(x) <==> sort_by_key(k, s).to_multiset().count(x) > 0);
}

/// Every pair of distinct elements is line-compatible.
pub open spec fn pairwise_compatible(s: Seq<Snippet>) -> bool {
    forall|i: int, j: int|
        0 <= i < j < s.len() ==> #[trigger] s[i].compatible_with(#[trigger] s[j])
}

/// Inserting an element that is compatible with everything present keeps
/// the sequence pairwise compatible.
pub proof fn lemma_insert_sorted_pairwise(k: SortKey, x: Snippet, s: Seq<Snippet>)
    requires
        pairwise_compatible(s),
        forall|i: int| 0 <= i < s.len() ==> x.compatible_with(#[trigger] s[i]),
    ensures
        pairwise_compatible(insert_sorted(k, x, s)),
    decreases s.len(),
{
    broadcast use vstd::seq_lib::group_to_multiset_ensures;

    if s.len() == 0 {
    } else if sort_key(k, x) < sort_key(k, s.last()) {
        let d = s.drop_last();
        assert(pairwise_compatible(d)) by {
            assert(forall|i: int| 0 <= i < d.len() ==> d[i] == s[i]);
        }
        assert(forall|i: int| 0 <= i < d.len() ==> x.compatible_with(#[trigger] d[i]));
        lemma_insert_sorted_pairwise(k, x, d);
        let ins = insert_sorted(k, x, d);
        lemma_insert_sorted_props_weak(k, x, d);
        // `s.last()` is compatible with every element of `ins`: each is an
        // element of `d` or is `x` itself
        assert forall|i: int| 0 <= i < ins.len()
            implies ins[i].compatible_with(s.last()) by {
            assert(ins.contains(ins[i]));
            assert(ins.to_multiset().count(ins[i]) > 0);
            if ins[i] == x {
                assert(x.compatible_with(s.last()));
            } else {
                assert(d.to_multiset().count(ins[i]) > 0);
                assert(d.contains(ins[i]));
                let j = choose|j: int| 0 <= j < d.len() && d[j] == ins[i];
                assert(s[j].compatible_with(s.last()));
            }
        }
        let r = ins.push(s.last());
        assert(pairwise_compatible(r)) by {
            assert(forall|i: int| 0 <= i < ins.len() ==> r[i] == ins[i]);
        }
    } else {
        let r = s.push(x);
        assert(pairwise_compatible(r)) by {
            assert(forall|i: int| 0 <= i < s.len() ==> r[i] == s[i]);
            assert(r[s.len() as int] == x);
            assert(forall|i: int| 0 <= i < s.len()
                ==> #[trigger] s[i].compatible_with(x));
        }
    }
}

/// Passages of one file must be line-compatible; passages of different
/// files are unconstrained.
pub open spec fn file_disjoint(a: Snippet, b: Snippet) -> bool {
    a.relative_path@ == b.relative_path@ ==> a.compatible_with(b)
}

/// Every pair of distinct elements is file-disjoint.
pub open spec fn pairwise_file_disjoint(s: Seq<Snippet>) -> bool {
    forall|i: int, j: int|
        0 <= i < j < s.len() ==> #[trigger] file_disjoint(s[i], s[j])
}

/// Inserting an element that is file-disjoint from everything present
/// keeps the sequence pairwise file-disjoint.
proof fn lemma_insert_sorted_file_disjoint(k: SortKey, x: Snippet, s: Seq<Snippet>)
    requires
        pairwise_file_disjoint(s),
        forall|i: int| 0 <= i < s.len() ==> file_disjoint(x, #[trigger] s[i]),
    ensures
        pairwise_file_disjoint(insert_sorted(k, x, s)),
    decreases s.len(),
{
    broadcast use vstd::seq_lib::group_to_multiset_ensures;

    if s.len() == 0 {
    } else if sort_key(k, x) < sort_key(k, s.last()) {
        let d = s.drop_last();
        assert(pairwise_file_disjoint(d)) by {
            assert(forall|i: int| 0 <= i < d.len() ==> d[i] == s[i]);
        }
        assert(forall|i: int| 0 <= i < d.len() ==> file_disjoint(x, #[trigger] d[i]));
        lemma_insert_sorted_file_disjoint(k, x, d);
        let ins = insert_sorted(k, x, d);
        lemma_insert_sorted_props_weak(k, x, d);
        assert forall|i: int| 0 <= i < ins.len()
            implies file_disjoint(ins[i], s.last()) by {
            assert(ins.contains(ins[i]));
            assert(ins.to_multiset().count(ins[i]) > 0);
            if ins[i] == x {
                assert(file_disjoint(x, s.last()));
            } else {
                assert(d.to_multiset().count(ins[i]) > 0);
                assert(d.contains(ins[i]));
                let j = choose|j: int| 0 <= j < d.len() && d[j] == ins[i];
                assert(file_disjoint(s[j], s.last()));
            }
        }
        let r = ins.push(s.last());
        assert(pairwise_file_disjoint(r)) by {
            assert(forall|i: int| 0 <= i < ins.len() ==> r[i] == ins[i]);
        }
    } else {
        let r = s.push(x);
        assert(pairwise_file_disjoint(r)) by {
            assert(forall|i: int| 0 <= i < s.len() ==> r[i] == s[i]);
            assert(r[s.len() as int] == x);
            assert(forall|i: int| 0 <= i < s.len()
                ==> file_disjoint(#[trigger] s[i], x));
        }
    }
}

/// Sorting keeps pairwise file-disjointness: it only permutes.
pub proof fn lemma_sort_by_key_file_disjoint(k: SortKey, s: Seq<Snippet>)
    requires
        pairwise_file_disjoint(s),
    ensures
        pairwise_file_disjoint(sort_by_key(k, s)),
    decreases s.len(),
{
    broadcast use vstd::seq_lib::group_to_multiset_ensures;

    if s.len() > 0 {
        let d = s.drop_last();
        assert(pairwise_file_disjoint(d)) by {
            assert(forall|i: int| 0 <= i < d.len() ==> d[i] == s[i]);
        }
        lemma_sort_by_key_file_disjoint(k, d);
        lemma_sort_by_key_props(k, d);
        let sd = sort_by_key(k, d);
        assert forall|i: int| 0 <= i < sd.len()
            implies file_disjoint(s.last(), #[trigger] sd[i]) by {
            assert(sd.contains(sd[i]));
            assert(sd.to_multiset().count(sd[i]) > 0);
            assert(d.to_multiset().count(sd[i]) > 0);
            assert(d.contains(sd[i]));
            let j = choose|j: int| 0 <= j < d.len() && d[j] == sd[i];
            assert(file_disjoint(s[j], s.last()));
        }
        lemma_insert_sorted_file_disjoint(k, s.last(), sd);
    }
}

/// The multiset identity of `insert_sorted`, free of any sortedness demand.
pub proof fn lemma_insert_sorted_props_weak(k: SortKey, x: Snippet, s: Seq<Snippet>)
    ensures
        insert_sorted(k, x, s).to_multiset() =~= s.to_multiset().insert(x),
        insert_sorted(k, x, s).len() == s.len() + 1,
    decreases s.len(),
{
    broadcast use vstd::seq_lib::group_to_multiset_ensures;

    if s.len() == 0 {
        assert(seq![x] =~= Seq::<Snippet>::empty().push(x));
        assert(Seq::<Snippet>::empty().to_multiset() =~= Multiset::<Snippet>::empty());
    } else if sort_key(k, x) < sort_key(k, s.last()) {
        let d = s.drop_last();
        lemma_insert_sorted_props_weak(k, x, d);
        assert(s =~= d.push(s.last()));
    }
}

/// Sorting keeps pairwise line-compatibility: it only permutes.
pub proof fn lemma_sort_by_key_pairwise(k: SortKey, s: Seq<Snippet>)
    requires
        pairwise_compatible(s),
    ensures
        pairwise_compatible(sort_by_key(k, s)),
    decreases s.len(),
{
    broadcast use vstd::seq_lib::group_to_multiset_ensures;

    if s.len() > 0 {
        let d = s.drop_last();
        assert(pairwise_compatible(d)) by {
            assert(forall|i: int| 0 <= i < d.len() ==> d[i] == s[i]);
        }
        lemma_sort_by_key_pairwise(k, d);
        lemma_sort_by_key_props(k, d);
        let sd = sort_by_key(k, d);
        assert forall|i: int| 0 <= i < sd.len()
            implies s.last().compatible_with(#[trigger] sd[i]) by {
            assert(sd.contains(sd[i]));
            assert(sd.to_multiset().count(sd[i]) > 0);
            assert(d.to_multiset().count(sd[i]) > 0);
            assert(d.contains(sd[i]));
            let j = choose|j: int| 0 <= j < d.len() && d[j] == sd[i];
            assert(s[j].compatible_with(s.last()));
        }
        lemma_insert_sorted_pairwise(k, s.last(), sd);
    }
}

/// Inserting one element touches exactly one key class: among the
/// elements of any one key value, `x` lands last when it belongs there,
/// and every other class is left as it was.
proof fn lemma_insert_sorted_filter(k: SortKey, x: Snippet, t: Seq<Snippet>, c: int)
    ensures
        insert_sorted(k, x, t).filter(|e: Snippet| sort_key(k, e) == c)
            =~= if sort_key(k, x) == c {
                t.filter(|e: Snippet| sort_key(k, e) == c).push(x)
            } else {
                t.filter(|e: Snippet| sort_key(k, e) == c)
            },
    decreases t.len(),
{
    reveal(Seq::filter);
    let pred = |e: Snippet| sort_key(k, e) == c;
    if t.len() == 0 {
        assert(seq![x].drop_last() =~= Seq::<Snippet>::empty());
        assert(seq![x].last() == x);
        assert(Seq::<Snippet>::empty().filter(pred) =~= Seq::<Snippet>::empty());
    } else if sort_key(k, x) < sort_key(k, t.last()) {
        let d = t.drop_last();
        lemma_insert_sorted_filter(k, x, d, c);
        let ins = insert_sorted(k, x, d);
        let r = ins.push(t.last());
        assert(r.drop_last() =~= ins);
        assert(r.drop_last() == ins);
        assert(r.last() == t.last());
        assert(t.drop_last() == d);
        if pred(t.last()) {
            // `x` sorts strictly below this class, so it is not of it
            assert(!pred(x));
            assert(r.filter(pred) =~= ins.filter(pred).push(t.last()));
            assert(t.filter(pred) =~= d.filter(pred).push(t.last()));
        } else {
            assert(r.filter(pred) =~= ins.filter(pred));
            assert(t.filter(pred) =~= d.filter(pred));
        }
    } else {
        let r = t.push(x);
        assert(r.drop_last() =~= t);
        assert(r.drop_last() == t);
        assert(r.last() == x);
    }
}

/// The sort is stable: for any one key value, the sorted sequence's
/// elements of that value are exactly the input's elements of that value,
/// in the input's order.  Together with sortedness and the multiset
/// identity this pins the sort down completely.
pub proof fn lemma_sort_by_key_stable(k: SortKey, s: Seq<Snippet>, c: int)
    ensures
        sort_by_key(k, s).filter(|e: Snippet| sort_key(k, e) == c)
            =~= s.filter(|e: Snippet| sort_key(k, e) == c),
    decreases s.len(),
{
    reveal(Seq::filter);
    let pred = |e: Snippet| sort_key(k, e) == c;
    if s.len() > 0 {
        let d = s.drop_last();
        lemma_sort_by_key_stable(k, d, c);
        lemma_insert_sorted_filter(k, s.last(), sort_by_key(k, d), c);
        assert(s.drop_last() == d);
        if pred(s.last()) {
            assert(s.filter(pred) =~= d.filter(pred).push(s.last()));
        } else {
            assert(s.filter(pred) =~= d.filter(pred));
        }
    } else {
        assert(sort_by_key(k, s) =~= s);
    }
}

/// Exec comparison of two passages' keys.
fn key_gt(k: SortKey, a: &Snippet, b: &Snippet) -> (r: bool)
    ensures
        r == (sort_key(k, *a) > sort_key(k, *b)),
{
    match k {
        SortKey::EndLine => a.end_line > b.end_line,
        SortKey::Score => a.score > b.score,
    }
}

/// With the suffix strictly greater and the element before the slot not
/// greater, inserting at the slot is exactly the stable insertion.
proof fn lemma_insert_sorted_at(k: SortKey, x: Snippet, s: Seq<Snippet>, p: int)
    requires
        sorted_by_key(k, s),
        0 <= p <= s.len(),
        forall|t: int| p <= t < s.len() ==> sort_key(k, #[trigger] s[t]) > sort_key(k, x),
        p > 0 ==> sort_key(k, s[p - 1]) <= sort_key(k, x),
    ensures
        insert_sorted(k, x, s) =~= s.take(p) + seq![x] + s.skip(p),
    decreases s.len(),
{
    if s.len() == 0 {
        assert(s.take(p) + seq![x] + s.skip(p) =~= seq![x]);
    } else if sort_key(k, x) < sort_key(k, s.last()) {
        let d = s.drop_last();
        assert(sorted_by_key(k, d)) by {
            assert(forall|i: int| 0 <= i < d.len() ==> d[i] == s[i]);
        }
        assert(p <= d.len()) by {
            if p == s.len() {
                assert(sort_key(k, s[p - 1]) <= sort_key(k, x));
            }
        }
        lemma_insert_sorted_at(k, x, d, p);
        assert(insert_sorted(k, x, d).push(s.last()) =~= s.take(p) + seq![x] + s.skip(p));
    } else {
        assert(p == s.len()) by {
            if p < s.len() {
                assert(sort_key(k, s[p]) > sort_key(k, x));
                assert(sort_key(k, s[p]) <= sort_key(k, s.last()));
            }
        }
        assert(s.push(x) =~= s.take(p) + seq![x] + s.skip(p));
    }
}

/// Sorts the passages by the chosen key, ascending and stable.
pub fn sort_snippets(k: SortKey, v: &Vec<Snippet>) -> (r: Vec<Snippet>)
    ensures
        r@ =~= sort_by_key(k, v@),
{
    let mut out: Vec<Snippet> = Vec::new();
    let mut idx: usize = 0;
    while idx < v.len()
        invariant
            idx <= v@.len(),
            out@ =~= sort_by_key(k, v@.take(idx as int)),
            sorted_by_key(k, out@),
        decreases v@.len() - idx,
    {
        let x = v[idx].clone();
        let ghost pre = out@;
        let mut j: usize = out.len();
        while j > 0 && key_gt(k, &out[j - 1], &x)
            invariant
                j <= out@.len(),
                out@ == pre,
                forall|t: int| j <= t < out@.len()
                    ==> sort_key(k, #[trigger] out@[t]) > sort_key(k, x),
            decreases j,
        {
            j = j - 1;
        }
        proof {
            lemma_insert_sorted_at(k, x, pre, j as int);
            lemma_insert_sorted_props(k, x, pre);
        }
        out.insert(j, x);
        proof {
            assert(out@ =~= pre.take(j as int) + seq![x] + pre.skip(j as int));
            assert(out@ =~= insert_sorted(k, x, pre));
            assert(v@.take(idx + 1).drop_last() =~= v@.take(idx as int));
            assert(v@.take(idx + 1).last() == v@[idx as int]);
        }
        idx = idx + 1;
    }
    proof {
        assert(v@.take(v@.len() as int) =~= v@);
    }
    out
}

} // verus!
