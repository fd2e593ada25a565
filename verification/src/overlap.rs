use vstd::prelude::*;
use crate::snippet::Snippet;
use crate::sorting::SortKey;
use crate::sorting::insert_sorted;
use crate::sorting::lemma_sort_by_key_contains;
use crate::sorting::lemma_sort_by_key_pairwise;
use crate::sorting::lemma_sort_by_key_props;
use crate::sorting::pairwise_compatible;
use crate::sorting::sort_by_key;
use crate::sorting::sort_key;
use crate::sorting::sort_snippets;
use crate::sorting::sorted_by_key;

verus! {

/// The greedy scan over an end-line-sorted sequence: a passage is kept
/// exactly when its first line lies strictly after the line where the most
/// recently kept passage ends.
pub open spec fn greedy_select(s: Seq<Snippet>, last_end: int) -> Seq<Snippet>
    decreases s.len(),
{
    if s.len() == 0 {
        Seq::empty()
    } else if s.first().start_line > last_end {
        seq![s.first()] + greedy_select(s.drop_first(), s.first().end_line as int)
    } else {
        greedy_select(s.drop_first(), last_end)
    }
}

/// What the overlap resolver returns for one file's passages: sort by end
/// line (stable), keep the greedy maximal non-overlapping subset (the
/// first passage is always kept, since no line number is negative), then
/// sort the kept subset by score (stable).
pub open spec fn resolve_spec(s: Seq<Snippet>) -> Seq<Snippet> {
    sort_by_key(SortKey::Score, greedy_select(sort_by_key(SortKey::EndLine, s), -1))
}

/// The greedy scan keeps a pairwise line-compatible subset of its input,
/// every element of which starts strictly after `last_end`.
pub proof fn lemma_greedy_props(s: Seq<Snippet>, last_end: int)
    requires
        forall|i: int| 0 <= i < s.len() ==> (#[trigger] s[i]).lines_wf(),
    ensures
        pairwise_compatible(greedy_select(s, last_end)),
        forall|i: int| 0 <= i < greedy_select(s, last_end).len()
            ==> (#[trigger] greedy_select(s, last_end)[i]).start_line > last_end,
        forall|x: Snippet| greedy_select(s, last_end).contains(x) ==> s.contains(x),
        greedy_select(s, last_end).len() <= s.len(),
    decreases s.len(),
{
    if s.len() == 0 {
    } else {
        let d = s.drop_first();
        assert(forall|i: int| 0 <= i < d.len() ==> d[i] == s[i + 1]);
        let f = s.first();
        if f.start_line > last_end {
            lemma_greedy_props(d, f.end_line as int);
            let rest = greedy_select(d, f.end_line as int);
            let r = seq![f] + rest;
            assert(r[0] == f);
            assert(forall|i: int| 1 <= i < r.len() ==> r[i] == rest[i - 1]);
            // `f` starts after `last_end` and, being well formed, ends no
            // earlier than it starts; everything kept later starts after
            // `f.end_line`
            assert(f.lines_wf());
            assert forall|i: int, j: int| 0 <= i < j < r.len()
                implies (#[trigger] r[i]).compatible_with(#[trigger] r[j]) by {
                if i == 0 {
                    assert(rest[j - 1].start_line > f.end_line);
                }
            }
            assert forall|x: Snippet| r.contains(x) implies s.contains(x) by {
                let i = choose|i: int| 0 <= i < r.len() && r[i] == x;
                if i == 0 {
                    assert(s[0] == x);
                } else {
                    assert(rest.contains(rest[i - 1]));
                    assert(d.contains(x));
                    let j = choose|j: int| 0 <= j < d.len() && d[j] == x;
                    assert(s[j + 1] == x);
                }
            }
        } else {
            lemma_greedy_props(d, last_end);
            assert forall|x: Snippet| greedy_select(s, last_end).contains(x)
                implies s.contains(x) by {
                assert(d.contains(x));
                let j = choose|j: int| 0 <= j < d.len() && d[j] == x;
                assert(s[j + 1] == x);
            }
        }
    }
}

/// On a sorted, pairwise compatible sequence whose every element starts
/// after `last_end`, the greedy scan keeps everything.
proof fn lemma_greedy_keeps_compatible(s: Seq<Snippet>, last_end: int)
    requires
        sorted_by_key(SortKey::EndLine, s),
        pairwise_compatible(s),
        forall|i: int| 0 <= i < s.len() ==> (#[trigger] s[i]).lines_wf(),
        forall|i: int| 0 <= i < s.len() ==> (#[trigger] s[i]).start_line > last_end,
    ensures
        greedy_select(s, last_end) =~= s,
    decreases s.len(),
{
    if s.len() > 0 {
        let f = s.first();
        let d = s.drop_first();
        assert(forall|i: int| 0 <= i < d.len() ==> d[i] == s[i + 1]);
        assert(f.start_line > last_end);
        // a later passage overlapping `f` would have to end before `f`
        // starts, impossible under the end-line sort and well-formed lines
        assert forall|i: int| 0 <= i < d.len()
            implies (#[trigger] d[i]).start_line > f.end_line by {
            assert(s[0].compatible_with(s[i + 1]));
            if !(d[i].start_line > f.end_line) {
                assert(f.start_line > d[i].end_line);
                assert(sort_key(SortKey::EndLine, s[0])
                    <= sort_key(SortKey::EndLine, s[i + 1]));
            }
        }
        lemma_greedy_keeps_compatible(d, f.end_line as int);
    }
}

/// Removes overlapping passages of one file: the classical interval
/// scheduling greedy over the end-line sort, followed by an ascending
/// stable sort of the survivors by score.
pub fn resolve_overlaps(v: &Vec<Snippet>) -> (r: Vec<Snippet>)
    ensures
        r@ =~= resolve_spec(v@),
{
    let sorted = sort_snippets(SortKey::EndLine, v);
    let ghost t = sort_by_key(SortKey::EndLine, v@);
    let mut kept: Vec<Snippet> = Vec::new();
    proof {
        assert(t.skip(0) =~= t);
        assert(kept@ + greedy_select(t, -1) =~= greedy_select(t, -1));
    }
    let mut started = false;
    let mut last_end: usize = 0;
    let mut i: usize = 0;
    while i < sorted.len()
        invariant
            i <= sorted@.len(),
            sorted@ =~= t,
            kept@ + greedy_select(
                t.skip(i as int),
                if started { last_end as int } else { -1 },
            ) =~= greedy_select(t, -1),
        decreases sorted@.len() - i,
    {
        let ghost cur: int = if started { last_end as int } else { -1 };
        proof {
            assert(t.skip(i as int).first() == t[i as int]);
            assert(t.skip(i as int).drop_first() =~= t.skip(i + 1));
        }
        let keep = if !started {
            true
        } else {
            sorted[i].start_line > last_end
        };
        if keep {
            last_end = sorted[i].end_line;
            started = true;
            let x = sorted[i].clone();
            proof {
                assert(greedy_select(t.skip(i as int), cur) =~= seq![t[i as int]]
                    + greedy_select(t.skip(i + 1), t[i as int].end_line as int));
                assert((kept@ + greedy_select(t.skip(i as int), cur)) =~= (kept@.push(
                    t[i as int],
                ) + greedy_select(t.skip(i + 1), t[i as int].end_line as int)));
            }
            kept.push(x);
        } else {
            proof {
                assert(greedy_select(t.skip(i as int), cur) =~= greedy_select(
                    t.skip(i + 1),
                    cur,
                ));
            }
        }
        i = i + 1;
    }
    proof {
        assert(t.skip(t.len() as int) =~= Seq::<Snippet>::empty());
        assert(kept@ =~= greedy_select(t, -1));
    }
    sort_snippets(SortKey::Score, &kept)
}

/// The greedy scan invents no passage: whatever it keeps was in its input.
proof fn lemma_greedy_subset(s: Seq<Snippet>, last_end: int)
    ensures
        forall|x: Snippet| greedy_select(s, last_end).contains(x) ==> s.contains(x),
    decreases s.len(),
{
    if s.len() > 0 {
        let d = s.drop_first();
        assert(forall|i: int| 0 <= i < d.len() ==> d[i] == s[i + 1]);
        let f = s.first();
        if f.start_line > last_end {
            lemma_greedy_subset(d, f.end_line as int);
            let rest = greedy_select(d, f.end_line as int);
            let r = seq![f] + rest;
            assert forall|x: Snippet| r.contains(x) implies s.contains(x) by {
                let i = choose|i: int| 0 <= i < r.len() && r[i] == x;
                if i == 0 {
                    assert(s[0] == x);
                } else {
                    assert(rest[i - 1] == x);
                    assert(rest.contains(x));
                    assert(d.contains(x));
                    let j = choose|j: int| 0 <= j < d.len() && d[j] == x;
                    assert(s[j + 1] == x);
                }
            }
        } else {
            lemma_greedy_subset(d, last_end);
            assert forall|x: Snippet| greedy_select(s, last_end).contains(x)
                implies s.contains(x) by {
                assert(d.contains(x));
                let j = choose|j: int| 0 <= j < d.len() && d[j] == x;
                assert(s[j + 1] == x);
            }
        }
    }
}

/// The resolver invents no passage either.
pub proof fn lemma_resolve_subset(s: Seq<Snippet>, x: Snippet)
    ensures
        resolve_spec(s).contains(x) ==> s.contains(x),
{
    if resolve_spec(s).contains(x) {
        let t = sort_by_key(SortKey::EndLine, s);
        let g = greedy_select(t, -1);
        lemma_sort_by_key_contains(SortKey::Score, g, x);
        lemma_greedy_subset(t, -1);
        lemma_sort_by_key_contains(SortKey::EndLine, s, x);
    }
}

/// A file with any passage at all keeps at least one: the greedy scan
/// always keeps the first passage of the end-line sort.
pub proof fn lemma_resolve_len_pos(s: Seq<Snippet>)
    requires
        s.len() > 0,
    ensures
        resolve_spec(s).len() > 0,
{
    let t = sort_by_key(SortKey::EndLine, s);
    lemma_sort_by_key_props(SortKey::EndLine, s);
    assert(t.len() == s.len());
    let g = greedy_select(t, -1);
    assert(t.first().start_line > -1);
    assert(g == seq![t.first()] + greedy_select(t.drop_first(), t.first().end_line as int));
    assert(g.len() > 0);
    lemma_sort_by_key_props(SortKey::Score, g);
}

/// Of two passages of one file that overlap — the later-ending one starts
/// at or before the line where the earlier-ending one ends — at most one
/// survives resolution: any two distinct survivors are line-compatible.
pub proof fn lemma_resolver_drops_overlaps(s: Seq<Snippet>)
    requires
        forall|i: int| 0 <= i < s.len() ==> (#[trigger] s[i]).lines_wf(),
    ensures
        pairwise_compatible(resolve_spec(s)),
{
    let t = sort_by_key(SortKey::EndLine, s);
    lemma_sort_by_key_props(SortKey::EndLine, s);
    assert forall|i: int| 0 <= i < t.len() implies (#[trigger] t[i]).lines_wf() by {
        assert(t.contains(t[i]));
        lemma_sort_by_key_contains(SortKey::EndLine, s, t[i]);
        let j = choose|j: int| 0 <= j < s.len() && s[j] == t[i];
        assert(s[j].lines_wf());
    }
    lemma_greedy_props(t, -1);
    lemma_sort_by_key_pairwise(SortKey::Score, greedy_select(t, -1));
}

/// On a pairwise non-overlapping input the resolver returns the input
/// unchanged, order aside: the survivors are exactly the input passages.
pub proof fn lemma_resolver_keeps_nonoverlapping(s: Seq<Snippet>)
    requires
        forall|i: int| 0 <= i < s.len() ==> (#[trigger] s[i]).lines_wf(),
        pairwise_compatible(s),
    ensures
        resolve_spec(s).to_multiset() =~= s.to_multiset(),
{
    let t = sort_by_key(SortKey::EndLine, s);
    lemma_sort_by_key_props(SortKey::EndLine, s);
    lemma_sort_by_key_pairwise(SortKey::EndLine, s);
    assert forall|i: int| 0 <= i < t.len() implies (#[trigger] t[i]).lines_wf() by {
        assert(t.contains(t[i]));
        lemma_sort_by_key_contains(SortKey::EndLine, s, t[i]);
        let j = choose|j: int| 0 <= j < s.len() && s[j] == t[i];
        assert(s[j].lines_wf());
    }
    lemma_greedy_keeps_compatible(t, -1);
    assert(greedy_select(t, -1) =~= t);
    lemma_sort_by_key_props(SortKey::Score, greedy_select(t, -1));
    assert(resolve_spec(s).to_multiset() =~= t.to_multiset());
}

} // verus!
