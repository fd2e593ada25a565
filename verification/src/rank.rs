use vstd::prelude::*;
use crate::SNIPPET_COUNT;
use crate::error::ErrorKind;
use crate::error::PipelineError;
use crate::snippet::FileGroup;
use crate::snippet::Snippet;
use crate::sorting::SortKey;
use crate::sorting::sort_by_key;
use crate::sorting::sort_snippets;
use crate::sorting::file_disjoint;
use crate::sorting::pairwise_file_disjoint;

verus! {

/// All groups' passages laid out one group after another.
pub open spec fn flatten_groups(gs: Seq<FileGroup>) -> Seq<Snippet>
    decreases gs.len(),
{
    if gs.len() == 0 {
        Seq::empty()
    } else {
        flatten_groups(gs.drop_last()) + gs.last().snippets@
    }
}

/// What the ranker returns when anything survived: the ascending stable
/// score sort of the flattened groups, cut to the shortlist size.
pub open spec fn rank_spec(gs: Seq<FileGroup>) -> Seq<Snippet> {
    let sorted = sort_by_key(SortKey::Score, flatten_groups(gs));
    if sorted.len() <= SNIPPET_COUNT {
        sorted
    } else {
        sorted.take(SNIPPET_COUNT as int)
    }
}

/// The ranker never keeps more than the shortlist size, and its sort is
/// stable: the pool's passages of any one score survive in the pool's own
/// order before truncation.  Since the result is a pure function of the
/// input, repeated runs on identical input order ties identically.
pub proof fn lemma_ranker_stable(gs: Seq<FileGroup>, c: int)
    ensures
        rank_spec(gs).len() <= SNIPPET_COUNT,
        sort_by_key(SortKey::Score, flatten_groups(gs)).filter(
            |e: Snippet| crate::sorting::sort_key(SortKey::Score, e) == c,
        ) =~= flatten_groups(gs).filter(
            |e: Snippet| crate::sorting::sort_key(SortKey::Score, e) == c,
        ),
{
    crate::sorting::lemma_sort_by_key_props(SortKey::Score, flatten_groups(gs));
    crate::sorting::lemma_sort_by_key_stable(SortKey::Score, flatten_groups(gs), c);
}

/// An element of the flattened pool comes from one of the groups.
pub proof fn lemma_flatten_contains(gs: Seq<FileGroup>, x: Snippet)
    ensures
        flatten_groups(gs).contains(x) ==> exists|g: int|
            0 <= g < gs.len() && (#[trigger] gs[g]).snippets@.contains(x),
    decreases gs.len(),
{
    if gs.len() > 0 && flatten_groups(gs).contains(x) {
        let d = gs.drop_last();
        let flat = flatten_groups(d) + gs.last().snippets@;
        let i = choose|i: int| 0 <= i < flat.len() && flat[i] == x;
        if i < flatten_groups(d).len() {
            assert(flatten_groups(d)[i] == x);
            assert(flatten_groups(d).contains(x));
            lemma_flatten_contains(d, x);
            let g = choose|g: int|
                0 <= g < d.len() && (#[trigger] d[g]).snippets@.contains(x);
            assert(gs[g].snippets@.contains(x));
        } else {
            assert(gs.last().snippets@[i - flatten_groups(d).len()] == x);
            assert(gs[gs.len() - 1].snippets@.contains(x));
        }
    }
}

/// When each group is internally file-disjoint, its passages carry its
/// path, and paths differ across groups, the flattened pool is pairwise
/// file-disjoint.
pub proof fn lemma_flatten_file_disjoint(gs: Seq<FileGroup>)
    requires
        forall|g: int| 0 <= g < gs.len()
            ==> pairwise_file_disjoint((#[trigger] gs[g]).snippets@),
        forall|g: int, i: int|
            0 <= g < gs.len() && 0 <= i < gs[g].snippets@.len()
                ==> (#[trigger] gs[g].snippets@[i]).relative_path@ == gs[g].path@,
        forall|g1: int, g2: int| 0 <= g1 < g2 < gs.len()
            ==> (#[trigger] gs[g1]).path@ != (#[trigger] gs[g2]).path@,
    ensures
        pairwise_file_disjoint(flatten_groups(gs)),
    decreases gs.len(),
{
    if gs.len() > 0 {
        let d = gs.drop_last();
        assert(forall|g: int| 0 <= g < d.len() ==> d[g] == gs[g]);
        lemma_flatten_file_disjoint(d);
        let flat = flatten_groups(gs);
        let head = flatten_groups(d);
        let tail = gs.last().snippets@;
        assert(flat == head + tail);
        assert forall|i: int, j: int| 0 <= i < j < flat.len()
            implies #[trigger] file_disjoint(flat[i], flat[j]) by {
            if j < head.len() {
                assert(file_disjoint(head[i], head[j]));
            } else if i >= head.len() {
                assert(flat[i] == tail[i - head.len()]);
                assert(flat[j] == tail[j - head.len()]);
                assert(pairwise_file_disjoint(tail));
                assert(file_disjoint(tail[i - head.len()], tail[j - head.len()]));
            } else {
                // a passage of an earlier group and one of the last group:
                // their files differ, so they are disjoint by definition
                assert(head.contains(head[i]));
                lemma_flatten_contains(d, head[i]);
                let g = choose|g: int|
                    0 <= g < d.len() && (#[trigger] d[g]).snippets@.contains(head[i]);
                let t = choose|t: int|
                    0 <= t < d[g].snippets@.len() && d[g].snippets@[t] == head[i];
                assert(gs[g].snippets@[t].relative_path@ == gs[g].path@);
                assert(flat[i].relative_path@ == gs[g].path@);
                let jj = j - head.len();
                assert(gs[gs.len() - 1].snippets@[jj].relative_path@
                    == gs[gs.len() - 1].path@);
                assert(flat[j].relative_path@ == gs.last().path@);
                assert(gs[g].path@ != gs[gs.len() - 1].path@);
            }
        }
    }
}

/// Concatenates every group's passages, in group order.
fn flatten(groups: &Vec<FileGroup>) -> (r: Vec<Snippet>)
    ensures
        r@ =~= flatten_groups(groups@),
{
    let mut r: Vec<Snippet> = Vec::new();
    let mut g: usize = 0;
    while g < groups.len()
        invariant
            g <= groups@.len(),
            r@ =~= flatten_groups(groups@.take(g as int)),
        decreases groups@.len() - g,
    {
        let mut i: usize = 0;
        let inner_len = groups[g].snippets.len();
        while i < inner_len
            invariant
                g < groups@.len(),
                i <= groups@[g as int].snippets@.len(),
                inner_len == groups@[g as int].snippets@.len(),
                r@ =~= flatten_groups(groups@.take(g as int))
                    + groups@[g as int].snippets@.take(i as int),
            decreases inner_len - i,
        {
            let x = groups[g].snippets[i].clone();
            r.push(x);
            proof {
                assert(groups@[g as int].snippets@.take(i + 1)
                    =~= groups@[g as int].snippets@.take(i as int).push(
                    groups@[g as int].snippets@[i as int],
                ));
            }
            i = i + 1;
        }
        proof {
            assert(groups@.take(g + 1).drop_last() =~= groups@.take(g as int));
            assert(groups@.take(g + 1).last() == groups@[g as int]);
            assert(groups@[g as int].snippets@.take(inner_len as int)
                =~= groups@[g as int].snippets@);
        }
        g = g + 1;
    }
    proof {
        assert(groups@.take(groups@.len() as int) =~= groups@);
    }
    r
}

/// Merges all groups, sorts the whole pool ascending by score (stable, so
/// equal scores keep their order and repeated runs on identical input
/// return identical output), and keeps at most the shortlist-size prefix.
/// An empty pool is an internal fault: the backend returned nothing usable.
pub fn rank_and_truncate(groups: &Vec<FileGroup>) -> (r: Result<Vec<Snippet>, PipelineError>)
    ensures
        match r {
            Ok(v) => flatten_groups(groups@).len() > 0 && v@ =~= rank_spec(groups@)
                && 0 < v@.len() <= SNIPPET_COUNT,
            Err(e) => flatten_groups(groups@).len() == 0
                && e.kind == ErrorKind::Internal
                && e.message@ == "semantic search returned no snippets"@,
        },
{
    let pool = flatten(groups);
    if pool.len() == 0 {
        return Err(PipelineError::internal("semantic search returned no snippets"));
    }
    let mut sorted = sort_snippets(SortKey::Score, &pool);
    proof {
        crate::sorting::lemma_sort_by_key_props(SortKey::Score, pool@);
    }
    sorted.truncate(SNIPPET_COUNT);
    Ok(sorted)
}

} // verus!
