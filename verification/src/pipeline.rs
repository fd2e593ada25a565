use vstd::prelude::*;
use crate::SNIPPET_COUNT;
use crate::error::ErrorKind;
use crate::error::PipelineError;
use crate::group::covered;
use crate::group::group_by_path;
use crate::group::lemma_of_path_subset;
use crate::group::of_path;
use crate::overlap::lemma_resolve_len_pos;
use crate::overlap::lemma_resolver_drops_overlaps;
use crate::overlap::lemma_resolve_subset;
use crate::overlap::resolve_overlaps;
use crate::overlap::resolve_spec;
use crate::rank::flatten_groups;
use crate::rank::lemma_flatten_contains;
use crate::rank::lemma_flatten_file_disjoint;
use crate::rank::rank_and_truncate;
use crate::snippet::FileGroup;
use crate::snippet::Snippet;
use crate::sorting::SortKey;
use crate::sorting::file_disjoint;
use crate::sorting::lemma_sort_by_key_contains;
use crate::sorting::lemma_sort_by_key_file_disjoint;
use crate::sorting::pairwise_compatible;
use crate::sorting::pairwise_file_disjoint;
use crate::sorting::lemma_sort_by_key_props;
use crate::sorting::sort_by_key;
use crate::sorting::sorted_by_key;

verus! {

/// Resolves overlaps in every file group independently, leaving paths and
/// group order untouched.
pub fn resolve_groups(groups: Vec<FileGroup>) -> (r: Vec<FileGroup>)
    ensures
        r@.len() == groups@.len(),
        forall|g: int| 0 <= g < r@.len() ==> (#[trigger] r@[g]).path == groups@[g].path
            && r@[g].snippets@ =~= resolve_spec(groups@[g].snippets@),
{
    let mut r: Vec<FileGroup> = Vec::new();
    let mut g: usize = 0;
    while g < groups.len()
        invariant
            g <= groups@.len(),
            r@.len() == g,
            forall|h: int| 0 <= h < g ==> (#[trigger] r@[h]).path == groups@[h].path
                && r@[h].snippets@ =~= resolve_spec(groups@[h].snippets@),
        decreases groups@.len() - g,
    {
        let snippets = resolve_overlaps(&groups[g].snippets);
        let path = groups[g].path.clone();
        r.push(FileGroup { path, snippets });
        g = g + 1;
    }
    r
}

/// The deduplication and ranking half of the pipeline: groups the decoded
/// passages by file, removes overlaps per file, merges, sorts ascending
/// by score, and caps the result at the shortlist size.  Succeeds exactly
/// when any passage came in at all; an empty pool is the backend's fault
/// and is reported as an internal error.  Every passage handed back is
/// one of the passages handed in, and — whenever the input's line ranges
/// are well formed — no two surviving passages of one file overlap.
pub fn build_shortlist(snippets: Vec<Snippet>) -> (r: Result<Vec<Snippet>, PipelineError>)
    ensures
        match r {
            Ok(v) => snippets@.len() > 0 && 0 < v@.len() <= SNIPPET_COUNT
                && sorted_by_key(SortKey::Score, v@)
                && (forall|t: int| 0 <= t < v@.len()
                    ==> snippets@.contains(#[trigger] v@[t]))
                && ((forall|i: int| 0 <= i < snippets@.len()
                    ==> (#[trigger] snippets@[i]).lines_wf())
                    ==> pairwise_file_disjoint(v@)),
            Err(e) => snippets@.len() == 0 && e.kind == ErrorKind::Internal
                && e.message@ == "semantic search returned no snippets"@,
        },
{
    let groups = group_by_path(&snippets);
    let resolved = resolve_groups(groups);
    let ghost gs = resolved@;
    proof {
        // every resolved group still holds something, because every raw
        // group did and the greedy scan always keeps a first passage
        assert forall|g: int| 0 <= g < gs.len()
            implies (#[trigger] gs[g]).snippets@.len() > 0 by {
            lemma_resolve_len_pos(groups@[g].snippets@);
        }
        if snippets@.len() > 0 {
            assert(covered(groups@, snippets@[0]));
            assert(groups@.len() > 0);
            assert(gs.len() > 0);
            assert(flatten_groups(gs) == flatten_groups(gs.drop_last())
                + gs.last().snippets@);
            assert(flatten_groups(gs).len() > 0);
        } else {
            if groups@.len() > 0 {
                let p = groups@[0].path@;
                assert(groups@[0].snippets@ =~= of_path(snippets@, p));
                assert(of_path(snippets@, p).len() == 0) by {
                    reveal(Seq::filter);
                }
            }
            assert(gs.len() == 0);
            assert(flatten_groups(gs).len() == 0);
        }
    }
    let shortlist = rank_and_truncate(&resolved);
    match shortlist {
        Ok(v) => {
            proof {
                let flat = flatten_groups(gs);
                let sorted = sort_by_key(SortKey::Score, flat);
                lemma_sort_by_key_props(SortKey::Score, flat);
                assert(sorted_by_key(SortKey::Score, v@)) by {
                    assert(forall|t: int| 0 <= t < v@.len() ==> v@[t] == sorted[t]);
                }
                assert forall|t: int| 0 <= t < v@.len()
                    implies snippets@.contains(#[trigger] v@[t]) by {
                    let x = v@[t];
                    assert(sorted[t] == x);
                    assert(sorted.contains(x));
                    lemma_sort_by_key_contains(SortKey::Score, flat, x);
                    lemma_flatten_contains(gs, x);
                    let g = choose|g: int|
                        0 <= g < gs.len() && (#[trigger] gs[g]).snippets@.contains(x);
                    lemma_resolve_subset(groups@[g].snippets@, x);
                    assert(groups@[g].snippets@.contains(x));
                    lemma_of_path_subset(snippets@, groups@[g].path@, x);
                }
                if forall|i: int| 0 <= i < snippets@.len()
                    ==> (#[trigger] snippets@[i]).lines_wf() {
                    // each resolved group is internally non-overlapping...
                    assert forall|g: int| 0 <= g < gs.len()
                        implies pairwise_file_disjoint((#[trigger] gs[g]).snippets@) by {
                        let sg = groups@[g].snippets@;
                        assert forall|i: int| 0 <= i < sg.len()
                            implies (#[trigger] sg[i]).lines_wf() by {
                            assert(sg.contains(sg[i]));
                            lemma_of_path_subset(snippets@, groups@[g].path@, sg[i]);
                            let j = choose|j: int|
                                0 <= j < snippets@.len() && snippets@[j] == sg[i];
                            assert(snippets@[j].lines_wf());
                        }
                        lemma_resolver_drops_overlaps(sg);
                        assert(pairwise_compatible(gs[g].snippets@));
                        assert forall|i: int, j: int|
                            0 <= i < j < gs[g].snippets@.len()
                            implies #[trigger] file_disjoint(
                                gs[g].snippets@[i],
                                gs[g].snippets@[j],
                            ) by {
                            assert(gs[g].snippets@[i].compatible_with(
                                gs[g].snippets@[j],
                            ));
                        }
                    }
                    // ...its passages carry its path...
                    assert forall|g: int, i: int|
                        0 <= g < gs.len() && 0 <= i < gs[g].snippets@.len()
                        implies (#[trigger] gs[g].snippets@[i]).relative_path@
                            == gs[g].path@ by {
                        let sg = groups@[g].snippets@;
                        let x = gs[g].snippets@[i];
                        assert(gs[g].snippets@.contains(x));
                        lemma_resolve_subset(sg, x);
                        assert(sg.contains(x));
                        let j = choose|j: int| 0 <= j < sg.len() && sg[j] == x;
                        let pred = |s: Snippet|
                            s.relative_path@ == groups@[g as int].path@;
                        snippets@.lemma_filter_pred(pred, j);
                        assert(gs[g].path == groups@[g].path);
                    }
                    // ...and paths differ across groups
                    assert forall|g1: int, g2: int| 0 <= g1 < g2 < gs.len()
                        implies (#[trigger] gs[g1]).path@ != (#[trigger] gs[g2]).path@
                        by {
                        assert(gs[g1].path == groups@[g1].path);
                        assert(gs[g2].path == groups@[g2].path);
                    }
                    lemma_flatten_file_disjoint(gs);
                    lemma_sort_by_key_file_disjoint(SortKey::Score, flat);
                    assert forall|i: int, j: int| 0 <= i < j < v@.len()
                        implies #[trigger] file_disjoint(v@[i], v@[j]) by {
                        assert(v@[i] == sorted[i]);
                        assert(v@[j] == sorted[j]);
                        assert(file_disjoint(sorted[i], sorted[j]));
                    }
                }
            }
            Ok(v)
        },
        Err(e) => Err(e),
    }
}

} // verus!
