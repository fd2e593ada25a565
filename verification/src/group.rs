use vstd::prelude::*;
use crate::snippet::FileGroup;
use crate::snippet::Snippet;

verus! {

/// The passages of `v` whose path is `path`, in input order.
pub open spec fn of_path(v: Seq<Snippet>, path: Seq<char>) -> Seq<Snippet> {
    v.filter(|s: Snippet| s.relative_path@ == path)
}

/// Some group of `groups` carries the path of passage `s`.
pub open spec fn covered(groups: Seq<FileGroup>, s: Snippet) -> bool {
    exists|g: int|
        0 <= g < groups.len() && (#[trigger] groups[g]).path@ == s.relative_path@
}

/// Partitions the passages by source file path.  Each group holds, in
/// input order, exactly the passages of its path; paths are distinct
/// across groups, no group is empty, and every input passage is covered.
/// The order of the groups themselves carries no meaning.
pub fn group_by_path(v: &Vec<Snippet>) -> (r: Vec<FileGroup>)
    ensures
        forall|g: int| 0 <= g < r@.len()
            ==> (#[trigger] r@[g]).snippets@ =~= of_path(v@, r@[g].path@),
        forall|g: int| 0 <= g < r@.len() ==> (#[trigger] r@[g]).snippets@.len() > 0,
        forall|g1: int, g2: int| 0 <= g1 < g2 < r@.len()
            ==> (#[trigger] r@[g1]).path@ != (#[trigger] r@[g2]).path@,
        forall|i: int| 0 <= i < v@.len() ==> #[trigger] covered(r@, v@[i]),
{
    let mut r: Vec<FileGroup> = Vec::new();
    let mut i: usize = 0;
    while i < v.len()
        invariant
            i <= v@.len(),
            forall|g: int| 0 <= g < r@.len()
                ==> (#[trigger] r@[g]).snippets@ =~= of_path(
                    v@.take(i as int),
                    r@[g].path@,
                ),
            forall|g: int| 0 <= g < r@.len() ==> (#[trigger] r@[g]).snippets@.len() > 0,
            forall|g1: int, g2: int| 0 <= g1 < g2 < r@.len()
                ==> (#[trigger] r@[g1]).path@ != (#[trigger] r@[g2]).path@,
            forall|j: int| 0 <= j < i ==> #[trigger] covered(r@, v@[j]),
        decreases v@.len() - i,
    {
        let x = v[i].clone();
        let ghost prefix = v@.take(i as int);
        proof {
            assert(v@.take(i + 1).drop_last() =~= prefix);
            assert(v@.take(i + 1).last() == v@[i as int]);
        }
        // look for the group of this path
        let mut j: usize = 0;
        let mut found = false;
        while j < r.len() && !found
            invariant
                j <= r@.len(),
                found ==> j < r@.len() && r@[j as int].path@ == x.relative_path@,
                !found ==> forall|g: int|
                    0 <= g < j ==> (#[trigger] r@[g]).path@ != x.relative_path@,
            decreases r@.len() - j + (if found { 0int } else { 1int }),
        {
            if r[j].path == x.relative_path {
                found = true;
            } else {
                j = j + 1;
            }
        }
        if found {
            let ghost old_r = r@;
            let mut g = r.remove(j);
            g.snippets.push(x);
            r.insert(j, g);
            proof {
                assert(r@ =~= old_r.update(j as int, r@[j as int]));
                assert(r@[j as int].snippets@ =~= old_r[j as int].snippets@.push(
                    v@[i as int],
                ));
                assert forall|g2: int| 0 <= g2 < r@.len()
                    implies (#[trigger] r@[g2]).snippets@ =~= of_path(
                        v@.take(i + 1),
                        r@[g2].path@,
                    ) by {
                    reveal(Seq::filter);
                    let pred = |s: Snippet| s.relative_path@ == r@[g2].path@;
                    assert(v@.take(i + 1) == prefix.push(v@[i as int]));
                    assert(v@.take(i + 1).drop_last() == prefix);
                    if g2 == j {
                        assert(pred(v@[i as int]));
                        assert(of_path(v@.take(i + 1), r@[g2].path@)
                            =~= of_path(prefix, r@[g2].path@).push(v@[i as int]));
                    } else {
                        assert(r@[g2].path@ != r@[j as int].path@);
                        assert(!pred(v@[i as int]));
                        assert(of_path(v@.take(i + 1), r@[g2].path@)
                            =~= of_path(prefix, r@[g2].path@));
                    }
                }
                assert forall|jj: int| 0 <= jj < i + 1
                    implies #[trigger] covered(r@, v@[jj]) by {
                    if jj == i {
                        assert(r@[j as int].path@ == v@[i as int].relative_path@);
                    } else {
                        assert(covered(old_r, v@[jj]));
                        let g0 = choose|g0: int|
                            0 <= g0 < old_r.len()
                                && (#[trigger] old_r[g0]).path@
                                    == v@[jj].relative_path@;
                        assert(r@[g0].path@ == v@[jj].relative_path@);
                    }
                }
            }
        } else {
            let ghost old_r = r@;
            let mut snippets: Vec<Snippet> = Vec::new();
            let path = x.relative_path.clone();
            snippets.push(x);
            let g = FileGroup { path, snippets };
            r.push(g);
            proof {
                assert forall|g2: int| 0 <= g2 < r@.len()
                    implies (#[trigger] r@[g2]).snippets@ =~= of_path(
                        v@.take(i + 1),
                        r@[g2].path@,
                    ) by {
                    reveal(Seq::filter);
                    let pred = |s: Snippet| s.relative_path@ == r@[g2].path@;
                    assert(v@.take(i + 1) == prefix.push(v@[i as int]));
                    assert(v@.take(i + 1).drop_last() == prefix);
                    if g2 == old_r.len() {
                        assert(pred(v@[i as int]));
                        // no earlier passage carries this fresh path, so the
                        // filtered prefix is empty
                        lemma_filter_none(prefix, r@[g2].path@, old_r);
                        assert(of_path(prefix, r@[g2].path@) =~= Seq::<Snippet>::empty());
                        assert(of_path(v@.take(i + 1), r@[g2].path@)
                            =~= of_path(prefix, r@[g2].path@).push(v@[i as int]));
                        assert(r@[g2].snippets@ =~= Seq::<Snippet>::empty().push(
                            v@[i as int],
                        ));
                    } else {
                        assert(old_r[g2].path@ != v@[i as int].relative_path@);
                        assert(!pred(v@[i as int]));
                        assert(of_path(v@.take(i + 1), r@[g2].path@)
                            =~= of_path(prefix, r@[g2].path@));
                    }
                }
                assert forall|jj: int| 0 <= jj < i + 1
                    implies #[trigger] covered(r@, v@[jj]) by {
                    if jj == i {
                        assert(r@[old_r.len() as int].path@
                            == v@[i as int].relative_path@);
                    } else {
                        assert(covered(old_r, v@[jj]));
                        let g0 = choose|g0: int|
                            0 <= g0 < old_r.len()
                                && (#[trigger] old_r[g0]).path@
                                    == v@[jj].relative_path@;
                        assert(r@[g0].path@ == v@[jj].relative_path@);
                    }
                }
            }
        }
        i = i + 1;
    }
    proof {
        assert(v@.take(v@.len() as int) =~= v@);
    }
    r
}

/// Filtering by path invents no passage: a filtered element is an input
/// element.
pub proof fn lemma_of_path_subset(v: Seq<Snippet>, path: Seq<char>, x: Snippet)
    ensures
        of_path(v, path).contains(x) ==> v.contains(x),
    decreases v.len(),
{
    reveal(Seq::filter);
    if v.len() > 0 && of_path(v, path).contains(x) {
        let d = v.drop_last();
        let pred = |s: Snippet| s.relative_path@ == path;
        lemma_of_path_subset(d, path, x);
        if pred(v.last()) && x == v.last() {
            assert(v[v.len() - 1] == x);
        } else {
            assert(of_path(d, path).contains(x)) by {
                if pred(v.last()) {
                    let f = of_path(d, path).push(v.last());
                    let i = choose|i: int| 0 <= i < f.len() && f[i] == x;
                    assert(i < f.len() - 1);
                    assert(of_path(d, path)[i] == x);
                }
            }
            assert(d.contains(x));
            let j = choose|j: int| 0 <= j < d.len() && d[j] == x;
            assert(v[j] == x);
        }
    }
}

/// A path covered by no group filters the processed prefix to nothing.
proof fn lemma_filter_none(prefix: Seq<Snippet>, path: Seq<char>, groups: Seq<FileGroup>)
    requires
        forall|j: int| 0 <= j < prefix.len() ==> #[trigger] covered(groups, prefix[j]),
        forall|g: int| 0 <= g < groups.len() ==> (#[trigger] groups[g]).path@ != path,
    ensures
        of_path(prefix, path).len() == 0,
    decreases prefix.len(),
{
    reveal(Seq::filter);
    if prefix.len() > 0 {
        let d = prefix.drop_last();
        assert(forall|j: int| 0 <= j < d.len() ==> d[j] == prefix[j]);
        assert forall|j: int| 0 <= j < d.len()
            implies #[trigger] covered(groups, d[j]) by {
            assert(covered(groups, prefix[j]));
        }
        lemma_filter_none(d, path, groups);
        let pred = |s: Snippet| s.relative_path@ == path;
        assert(covered(groups, prefix.last()));
        let g0 = choose|g0: int|
            0 <= g0 < groups.len()
                && (#[trigger] groups[g0]).path@ == prefix.last().relative_path@;
        assert(groups[g0].path@ == prefix.last().relative_path@);
        assert(!pred(prefix.last()));
        assert(prefix =~= d.push(prefix.last()));
        assert(prefix.drop_last() == d);
    }
}

} // verus!
