use answer_core::overlap::resolve_overlaps;
use answer_core::pipeline::build_shortlist;
use answer_core::rank::rank_and_truncate;
use answer_core::group::group_by_path;
use answer_core::error::ErrorKind;
use answer_core::snippet::Snippet;

fn rsnip(path: &str, start_line: usize, end_line: usize, score: u64) -> Snippet {
    Snippet {
        lang: "Python".to_string(),
        repo_name: "repo".to_string(),
        repo_ref: "github.com/org/repo".to_string(),
        relative_path: path.to_string(),
        text: format!("text-{start_line}-{end_line}"),
        start_line,
        end_line,
        start_byte: start_line * 10,
        end_byte: end_line * 10,
        score,
    }
}

#[test]
fn resolver_three_passages_scenario() {
    // ranges (1-10, score 90), (5-15, score 80), (20-30, score 95): the
    // middle one overlaps the first and is dropped
    let v = vec![
        rsnip("a.py", 1, 10, 90),
        rsnip("a.py", 5, 15, 80),
        rsnip("a.py", 20, 30, 95),
    ];
    let kept = resolve_overlaps(&v);
    assert_eq!(kept.len(), 2);
    // survivors are sorted ascending by score: (1-10, 90) then (20-30, 95)
    assert_eq!(kept[0].start_line, 1);
    assert_eq!(kept[0].end_line, 10);
    assert_eq!(kept[0].score, 90);
    assert_eq!(kept[1].start_line, 20);
    assert_eq!(kept[1].end_line, 30);
    assert_eq!(kept[1].score, 95);
}

#[test]
fn resolver_keeps_nonoverlapping_input() {
    let v = vec![
        rsnip("a.py", 11, 20, 50),
        rsnip("a.py", 1, 10, 70),
        rsnip("a.py", 21, 30, 60),
    ];
    let kept = resolve_overlaps(&v);
    assert_eq!(kept.len(), 3);
    // ascending by score
    assert_eq!(kept[0].score, 50);
    assert_eq!(kept[1].score, 60);
    assert_eq!(kept[2].score, 70);
}

#[test]
fn resolver_drops_contained_passage() {
    // second passage starts inside the first: exactly one survives
    let v = vec![rsnip("a.py", 1, 10, 40), rsnip("a.py", 5, 15, 90)];
    let kept = resolve_overlaps(&v);
    assert_eq!(kept.len(), 1);
    assert_eq!(kept[0].start_line, 1);
    assert_eq!(kept[0].end_line, 10);
}

#[test]
fn resolver_breaks_end_line_ties_by_input_order() {
    // same end line: the earlier passage wins the greedy scan
    let v = vec![rsnip("a.py", 3, 10, 40), rsnip("a.py", 1, 10, 90)];
    let kept = resolve_overlaps(&v);
    assert_eq!(kept.len(), 1);
    assert_eq!(kept[0].start_line, 3);
    assert_eq!(kept[0].score, 40);
}

#[test]
fn resolver_empty_input() {
    let kept = resolve_overlaps(&Vec::new());
    assert_eq!(kept.len(), 0);
}

#[test]
fn grouping_splits_by_path_in_order() {
    let v = vec![
        rsnip("a.py", 1, 2, 10),
        rsnip("b.py", 3, 4, 20),
        rsnip("a.py", 5, 6, 30),
    ];
    let groups = group_by_path(&v);
    assert_eq!(groups.len(), 2);
    let a = groups.iter().find(|g| g.path == "a.py").unwrap();
    let b = groups.iter().find(|g| g.path == "b.py").unwrap();
    assert_eq!(a.snippets.len(), 2);
    assert_eq!(a.snippets[0].start_line, 1);
    assert_eq!(a.snippets[1].start_line, 5);
    assert_eq!(b.snippets.len(), 1);
    assert_eq!(b.snippets[0].start_line, 3);
}

#[test]
fn ranker_caps_at_shortlist_size_and_sorts_ascending() {
    // 20 non-overlapping passages in one file, scores descending
    let mut v = Vec::new();
    for i in 0..20usize {
        v.push(rsnip("a.py", 10 * i + 1, 10 * i + 5, 1000 - i as u64));
    }
    let shortlist = build_shortlist(v).unwrap();
    assert_eq!(shortlist.len(), 15);
    for w in shortlist.windows(2) {
        assert!(w[0].score <= w[1].score);
    }
    // the ascending prefix keeps the lowest-scoring candidates
    assert_eq!(shortlist[0].score, 981);
    assert_eq!(shortlist[14].score, 995);
}

fn tied_pool() -> Vec<Snippet> {
    vec![
        rsnip("a.py", 1, 5, 50),
        rsnip("b.py", 1, 5, 50),
        rsnip("c.py", 1, 5, 50),
    ]
}

#[test]
fn ranker_is_deterministic_on_score_ties() {
    let first = build_shortlist(tied_pool()).unwrap();
    let second = build_shortlist(tied_pool()).unwrap();
    assert_eq!(first.len(), second.len());
    for (x, y) in first.iter().zip(second.iter()) {
        assert_eq!(x.relative_path, y.relative_path);
        assert_eq!(x.score, y.score);
    }
}

#[test]
fn ranker_rejects_empty_pool() {
    let groups = Vec::new();
    let r = rank_and_truncate(&groups);
    let e = r.err().unwrap();
    assert_eq!(e.kind, ErrorKind::Internal);
    assert_eq!(e.message, "semantic search returned no snippets");
}

#[test]
fn shortlist_rejects_empty_input() {
    let r = build_shortlist(Vec::new());
    let e = r.err().unwrap();
    assert_eq!(e.kind, ErrorKind::Internal);
    assert_eq!(e.message, "semantic search returned no snippets");
}

#[test]
fn shortlist_dedups_per_file_and_merges() {
    let v = vec![
        rsnip("a.py", 1, 10, 90),
        rsnip("a.py", 5, 15, 80),
        rsnip("b.py", 1, 10, 70),
    ];
    let shortlist = build_shortlist(v).unwrap();
    // a.py keeps only (1-10); b.py keeps its single passage
    assert_eq!(shortlist.len(), 2);
    assert_eq!(shortlist[0].score, 70);
    assert_eq!(shortlist[1].score, 90);
}
