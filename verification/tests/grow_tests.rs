use answer_core::explain::completion_budget;
use answer_core::grow::{grow, grow_to_budget, Tokenizer};
use answer_core::snippet::Snippet;

fn gsnip(start_byte: usize, end_byte: usize) -> Snippet {
    Snippet {
        lang: "Rust".to_string(),
        repo_name: "repo".to_string(),
        repo_ref: "github.com/org/repo".to_string(),
        relative_path: "src/lib.rs".to_string(),
        text: "base".to_string(),
        start_line: 0,
        end_line: 0,
        start_byte,
        end_byte,
        score: 1,
    }
}

// "aaa\nbbb\nccc\nddd\n" — newlines at bytes 3, 7, 11, 15
const CONTENT: &str = "aaa\nbbb\nccc\nddd\n";

#[test]
fn grow_by_zero_lines_snaps_to_nearest_newlines() {
    let content = CONTENT.as_bytes().to_vec();
    // the passage is "ccc" at bytes 8..11
    let grown = grow(&content, &gsnip(8, 11), 0);
    assert_eq!(grown, b"\nccc".to_vec());
}

#[test]
fn grow_by_one_line_takes_a_line_each_way() {
    let content = CONTENT.as_bytes().to_vec();
    let grown = grow(&content, &gsnip(8, 11), 1);
    assert_eq!(grown, b"\nbbb\nccc\nddd".to_vec());
}

#[test]
fn grow_clamps_to_file_bounds() {
    let content = CONTENT.as_bytes().to_vec();
    let grown = grow(&content, &gsnip(8, 11), 50);
    assert_eq!(grown, CONTENT.as_bytes().to_vec());
}

#[test]
fn grow_of_whole_file_offsets() {
    let content = CONTENT.as_bytes().to_vec();
    let grown = grow(&content, &gsnip(0, 16), 3);
    assert_eq!(grown, CONTENT.as_bytes().to_vec());
}

struct FixedTokens(usize);

impl Tokenizer for FixedTokens {
    fn count_tokens(&self, _text: &Vec<u8>) -> usize {
        self.0
    }
}

#[test]
fn growth_stops_immediately_when_over_token_budget() {
    let content = CONTENT.as_bytes().to_vec();
    let snip = gsnip(8, 11);
    let expected = grow(&content, &snip, 40);
    let grown = grow_to_budget(&FixedTokens(2001), &content, &snip);
    assert_eq!(grown, expected);
}

#[test]
fn growth_runs_to_the_window_ceiling_when_tokens_stay_low() {
    let content = CONTENT.as_bytes().to_vec();
    let snip = gsnip(8, 11);
    // the loop steps 40, 50, ..., 100, then computes one last window at
    // 110 and stops on the size rule
    let expected = grow(&content, &snip, 110);
    let grown = grow_to_budget(&FixedTokens(0), &content, &snip);
    assert_eq!(grown, expected);
}

#[test]
fn growth_result_stays_inside_the_file() {
    let content = CONTENT.as_bytes().to_vec();
    let snip = gsnip(4, 7);
    let grown = grow_to_budget(&FixedTokens(0), &content, &snip);
    assert!(grown.len() <= content.len());
}

#[test]
fn budget_floors_at_zero_and_clamps_to_one() {
    // a 4200-token prompt overshoots the 4096 window: the computed budget
    // floors at 0, the warning fires, and the sent limit is the clamp
    // minimum of 1
    let (max_tokens, warn) = completion_budget(4200);
    assert_eq!(max_tokens, 1);
    assert!(warn);
}

#[test]
fn budget_at_exact_window_edge() {
    let (max_tokens, warn) = completion_budget(4096);
    assert_eq!(max_tokens, 1);
    assert!(warn);
}

#[test]
fn budget_clamps_large_remainders_to_five_hundred() {
    let (max_tokens, warn) = completion_budget(3000);
    assert_eq!(max_tokens, 500);
    assert!(!warn);
}

#[test]
fn budget_passes_small_remainders_through() {
    let (max_tokens, warn) = completion_budget(4000);
    assert_eq!(max_tokens, 96);
    assert!(!warn);
}

#[test]
fn budget_always_lands_in_the_clamp_range() {
    for used in [0usize, 1, 100, 3595, 3596, 3597, 4095, 4096, 4097, 100000] {
        let (max_tokens, _) = completion_budget(used);
        assert!((1..=500).contains(&max_tokens));
    }
}
