use answer_core::assemble::assemble_response;
use answer_core::decode::{decode_all, decode_passage, RawPassage};
use answer_core::default_limit;
use answer_core::error::{map_completion_failure, ErrorKind};
use answer_core::explain::build_explain_prompt;
use answer_core::select::{build_select_prompt, parse_selection_index};
use answer_core::grow::{grow_to_budget, grown_snippet, Tokenizer};
use answer_core::snippet::Snippet;

fn osnip(path: &str, idx: usize, score: u64) -> Snippet {
    Snippet {
        lang: "Go".to_string(),
        repo_name: "repo".to_string(),
        repo_ref: "github.com/org/repo".to_string(),
        relative_path: path.to_string(),
        text: format!("body-{idx}"),
        start_line: idx,
        end_line: idx + 3,
        start_byte: idx * 10,
        end_byte: idx * 10 + 30,
        score,
    }
}

fn raw(path: &str) -> RawPassage {
    RawPassage {
        lang: Some("Go".to_string()),
        repo_name: Some("repo".to_string()),
        repo_ref: Some("github.com/org/repo".to_string()),
        relative_path: Some(path.to_string()),
        text: Some("fn main() {}".to_string()),
        start_line: Some("3".to_string()),
        end_line: Some("9".to_string()),
        start_byte: Some("120".to_string()),
        end_byte: Some("480".to_string()),
        score: 77,
    }
}

#[test]
fn decode_accepts_a_complete_payload() {
    let s = decode_passage(&raw("a.go")).unwrap();
    assert_eq!(s.lang, "Go");
    assert_eq!(s.relative_path, "a.go");
    assert_eq!(s.start_line, 3);
    assert_eq!(s.end_line, 9);
    assert_eq!(s.start_byte, 120);
    assert_eq!(s.end_byte, 480);
    assert_eq!(s.score, 77);
}

#[test]
fn decode_rejects_a_missing_field() {
    let mut r = raw("a.go");
    r.repo_name = None;
    let e = decode_passage(&r).err().unwrap();
    assert_eq!(e.kind, ErrorKind::Internal);
    assert_eq!(e.message, "snippet payload is missing a required field");
}

#[test]
fn decode_rejects_a_malformed_numeral() {
    let mut r = raw("a.go");
    r.start_line = Some("12a".to_string());
    let e = decode_passage(&r).err().unwrap();
    assert_eq!(e.kind, ErrorKind::Internal);
    assert_eq!(e.message, "snippet payload has a malformed numeric field");
}

#[test]
fn decode_all_fails_the_whole_batch_on_one_bad_passage() {
    let mut bad = raw("b.go");
    bad.end_byte = None;
    let batch = vec![raw("a.go"), bad, raw("c.go")];
    let e = decode_all(&batch).err().unwrap();
    assert_eq!(e.kind, ErrorKind::Internal);
    let ok = decode_all(&vec![raw("a.go"), raw("c.go")]).unwrap();
    assert_eq!(ok.len(), 2);
}

#[test]
fn selection_index_parses_with_surrounding_whitespace() {
    assert_eq!(parse_selection_index(" 1\n", 3).unwrap(), 1);
    assert_eq!(parse_selection_index("0", 3).unwrap(), 0);
    assert_eq!(parse_selection_index("\t2 ", 3).unwrap(), 2);
}

#[test]
fn selection_index_out_of_bounds_is_an_internal_error() {
    // a 3-element shortlist cannot take index 99
    let e = parse_selection_index("99", 3).err().unwrap();
    assert_eq!(e.kind, ErrorKind::Internal);
    assert_eq!(e.message, "answer-api returned out-of-bounds index");
}

#[test]
fn selection_index_parse_failure_is_a_distinct_internal_error() {
    let e = parse_selection_index("first", 3).err().unwrap();
    assert_eq!(e.kind, ErrorKind::Internal);
    assert_eq!(e.message, "could not parse selection index");
    let e2 = parse_selection_index("", 3).err().unwrap();
    assert_eq!(e2.message, "could not parse selection index");
    let e3 = parse_selection_index("-1", 3).err().unwrap();
    assert_eq!(e3.message, "could not parse selection index");
    let e4 = parse_selection_index(" \n ", 3).err().unwrap();
    assert_eq!(e4.message, "could not parse selection index");
    let e5 = parse_selection_index("99999999999999999999999", 3).err().unwrap();
    assert_eq!(e5.message, "could not parse selection index");
}

#[test]
fn selection_index_accepts_leading_zeros() {
    assert_eq!(parse_selection_index("007", 10).unwrap(), 7);
}

#[test]
fn overloaded_completion_maps_to_upstream_error() {
    // a 503-class response surfaces as UpstreamOverloaded with an
    // overload message
    let e = map_completion_failure(true, "503 service unavailable".to_string());
    assert_eq!(e.kind, ErrorKind::UpstreamOverloaded);
    assert_eq!(e.message, "service is currently overloaded");
}

#[test]
fn other_completion_failures_stay_internal() {
    let e = map_completion_failure(false, "connection reset".to_string());
    assert_eq!(e.kind, ErrorKind::Internal);
    assert_eq!(e.message, "connection reset");
}

#[test]
fn select_prompt_lists_every_passage_and_the_instructions() {
    let v = vec![osnip("a.go", 0, 10), osnip("b.go", 1, 20)];
    let prompt = build_select_prompt(&v, "how do we parse flags?");
    let expected = format!(
        "Repository: repo\nPath: a.go\nLanguage: Go\nIndex: 0\n\nbody-0\n######\n\
         Repository: repo\nPath: b.go\nLanguage: Go\nIndex: 1\n\nbody-1\n######\n\
         Above are 2 code snippets separated by \"######\". Your job is to select \
         the snippet that best answers the question. Replywith a single number \
         indicating the index of the snippet in the list.If none of the snippets \
         seem relevant, reply with \"0\".\n\nQ:What icon do we use to clear search \
         history?\nA:3\n\nQ:how do we parse flags?\nA:"
    );
    assert_eq!(prompt, expected);
}

#[test]
fn explain_prompt_embeds_path_text_and_query() {
    let s = osnip("pkg/util.go", 4, 10);
    let prompt = build_explain_prompt(&s, "what does this do?");
    let expected = format!(
        "File: pkg/util.go\n\nbody-4\n\n#####\n\nAbove is a code snippet. Answer \
         the user's question with a detailed response. Separate each function out \
         and explain why it is relevant. Format your response in GitHub markdown \
         with code blocks annotatedwith programming language. Include the path of \
         the file.\n\nQ:what does this do?\nA:"
    );
    assert_eq!(prompt, expected);
}

#[test]
fn assembly_swaps_the_chosen_passage_to_the_front() {
    // selector said "1" for a 3-element shortlist: that element leads the
    // payload and the selection index is fixed at 0
    let v = vec![osnip("a.go", 0, 10), osnip("b.go", 1, 20), osnip("c.go", 2, 30)];
    let r = assemble_response(v, 1, "because".to_string(), "user-7".to_string());
    assert_eq!(r.snippets.len(), 3);
    assert_eq!(r.snippets[0].relative_path, "b.go");
    assert_eq!(r.snippets[1].relative_path, "a.go");
    assert_eq!(r.snippets[2].relative_path, "c.go");
    assert_eq!(r.selection.data.index, 0);
    assert_eq!(r.selection.data.answer, "because");
    assert_eq!(r.selection.id, "user-7");
}

#[test]
fn assembly_with_index_zero_changes_nothing() {
    let v = vec![osnip("a.go", 0, 10), osnip("b.go", 1, 20)];
    let r = assemble_response(v, 0, "x".to_string(), "u".to_string());
    assert_eq!(r.snippets[0].relative_path, "a.go");
    assert_eq!(r.snippets[1].relative_path, "b.go");
    assert_eq!(r.selection.data.index, 0);
}

#[test]
fn limit_parameter_defaults_to_ten() {
    assert_eq!(default_limit(), 10);
}

#[test]
fn selector_reply_one_drives_growth_and_assembly() {
    struct OneToken;
    impl Tokenizer for OneToken {
        fn count_tokens(&self, _text: &Vec<u8>) -> usize {
            5000
        }
    }
    // a 3-element shortlist and the selector's raw reply "1"
    let shortlist = vec![osnip("a.go", 0, 10), osnip("b.go", 1, 20), osnip("c.go", 2, 30)];
    let idx = parse_selection_index("1", shortlist.len()).unwrap();
    assert_eq!(idx, 1);
    let content = "fn a() {}\nfn b() {}\nfn c() {}\n".as_bytes().to_vec();
    let mut selected = osnip("b.go", 1, 20);
    selected.start_byte = 10;
    selected.end_byte = 19;
    let grown = grow_to_budget(&OneToken, &content, &selected);
    let processed = grown_snippet(&selected, grown);
    // the first window already exceeds the token budget, and 40 lines of
    // growth swallow this small file whole; every other field is carried
    // over from the selected passage
    assert_eq!(processed.text, "fn a() {}\nfn b() {}\nfn c() {}\n");
    assert_eq!(processed.relative_path, "b.go");
    assert_eq!(processed.score, selected.score);
    let r = assemble_response(shortlist, idx, "explained".to_string(), "u1".to_string());
    assert_eq!(r.snippets[0].relative_path, "b.go");
    assert_eq!(r.selection.data.index, 0);
    assert_eq!(r.selection.data.answer, "explained");
}

#[test]
fn grown_text_is_decoded_from_the_file_bytes() {
    let s = osnip("a.go", 0, 10);
    let valid = grown_snippet(&s, b"let x = 1;".to_vec());
    assert_eq!(valid.text, "let x = 1;");
    // an invalid UTF-8 byte is replaced, never echoed back
    let lossy = grown_snippet(&s, vec![0xff, b'a']);
    assert_eq!(lossy.text, "\u{FFFD}a");
}
