use vstd::prelude::*;
use vstd::string::StringExecFns;
use crate::error::ErrorKind;
use crate::error::PipelineError;
use crate::snippet::Snippet;
use crate::textnum::append_usize;
use crate::textnum::dec_rep;
use crate::textnum::digits_val;
use crate::textnum::numeral_ok;
use crate::textnum::parse_usize;
use crate::textnum::trim_ascii;
use crate::textnum::trimmed;

verus! {

/// The block the selection prompt devotes to one passage: repository,
/// path, language, its zero-based index, the passage text, and the fixed
/// delimiter token.
pub open spec fn select_entry_spec(s: Snippet, i: int) -> Seq<char> {
    "Repository: "@ + s.repo_name@ + "\nPath: "@ + s.relative_path@ + "\nLanguage: "@
        + s.lang@ + "\nIndex: "@ + dec_rep(i) + "\n\n"@ + s.text@ + "\n######\n"@
}

/// The passage blocks of the whole shortlist, in order.
pub open spec fn select_entries_spec(snips: Seq<Snippet>) -> Seq<char>
    decreases snips.len(),
{
    if snips.len() == 0 {
        Seq::empty()
    } else {
        select_entries_spec(snips.drop_last())
            + select_entry_spec(snips.last(), snips.len() - 1)
    }
}

/// The fixed instruction block that closes the selection prompt: the
/// passage count, the task statement with one worked example, and the
/// user's question.
pub open spec fn select_footer_spec(count: int, query: Seq<char>) -> Seq<char> {
    "Above are "@ + dec_rep(count)
        + " code snippets separated by \"######\". Your job is to select the snippet that best answers the question. Replywith a single number indicating the index of the snippet in the list.If none of the snippets seem relevant, reply with \"0\".\n\nQ:What icon do we use to clear search history?\nA:3\n\nQ:"@
        + query + "\nA:"@
}

/// The full selection prompt.
pub open spec fn select_prompt_spec(snips: Seq<Snippet>, query: Seq<char>) -> Seq<char> {
    select_entries_spec(snips) + select_footer_spec(snips.len() as int, query)
}

/// Builds the selection prompt: one block per surviving passage, then the
/// instruction block asking the external model for exactly one integer
/// index.
pub fn build_select_prompt(snippets: &Vec<Snippet>, query: &str) -> (r: String)
    ensures
        r@ =~= select_prompt_spec(snippets@, query@),
{
    let mut prompt = String::new();
    let mut i: usize = 0;
    while i < snippets.len()
        invariant
            i <= snippets@.len(),
            prompt@ =~= select_entries_spec(snippets@.take(i as int)),
        decreases snippets@.len() - i,
    {
        prompt.append("Repository: ");
        prompt.append(snippets[i].repo_name.as_str());
        prompt.append("\nPath: ");
        prompt.append(snippets[i].relative_path.as_str());
        prompt.append("\nLanguage: ");
        prompt.append(snippets[i].lang.as_str());
        prompt.append("\nIndex: ");
        append_usize(&mut prompt, i);
        prompt.append("\n\n");
        prompt.append(snippets[i].text.as_str());
        prompt.append("\n######\n");
        proof {
            assert(snippets@.take(i + 1).drop_last() =~= snippets@.take(i as int));
            assert(snippets@.take(i + 1).last() == snippets@[i as int]);
        }
        i = i + 1;
    }
    proof {
        assert(snippets@.take(snippets@.len() as int) =~= snippets@);
    }
    prompt.append("Above are ");
    append_usize(&mut prompt, snippets.len());
    prompt.append(
        " code snippets separated by \"######\". Your job is to select the snippet that best answers the question. Replywith a single number indicating the index of the snippet in the list.If none of the snippets seem relevant, reply with \"0\".\n\nQ:What icon do we use to clear search history?\nA:3\n\nQ:",
    );
    prompt.append(query);
    prompt.append("\nA:");
    prompt
}

/// Validates the selector's raw reply: strips surrounding ASCII
/// whitespace, reads an unsigned decimal index, and checks it against the
/// shortlist length.  A reply that is no numeral and an index out of range
/// are distinct internal errors; neither is retried.
pub fn parse_selection_index(raw: &str, count: usize) -> (r: Result<usize, PipelineError>)
    ensures
        match r {
            Ok(i) => numeral_ok(trimmed(raw@)) && i == digits_val(trimmed(raw@))
                && i < count,
            Err(e) => {
                &&& e.kind == ErrorKind::Internal
                &&& numeral_ok(trimmed(raw@)) ==> digits_val(trimmed(raw@)) >= count
                    && e.message@ == "answer-api returned out-of-bounds index"@
                &&& !numeral_ok(trimmed(raw@))
                    ==> e.message@ == "could not parse selection index"@
            },
        },
{
    let t = trim_ascii(raw);
    match parse_usize(t) {
        Some(i) => {
            if i < count {
                Ok(i)
            } else {
                Err(PipelineError::internal("answer-api returned out-of-bounds index"))
            }
        },
        None => Err(PipelineError::internal("could not parse selection index")),
    }
}

} // verus!
