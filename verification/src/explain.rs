use vstd::prelude::*;
use vstd::string::StringExecFns;
use crate::snippet::Snippet;

verus! {

/// The explanation prompt: the chosen file's path, the grown passage
/// text, the fixed instruction block, and the user's question.
pub open spec fn explain_prompt_spec(
    path: Seq<char>,
    text: Seq<char>,
    query: Seq<char>,
) -> Seq<char> {
    "File: "@ + path + "\n\n"@ + text
        + "\n\n#####\n\nAbove is a code snippet. Answer the user's question with a detailed response. Separate each function out and explain why it is relevant. Format your response in GitHub markdown with code blocks annotatedwith programming language. Include the path of the file.\n\nQ:"@
        + query + "\nA:"@
}

/// Builds the explanation prompt for the grown snippet.
pub fn build_explain_prompt(snippet: &Snippet, query: &str) -> (r: String)
    ensures
        r@ =~= explain_prompt_spec(snippet.relative_path@, snippet.text@, query@),
{
    let mut prompt = String::new();
    prompt.append("File: ");
    prompt.append(snippet.relative_path.as_str());
    prompt.append("\n\n");
    prompt.append(snippet.text.as_str());
    prompt.append(
        "\n\n#####\n\nAbove is a code snippet. Answer the user's question with a detailed response. Separate each function out and explain why it is relevant. Format your response in GitHub markdown with code blocks annotatedwith programming language. Include the path of the file.\n\nQ:",
    );
    prompt.append(query);
    prompt.append("\nA:");
    prompt
}

/// The completion budget left for the explanation under the 4096-token
/// context window, floored at zero, and the output limit actually sent,
/// which is that budget clamped into `[1, 500]`.  The boolean asks the
/// caller to log a warning: the prompt alone overshot the window, and the
/// request proceeds with the clamp minimum rather than failing.
pub fn completion_budget(tokens_used: usize) -> (r: (u32, bool))
    ensures
        ({
            let budget: int = if tokens_used >= 4096 {
                0
            } else {
                4096 - tokens_used
            };
            &&& r.1 == (budget == 0)
            &&& r.0 as int == if budget < 1 {
                1int
            } else if budget > 500 {
                500int
            } else {
                budget
            }
            &&& 1 <= r.0 <= 500
        }),
{
    let base: usize = 4096;
    let budget = base.saturating_sub(tokens_used);
    let warn = budget == 0;
    let max_tokens: usize = if budget < 1 {
        1
    } else if budget > 500 {
        500
    } else {
        budget
    };
    (max_tokens as u32, warn)
}

} // verus!
