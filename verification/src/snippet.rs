use vstd::prelude::*;

verus! {

/// A scored code passage with its file and location metadata, as produced
/// by the search backend.  `start_line..end_line` and `start_byte..end_byte`
/// are half-open ranges into the referenced file's raw content.  `score` is
/// an integer similarity measure; higher is more relevant.
#[derive(Debug)]
pub struct Snippet {
    pub lang: String,
    pub repo_name: String,
    pub repo_ref: String,
    pub relative_path: String,
    pub text: String,
    pub start_line: usize,
    pub end_line: usize,
    pub start_byte: usize,
    pub end_byte: usize,
    pub score: u64,
}

impl Snippet {
    /// The passage's line range is well formed.
    pub open spec fn lines_wf(self) -> bool {
        self.start_line <= self.end_line
    }

    /// Two passages of one file overlap when the later-ending one starts at
    /// or before the line where the earlier-ending one ends.  This is the
    /// deliberately coarse, line-granular notion used by the resolver.
    pub open spec fn compatible_with(self, other: Snippet) -> bool {
        other.start_line > self.end_line || self.start_line > other.end_line
    }
}

impl Clone for Snippet {
    fn clone(&self) -> (res: Self)
        ensures
            res == *self,
    {
        Snippet {
            lang: self.lang.clone(),
            repo_name: self.repo_name.clone(),
            repo_ref: self.repo_ref.clone(),
            relative_path: self.relative_path.clone(),
            text: self.text.clone(),
            start_line: self.start_line,
            end_line: self.end_line,
            start_byte: self.start_byte,
            end_byte: self.end_byte,
            score: self.score,
        }
    }
}

/// The passages of one file, in the order they arrived from the backend.
#[derive(Debug)]
pub struct FileGroup {
    pub path: String,
    pub snippets: Vec<Snippet>,
}

/// A request body for the external answer service: the query, the
/// shortlist, and the caller's identifier.
#[derive(Debug)]
pub struct Request {
    pub query: String,
    pub snippets: Vec<Snippet>,
    pub user_id: String,
}

/// Query parameters consumed from the transport layer.
#[derive(Debug)]
pub struct Params {
    pub q: String,
    pub limit: u64,
    pub user_id: String,
}

/// The selection result: the index of the chosen snippet and the
/// explanation text.  In the assembled payload `index` is always 0,
/// because the reorder of the shortlist, not this field, encodes the
/// choice.
#[derive(Debug)]
pub struct DecodedResponse {
    pub index: u32,
    pub answer: String,
}

/// The selection block of the answer payload: the chosen index and
/// explanation plus the caller's identifier echoed back.
#[derive(Debug)]
pub struct Response {
    pub data: DecodedResponse,
    pub id: String,
}

/// The externally visible result: the reordered shortlist and the selection.
/// The chosen passage is always at position 0 of `snippets`.
#[derive(Debug)]
pub struct AnswerResponse {
    pub snippets: Vec<Snippet>,
    pub selection: Response,
}

} // verus!
