use vstd::prelude::*;
use crate::snippet::Snippet;

verus! {

/// Where the grown window starts: scanning left from `start`, the
/// position of the newline reached after skipping `size` newlines, or the
/// file start when fewer exist.  That newline itself is inside the window.
pub open spec fn grow_start_spec(s: Seq<u8>, start: int, size: int) -> int
    decreases start,
{
    if start <= 0 {
        0
    } else if s[start - 1] == 10 {
        if size == 0 {
            start - 1
        } else {
            grow_start_spec(s, start - 1, size - 1)
        }
    } else {
        grow_start_spec(s, start - 1, size)
    }
}

/// Where the grown window ends: scanning right from `end`, the position
/// of the newline reached after skipping `size` newlines, or the file end
/// when fewer exist.  That newline is excluded from the window.
pub open spec fn grow_end_spec(s: Seq<u8>, end: int, size: int) -> int
    decreases s.len() - end,
{
    if end >= s.len() {
        s.len() as int
    } else if s[end] == 10 {
        if size == 0 {
            end
        } else {
            grow_end_spec(s, end + 1, size - 1)
        }
    } else {
        grow_end_spec(s, end + 1, size)
    }
}

/// The window start never leaves the file and never passes the base
/// offset.
pub proof fn lemma_grow_start_bounds(s: Seq<u8>, start: int, size: int)
    requires
        0 <= start <= s.len(),
    ensures
        0 <= grow_start_spec(s, start, size) <= start,
    decreases start,
{
    if start > 0 {
        if s[start - 1] == 10 && size == 0 {
        } else if s[start - 1] == 10 {
            lemma_grow_start_bounds(s, start - 1, size - 1);
        } else {
            lemma_grow_start_bounds(s, start - 1, size);
        }
    }
}

/// The window end never leaves the file and never precedes the base
/// offset.
pub proof fn lemma_grow_end_bounds(s: Seq<u8>, end: int, size: int)
    requires
        0 <= end <= s.len(),
    ensures
        end <= grow_end_spec(s, end, size) <= s.len(),
    decreases s.len() - end,
{
    if end < s.len() {
        if s[end] == 10 && size == 0 {
        } else if s[end] == 10 {
            lemma_grow_end_bounds(s, end + 1, size - 1);
        } else {
            lemma_grow_end_bounds(s, end + 1, size);
        }
    }
}

/// Scans backward from `start` for the newline `size` newlines away.
fn grow_start(content: &Vec<u8>, start: usize, size: usize) -> (ns: usize)
    requires
        start <= content@.len(),
    ensures
        ns as int == grow_start_spec(content@, start as int, size as int),
{
    let mut i = start;
    let mut remaining = size;
    while i > 0
        invariant
            i <= start,
            start <= content@.len(),
            grow_start_spec(content@, start as int, size as int) == grow_start_spec(
                content@,
                i as int,
                remaining as int,
            ),
        decreases i,
    {
        if content[i - 1] == 10 {
            if remaining == 0 {
                return i - 1;
            }
            remaining = remaining - 1;
        }
        i = i - 1;
    }
    0
}

/// Scans forward from `end` for the newline `size` newlines away.
fn grow_end(content: &Vec<u8>, end: usize, size: usize) -> (ne: usize)
    requires
        end <= content@.len(),
    ensures
        ne as int == grow_end_spec(content@, end as int, size as int),
{
    let mut i = end;
    let mut remaining = size;
    while i < content.len()
        invariant
            end <= i <= content@.len(),
            grow_end_spec(content@, end as int, size as int) == grow_end_spec(
                content@,
                i as int,
                remaining as int,
            ),
        decreases content@.len() - i,
    {
        if content[i] == 10 {
            if remaining == 0 {
                return i;
            }
            remaining = remaining - 1;
        }
        i = i + 1;
    }
    content.len()
}

/// Grows the passage's text window by `size` lines above and below its
/// byte offsets and returns the widened slice of the file's raw bytes.
/// The slice never leaves `[0, len(content)]`.
pub fn grow(content: &Vec<u8>, snippet: &Snippet, size: usize) -> (r: Vec<u8>)
    requires
        snippet.start_byte <= snippet.end_byte,
        snippet.end_byte <= content@.len(),
    ensures
        r@ =~= content@.subrange(
            grow_start_spec(content@, snippet.start_byte as int, size as int),
            grow_end_spec(content@, snippet.end_byte as int, size as int),
        ),
        0 <= grow_start_spec(content@, snippet.start_byte as int, size as int)
            <= snippet.start_byte,
        snippet.end_byte <= grow_end_spec(content@, snippet.end_byte as int, size as int)
            <= content@.len(),
{
    let ns = grow_start(content, snippet.start_byte, size);
    let ne = grow_end(content, snippet.end_byte, size);
    proof {
        lemma_grow_start_bounds(content@, snippet.start_byte as int, size as int);
        lemma_grow_end_bounds(content@, snippet.end_byte as int, size as int);
    }
    let mut r: Vec<u8> = Vec::new();
    let mut k = ns;
    while k < ne
        invariant
            ns <= k <= ne,
            ne <= content@.len(),
            r@ =~= content@.subrange(ns as int, k as int),
        decreases ne - k,
    {
        r.push(content[k]);
        proof {
            assert(content@.subrange(ns as int, k + 1) =~= content@.subrange(
                ns as int,
                k as int,
            ).push(content@[k as int]));
        }
        k = k + 1;
    }
    r
}

/// Counts tokens in a byte text.  The tokenizer is an external
/// collaborator of the pipeline: nothing is assumed of its answers, and
/// the growth loop is correct for every behaviour of it.
pub trait Tokenizer {
    fn count_tokens(&self, text: &Vec<u8>) -> usize;
}

/// A window size the growth loop can stop at: it starts at 40 lines,
/// steps by 10, and never steps again once past 100, so 110 is the
/// largest window it can ever compute.
pub open spec fn valid_window(w: int) -> bool {
    40 <= w <= 110 && w % 10 == 0
}

/// Grows the chosen passage under the token budget: each round recomputes
/// the window from the unchanged base offsets — growth is not cumulative —
/// and the loop stops as soon as the slice exceeds 2000 tokens or the
/// window exceeds 100 lines.  Whatever the tokenizer answers, the result
/// is the window of one valid size, so the byte range stays inside the
/// file and the iteration count is hard-bounded.
pub fn grow_to_budget<T: Tokenizer>(
    tok: &T,
    content: &Vec<u8>,
    snippet: &Snippet,
) -> (r: Vec<u8>)
    requires
        snippet.start_byte <= snippet.end_byte,
        snippet.end_byte <= content@.len(),
    ensures
        exists|w: int| #[trigger]
            valid_window(w) && r@ =~= content@.subrange(
                grow_start_spec(content@, snippet.start_byte as int, w),
                grow_end_spec(content@, snippet.end_byte as int, w),
            ),
        r@.len() <= content@.len(),
{
    let mut grow_size: usize = 40;
    loop
        invariant
            40 <= grow_size <= 110,
            grow_size % 10 == 0,
            snippet.start_byte <= snippet.end_byte,
            snippet.end_byte <= content@.len(),
        decreases 110 - grow_size,
    {
        let grown = grow(content, snippet, grow_size);
        let token_count = tok.count_tokens(&grown);
        if token_count > 2000 || grow_size > 100 {
            proof {
                assert(valid_window(grow_size as int));
            }
            return grown;
        }
        grow_size = grow_size + 10;
    }
}

/// The characters `String::from_utf8_lossy` reads out of a byte string: a
/// pure function of the bytes alone.
pub uninterp spec fn utf8_lossy_of(bytes: Seq<u8>) -> Seq<char>;

/// Relies on `String::from_utf8_lossy`: it decodes the bytes as UTF-8,
/// substituting replacement characters for invalid sequences, and its
/// result depends on the bytes alone.
#[verifier::external_body]
fn lossy_string(bytes: &Vec<u8>) -> (r: String)
    ensures
        r@ == utf8_lossy_of(bytes@),
{
    String::from_utf8_lossy(bytes.as_slice()).into_owned()
}

/// The grown snippet: every field of the selected passage unchanged, with
/// the text replaced by the grown window decoded from the file's bytes.
pub fn grown_snippet(selected: &Snippet, grown: Vec<u8>) -> (r: Snippet)
    ensures
        r.text@ == utf8_lossy_of(grown@),
        r.lang == selected.lang,
        r.repo_name == selected.repo_name,
        r.repo_ref == selected.repo_ref,
        r.relative_path == selected.relative_path,
        r.start_line == selected.start_line,
        r.end_line == selected.end_line,
        r.start_byte == selected.start_byte,
        r.end_byte == selected.end_byte,
        r.score == selected.score,
{
    Snippet {
        lang: selected.lang.clone(),
        repo_name: selected.repo_name.clone(),
        repo_ref: selected.repo_ref.clone(),
        relative_path: selected.relative_path.clone(),
        text: lossy_string(&grown),
        start_line: selected.start_line,
        end_line: selected.end_line,
        start_byte: selected.start_byte,
        end_byte: selected.end_byte,
        score: selected.score,
    }
}

} // verus!
