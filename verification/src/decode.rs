use vstd::prelude::*;
use crate::error::ErrorKind;
use crate::error::PipelineError;
use crate::snippet::Snippet;
use crate::textnum::digits_val;
use crate::textnum::numeral_ok;
use crate::textnum::parse_usize;

verus! {

/// One passage as the search backend hands it over: loosely typed fields
/// that may each be absent, with the numeric ones still written as text.
/// The score arrives already decoded.
#[derive(Debug)]
pub struct RawPassage {
    pub lang: Option<String>,
    pub repo_name: Option<String>,
    pub repo_ref: Option<String>,
    pub relative_path: Option<String>,
    pub text: Option<String>,
    pub start_line: Option<String>,
    pub end_line: Option<String>,
    pub start_byte: Option<String>,
    pub end_byte: Option<String>,
    pub score: u64,
}

/// The characters of an optional field, empty when absent.
pub open spec fn opt_view(o: Option<String>) -> Seq<char> {
    match o {
        Some(s) => s@,
        None => Seq::empty(),
    }
}

/// Every required field is present.
pub open spec fn raw_complete(r: RawPassage) -> bool {
    &&& r.lang is Some
    &&& r.repo_name is Some
    &&& r.repo_ref is Some
    &&& r.relative_path is Some
    &&& r.text is Some
    &&& r.start_line is Some
    &&& r.end_line is Some
    &&& r.start_byte is Some
    &&& r.end_byte is Some
}

/// Every numeric field is a non-empty digit string that fits in `usize`.
pub open spec fn raw_numerals_ok(r: RawPassage) -> bool {
    &&& numeral_ok(opt_view(r.start_line))
    &&& numeral_ok(opt_view(r.end_line))
    &&& numeral_ok(opt_view(r.start_byte))
    &&& numeral_ok(opt_view(r.end_byte))
}

/// The raw passage carries every field and every numeral is sound.
pub open spec fn raw_ok(r: RawPassage) -> bool {
    raw_complete(r) && raw_numerals_ok(r)
}

/// `s` is what `raw` decodes to.
pub open spec fn decoded_ok(raw: RawPassage, s: Snippet) -> bool {
    &&& s.lang@ == opt_view(raw.lang)
    &&& s.repo_name@ == opt_view(raw.repo_name)
    &&& s.repo_ref@ == opt_view(raw.repo_ref)
    &&& s.relative_path@ == opt_view(raw.relative_path)
    &&& s.text@ == opt_view(raw.text)
    &&& s.start_line == digits_val(opt_view(raw.start_line))
    &&& s.end_line == digits_val(opt_view(raw.end_line))
    &&& s.start_byte == digits_val(opt_view(raw.start_byte))
    &&& s.end_byte == digits_val(opt_view(raw.end_byte))
    &&& s.score == raw.score
}

/// Decodes the whole backend batch, in order.  One bad passage fails the
/// batch: partial records are never tolerated silently.
pub fn decode_all(raw: &Vec<RawPassage>) -> (r: Result<Vec<Snippet>, PipelineError>)
    ensures
        match r {
            Ok(v) => v@.len() == raw@.len() && forall|i: int|
                0 <= i < raw@.len()
                    ==> raw_ok(#[trigger] raw@[i]) && decoded_ok(raw@[i], v@[i]),
            Err(e) => e.kind == ErrorKind::Internal && exists|i: int|
                0 <= i < raw@.len() && !raw_ok(#[trigger] raw@[i]),
        },
{
    let mut out: Vec<Snippet> = Vec::new();
    let mut i: usize = 0;
    while i < raw.len()
        invariant
            i <= raw@.len(),
            out@.len() == i,
            forall|j: int| 0 <= j < i
                ==> raw_ok(#[trigger] raw@[j]) && decoded_ok(raw@[j], out@[j]),
        decreases raw@.len() - i,
    {
        match decode_passage(&raw[i]) {
            Ok(s) => {
                out.push(s);
            },
            Err(e) => {
                proof {
                    assert(!raw_ok(raw@[i as int]));
                }
                return Err(e);
            },
        }
        i = i + 1;
    }
    Ok(out)
}

/// Strictly decodes one backend passage.  A missing field or a malformed
/// numeral is a fatal decode fault for the whole request — malformed
/// upstream data is a backend contract violation, reported as an internal
/// error, never skipped.
pub fn decode_passage(raw: &RawPassage) -> (r: Result<Snippet, PipelineError>)
    ensures
        match r {
            Ok(s) => raw_complete(*raw) && raw_numerals_ok(*raw)
                && s.lang@ == opt_view(raw.lang)
                && s.repo_name@ == opt_view(raw.repo_name)
                && s.repo_ref@ == opt_view(raw.repo_ref)
                && s.relative_path@ == opt_view(raw.relative_path)
                && s.text@ == opt_view(raw.text)
                && s.start_line == digits_val(opt_view(raw.start_line))
                && s.end_line == digits_val(opt_view(raw.end_line))
                && s.start_byte == digits_val(opt_view(raw.start_byte))
                && s.end_byte == digits_val(opt_view(raw.end_byte))
                && s.score == raw.score,
            Err(e) => (!raw_complete(*raw) || !raw_numerals_ok(*raw))
                && e.kind == ErrorKind::Internal,
        },
{
    let missing = "snippet payload is missing a required field";
    let malformed = "snippet payload has a malformed numeric field";
    let lang = match &raw.lang {
        Some(s) => s.clone(),
        None => {
            return Err(PipelineError::internal(missing));
        },
    };
    let repo_name = match &raw.repo_name {
        Some(s) => s.clone(),
        None => {
            return Err(PipelineError::internal(missing));
        },
    };
    let repo_ref = match &raw.repo_ref {
        Some(s) => s.clone(),
        None => {
            return Err(PipelineError::internal(missing));
        },
    };
    let relative_path = match &raw.relative_path {
        Some(s) => s.clone(),
        None => {
            return Err(PipelineError::internal(missing));
        },
    };
    let text = match &raw.text {
        Some(s) => s.clone(),
        None => {
            return Err(PipelineError::internal(missing));
        },
    };
    let start_line_text = match &raw.start_line {
        Some(s) => s.clone(),
        None => {
            return Err(PipelineError::internal(missing));
        },
    };
    let end_line_text = match &raw.end_line {
        Some(s) => s.clone(),
        None => {
            return Err(PipelineError::internal(missing));
        },
    };
    let start_byte_text = match &raw.start_byte {
        Some(s) => s.clone(),
        None => {
            return Err(PipelineError::internal(missing));
        },
    };
    let end_byte_text = match &raw.end_byte {
        Some(s) => s.clone(),
        None => {
            return Err(PipelineError::internal(missing));
        },
    };
    let start_line = match parse_usize(start_line_text.as_str()) {
        Some(n) => n,
        None => {
            return Err(PipelineError::internal(malformed));
        },
    };
    let end_line = match parse_usize(end_line_text.as_str()) {
        Some(n) => n,
        None => {
            return Err(PipelineError::internal(malformed));
        },
    };
    let start_byte = match parse_usize(start_byte_text.as_str()) {
        Some(n) => n,
        None => {
            return Err(PipelineError::internal(malformed));
        },
    };
    let end_byte = match parse_usize(end_byte_text.as_str()) {
        Some(n) => n,
        None => {
            return Err(PipelineError::internal(malformed));
        },
    };
    Ok(
        Snippet {
            lang,
            repo_name,
            repo_ref,
            relative_path,
            text,
            start_line,
            end_line,
            start_byte,
            end_byte,
            score: raw.score,
        },
    )
}

} // verus!
