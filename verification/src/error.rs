use vstd::prelude::*;

verus! {

/// The three failure classes surfaced to the transport layer.
#[derive(Clone, Copy, Debug, PartialEq, Eq, Structural)]
pub enum ErrorKind {
    /// Malformed query or missing search target: the caller's fault.
    User,
    /// The completion service answered with an overload status.
    UpstreamOverloaded,
    /// Everything else: bad backend payload, empty shortlist, bad index,
    /// file-fetch failure, generic transport failure.
    Internal,
}

/// An error carried out of the pipeline: a kind plus a human-readable message.
#[derive(Debug)]
pub struct PipelineError {
    pub kind: ErrorKind,
    pub message: String,
}

impl PipelineError {
    /// An internal fault with the given message.
    pub fn internal(message: &str) -> (r: PipelineError)
        ensures
            r.kind == ErrorKind::Internal,
            r.message@ == message@,
    {
        PipelineError { kind: ErrorKind::Internal, message: message.to_owned() }
    }

    /// A client-side fault with the given message.
    pub fn user(message: &str) -> (r: PipelineError)
        ensures
            r.kind == ErrorKind::User,
            r.message@ == message@,
    {
        PipelineError { kind: ErrorKind::User, message: message.to_owned() }
    }
}

/// Classifies a failed completion call: an overload-class response maps to
/// the distinguished `UpstreamOverloaded` kind so callers can back off;
/// every other failure is a generic internal error carrying its detail.
pub fn map_completion_failure(overloaded: bool, detail: String) -> (r: PipelineError)
    ensures
        overloaded ==> r.kind == ErrorKind::UpstreamOverloaded
            && r.message@ == "service is currently overloaded"@,
        !overloaded ==> r.kind == ErrorKind::Internal && r.message == detail,
{
    if overloaded {
        PipelineError {
            kind: ErrorKind::UpstreamOverloaded,
            message: "service is currently overloaded".to_owned(),
        }
    } else {
        PipelineError { kind: ErrorKind::Internal, message: detail }
    }
}

} // verus!
