//! How a refused request is answered.
use vstd::prelude::*;
use crate::git_store::StoreFault;
use crate::remote::{FetchError, FetchView};
use crate::text::{concat2, concat3};

verus! {

/// The codes with which a request is refused.
#[derive(Clone, Copy, Debug, PartialEq, Eq, Structural)]
pub enum Code {
    InvalidArgument,
    NotFound,
    AlreadyExists,
    FailedPrecondition,
    Unimplemented,
    Internal,
    DataLoss,
}

/// A refusal: a code and what is said about it.
#[derive(Clone, Debug)]
pub struct Status {
    pub code: Code,
    pub message: String,
}

/// The value of a [`Status`].
pub struct StatusView {
    pub code: Code,
    pub message: Seq<char>,
}

impl View for Status {
    type V = StatusView;

    open spec fn view(&self) -> StatusView {
        StatusView { code: self.code, message: self.message@ }
    }
}

/// A refusal with a code and a text.
pub open spec fn refusal(code: Code, message: Seq<char>) -> StatusView {
    StatusView { code, message }
}

/// A refusal that says where something went wrong, and then what.
pub open spec fn in_context(code: Code, context: Seq<char>, cause: Seq<char>) -> StatusView {
    refusal(code, context + ": "@ + cause)
}

impl Status {
    /// A refusal with a code and a text.
    pub fn new(code: Code, message: String) -> (s: Status)
        ensures
            s@ == refusal(code, message@),
    {
        Status { code, message }
    }

    /// A refusal with a code and a text.
    pub fn with_text(code: Code, message: &str) -> (s: Status)
        ensures
            s@ == refusal(code, message@),
    {
        Status { code, message: message.to_owned() }
    }

    /// The code.
    pub fn code(&self) -> (c: Code)
        ensures
            c == self@.code,
    {
        self.code
    }

    /// The text.
    pub fn message(&self) -> (m: &str)
        ensures
            m@ == self@.message,
    {
        self.message.as_str()
    }
}

/// A refusal that says where something went wrong, and then what.
pub fn status_in(code: Code, context: &str, cause: &str) -> (s: Status)
    ensures
        s@ == in_context(code, context@, cause@),
{
    Status::new(code, concat3(context, ": ", cause))
}

/// A request that could not be decoded.
pub fn decode_status(context: &str, cause: &str) -> (s: Status)
    ensures
        s@ == in_context(Code::InvalidArgument, context@, cause@),
{
    status_in(Code::InvalidArgument, context, cause)
}

/// A failure of the content store.
pub fn store_status(context: &str, fault: StoreFault) -> (s: Status)
    ensures
        s@ == in_context(Code::Internal, context@, fault.message()),
{
    status_in(Code::Internal, context, fault.to_string().as_str())
}

/// A failure of the remote.
pub fn remote_status(context: &str, cause: &str) -> (s: Status)
    ensures
        s@ == in_context(Code::Internal, context@, cause@),
{
    status_in(Code::Internal, context, cause)
}

/// A failure to save the state of a mount.
pub fn metadata_status(context: &str, cause: &str) -> (s: Status)
    ensures
        s@ == in_context(Code::Internal, context@, cause@),
{
    status_in(Code::Internal, context, cause)
}

/// How a failed fetch is answered: a corrupt peer is told apart from a passing
/// failure.
pub open spec fn fetch_refusal(e: FetchView) -> StatusView {
    match e {
        FetchView::NotFound { kind, id } => refusal(
            Code::NotFound,
            kind + " "@ + id + " not found locally or on remote"@,
        ),
        FetchView::DataLoss(cause) => refusal(Code::DataLoss, cause),
        FetchView::LocalWrite(cause) => refusal(Code::Internal, cause),
        FetchView::Remote(cause) => refusal(Code::Internal, cause),
    }
}

/// How a failed fetch is answered.
pub fn fetch_status(e: FetchError) -> (s: Status)
    ensures
        s@ == fetch_refusal(e@),
{
    match e {
        FetchError::NotFound { kind, id } => {
            let mut text = concat3(kind.as_str(), " ", id.as_str());
            text.append(" not found locally or on remote");
            Status::new(Code::NotFound, text)
        },
        FetchError::DataLoss(cause) => Status::new(Code::DataLoss, cause),
        FetchError::LocalWrite(cause) => Status::new(Code::Internal, cause),
        FetchError::Remote(cause) => Status::new(Code::Internal, cause),
    }
}

/// A refusal for a path at which nothing is mounted.
pub open spec fn no_mount(path: Seq<char>) -> StatusView {
    refusal(Code::NotFound, "no mount at "@ + path)
}

/// A refusal for a path at which nothing is mounted.
pub fn no_mount_status(path: &str) -> (s: Status)
    ensures
        s@ == no_mount(path@),
{
    Status::new(Code::NotFound, concat2("no mount at ", path))
}

/// A refusal for a request that is not served yet.
pub fn unimplemented_status(request: &str) -> (s: Status)
    ensures
        s@ == refusal(Code::Unimplemented, request@ + " not yet implemented (M12)"@),
{
    Status::new(Code::Unimplemented, concat2(request, " not yet implemented (M12)"))
}

} // verus!
