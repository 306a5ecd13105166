//! The replies of the HTTP boundary: which status and which text answer a
//! query that cannot be read and a request that ends without a lease.

use vstd::prelude::*;
use crate::inventory::ResourceRequestError;
use crate::query::QueryError;

verus! {

/// The status of a reply that answers a request that could be read.
pub const STATUS_OK: u16 = 200;

/// The status of a reply to a query that holds no request.
pub const STATUS_BAD_REQUEST: u16 = 400;

/// A status and a body, ready to be sent.
#[derive(Debug)]
pub struct Reply {
    pub status: u16,
    pub body: String,
}

/// The name of the error kind, as the replies spell it.
pub open spec fn error_name(error: ResourceRequestError) -> Seq<char> {
    match error {
        ResourceRequestError::Impossible => "Impossible"@,
        ResourceRequestError::InUse => "InUse"@,
        ResourceRequestError::TimeOut => "TimeOut"@,
    }
}

/// What is wrong with a query, in words.
pub open spec fn query_error_text(error: QueryError) -> Seq<char> {
    match error {
        QueryError::InvalidUri => "invalid request URI"@,
        QueryError::NoValue => "No value specified"@,
        QueryError::UnknownKey => "unknown key"@,
        QueryError::InvalidTimeout => "parse error: invalid timeout"@,
    }
}

/// The name of the error kind, as the replies spell it.
pub fn describe_error(error: ResourceRequestError) -> (name: &'static str)
    ensures
        name@ == error_name(error),
{
    match error {
        ResourceRequestError::Impossible => "Impossible",
        ResourceRequestError::InUse => "InUse",
        ResourceRequestError::TimeOut => "TimeOut",
    }
}

/// The reply to a query that holds no request: a bad request, with the
/// reason as its text.
pub fn reply_to_query_error(error: QueryError) -> (reply: Reply)
    ensures
        reply.status == STATUS_BAD_REQUEST,
        reply.body@ == query_error_text(error),
{
    let text = match error {
        QueryError::InvalidUri => "invalid request URI",
        QueryError::NoValue => "No value specified",
        QueryError::UnknownKey => "unknown key",
        QueryError::InvalidTimeout => "parse error: invalid timeout",
    };
    Reply { status: STATUS_BAD_REQUEST, body: text.to_owned() }
}

/// The reply to a request that ended without a lease: the request was
/// understood, and the text names the error kind.
pub fn reply_to_request_error(error: ResourceRequestError) -> (reply: Reply)
    ensures
        reply.status == STATUS_OK,
        reply.body@ == request_error_text(error),
{
    let mut body = "got an error: ".to_owned();
    body.append(describe_error(error));
    Reply { status: STATUS_OK, body }
}

/// The text of the reply to a request that ended with `error`.
pub open spec fn request_error_text(error: ResourceRequestError) -> Seq<char> {
    "got an error: "@ + error_name(error)
}

/// Reads the error kind back out of the text of a reply: the kind whose
/// reply has exactly this text, if there is one.
pub fn error_from_text(text: &str) -> (error: Option<ResourceRequestError>)
    ensures
        error == error_of_text(text@),
        error matches Some(found) ==> text@ == request_error_text(found),
        error is None ==> forall|any: ResourceRequestError| text@ != request_error_text(any),
{
    let given = text.to_owned();
    if given == reply_to_request_error(ResourceRequestError::Impossible).body {
        Some(ResourceRequestError::Impossible)
    } else if given == reply_to_request_error(ResourceRequestError::InUse).body {
        Some(ResourceRequestError::InUse)
    } else if given == reply_to_request_error(ResourceRequestError::TimeOut).body {
        Some(ResourceRequestError::TimeOut)
    } else {
        None
    }
}

/// No two error kinds share the text of their reply, so that the text
/// tells the kind.
pub proof fn lemma_error_texts_differ(a: ResourceRequestError, b: ResourceRequestError)
    requires
        request_error_text(a) == request_error_text(b),
    ensures
        a == b,
{
    // the three names differ in length, and so do the texts
    reveal_strlit("Impossible");
    reveal_strlit("InUse");
    reveal_strlit("TimeOut");
    assert(request_error_text(a).len() == "got an error: "@.len() + error_name(a).len());
    assert(request_error_text(b).len() == "got an error: "@.len() + error_name(b).len());
}

/// What a reply tells the client that sent the request.
#[derive(Debug, Clone, Copy, PartialEq, Eq, Structural)]
pub enum ReplyKind {
    /// The request was served: the body is the lease.
    Lease,
    /// The request ended without a lease, for this reason.
    Refused(ResourceRequestError),
    /// The server could not read a request out of the query.
    BadRequest,
    /// The reply is none that the service sends.
    Unexpected,
}

/// The error whose reply has the text `text`, if there is one.
pub open spec fn error_of_text(text: Seq<char>) -> Option<ResourceRequestError> {
    if text == request_error_text(ResourceRequestError::Impossible) {
        Some(ResourceRequestError::Impossible)
    } else if text == request_error_text(ResourceRequestError::InUse) {
        Some(ResourceRequestError::InUse)
    } else if text == request_error_text(ResourceRequestError::TimeOut) {
        Some(ResourceRequestError::TimeOut)
    } else {
        None
    }
}

/// What a reply with this status and body tells: with the status of a
/// request that could be read, the error that the body names, or a lease
/// if it names none; with the status of a bad request, that; with any
/// other status, nothing that the service sends.
pub open spec fn reply_kind(status: u16, body: Seq<char>) -> ReplyKind {
    if status == STATUS_OK {
        match error_of_text(body) {
            Some(error) => ReplyKind::Refused(error),
            None => ReplyKind::Lease,
        }
    } else if status == STATUS_BAD_REQUEST {
        ReplyKind::BadRequest
    } else {
        ReplyKind::Unexpected
    }
}

/// Tells what a reply with this status and body says. A failure of the
/// transport is none of the three lease errors, so that only a reply that
/// names one of them is read as one.
pub fn classify_reply(status: u16, body: &str) -> (kind: ReplyKind)
    ensures
        kind == reply_kind(status, body@),
{
    if status == STATUS_OK {
        match error_from_text(body) {
            Some(error) => ReplyKind::Refused(error),
            None => ReplyKind::Lease,
        }
    } else if status == STATUS_BAD_REQUEST {
        ReplyKind::BadRequest
    } else {
        ReplyKind::Unexpected
    }
}

/// Every reply of the service is told for what it is: the reply to a
/// request that ended with an error names that error, and the reply to a
/// query that could not be read is a bad request.
pub proof fn lemma_replies_are_told_apart(error: ResourceRequestError)
    ensures
        reply_kind(STATUS_OK, request_error_text(error)) == ReplyKind::Refused(error),
        forall|text: Seq<char>| reply_kind(STATUS_BAD_REQUEST, text) == ReplyKind::BadRequest,
{
    let text = request_error_text(error);
    if text == request_error_text(ResourceRequestError::Impossible) {
        lemma_error_texts_differ(error, ResourceRequestError::Impossible);
    } else if text == request_error_text(ResourceRequestError::InUse) {
        lemma_error_texts_differ(error, ResourceRequestError::InUse);
    }
}

/// The reply that carries a lease, already serialised as `document`.
pub fn reply_with_lease(document: String) -> (reply: Reply)
    ensures
        reply.status == STATUS_OK,
        reply.body == document,
{
    Reply { status: STATUS_OK, body: document }
}

} // verus!
