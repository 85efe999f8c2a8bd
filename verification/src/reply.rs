//! What goes back to the client: a status, an optional content type and a body.

use vstd::prelude::*;

verus! {

/// The status of a reply.
#[derive(PartialEq, Eq, Structural, Clone, Copy, Debug)]
pub enum Status {
    Success,
    BadRequest,
    NotFound,
    ServerError,
}

/// The body of a reply: a message or raw bytes.
#[derive(Debug)]
pub enum Body {
    Text(String),
    Bytes(Vec<u8>),
}

/// The abstract body: characters of a message or bytes.
pub enum BodyView {
    Text(Seq<char>),
    Bytes(Seq<u8>),
}

/// A reply to a request.
#[derive(Debug)]
pub struct Reply {
    pub status: Status,
    pub content_type: Option<String>,
    pub body: Body,
}

/// The abstract reply.
pub struct ReplyView {
    pub status: Status,
    pub content_type: Option<Seq<char>>,
    pub body: BodyView,
}

impl View for Body {
    type V = BodyView;

    open spec fn view(&self) -> BodyView {
        match self {
            Body::Text(s) => BodyView::Text(s@),
            Body::Bytes(b) => BodyView::Bytes(b@),
        }
    }
}

/// The view of an optional string.
pub open spec fn opt_view(s: Option<String>) -> Option<Seq<char>> {
    match s {
        Some(t) => Some(t@),
        None => None,
    }
}

impl View for Reply {
    type V = ReplyView;

    open spec fn view(&self) -> ReplyView {
        ReplyView { status: self.status, content_type: opt_view(self.content_type), body: self.body@ }
    }
}

/// A reply that carries a message and no content type.
pub open spec fn text_reply(status: Status, message: Seq<char>) -> ReplyView {
    ReplyView { status, content_type: None, body: BodyView::Text(message) }
}

/// The content type of an error reply.
pub open spec fn error_type() -> Seq<char> {
    "text/plain; charset=utf-8"@
}

/// An error reply: a message written out as plain text.
pub open spec fn error_reply(status: Status, message: Seq<char>) -> ReplyView {
    ReplyView { status, content_type: Some(error_type()), body: BodyView::Text(message) }
}

/// A successful reply that carries bytes of the given content type.
pub open spec fn bytes_reply(content_type: Seq<char>, bytes: Seq<u8>) -> ReplyView {
    ReplyView { status: Status::Success, content_type: Some(content_type), body: BodyView::Bytes(bytes) }
}

/// Builds a reply that carries `message` and no content type.
pub fn message(status: Status, text: String) -> (r: Reply)
    ensures
        r@ == text_reply(status, text@),
{
    Reply { status, content_type: None, body: Body::Text(text) }
}

/// Builds an error reply that carries `text` as plain text.
pub fn failure(status: Status, text: String) -> (r: Reply)
    ensures
        r@ == error_reply(status, text@),
{
    Reply {
        status,
        content_type: Some("text/plain; charset=utf-8".to_owned()),
        body: Body::Text(text),
    }
}

/// Builds a successful reply that carries `bytes` as `content_type`.
pub fn content(content_type: String, bytes: Vec<u8>) -> (r: Reply)
    ensures
        r@ == bytes_reply(content_type@, bytes@),
{
    Reply { status: Status::Success, content_type: Some(content_type), body: Body::Bytes(bytes) }
}

} // verus!
