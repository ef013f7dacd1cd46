//! The error a route answers with when fetching a page failed.
use vstd::prelude::*;

verus! {

/// The HTTP status of the answer to a failed fetch: 502 Bad Gateway.
pub const BAD_GATEWAY: u16 = 502;

/// A failure of a route.
#[derive(Debug)]
pub enum Error {
    /// The request to the upstream site failed; it holds the text the request
    /// error displays.
    ReqwestError(String),
    /// The forum catcher could not read a page; it holds the reason.
    CustomStrError(String),
}

/// The body of an error answer.
#[derive(Debug)]
pub struct Message {
    err_msg: String,
}

/// An error answer: its status and its body.
#[derive(Debug)]
pub struct ErrorResponse {
    pub status: u16,
    pub body: Message,
}

impl Message {
    pub closed spec fn text(&self) -> Seq<char> {
        self.err_msg@
    }

    /// A message with text `err_msg`.
    pub fn new(err_msg: String) -> (m: Message)
        ensures
            m.text() == err_msg@,
    {
        Message { err_msg }
    }

    /// The text of the message.
    pub fn err_msg(&self) -> (r: &String)
        ensures
            r@ == self.text(),
    {
        &self.err_msg
    }
}

impl Error {
    /// The text the error displays: that of the request error, or the
    /// reason, it holds.
    pub open spec fn display(&self) -> Seq<char> {
        match self {
            Error::ReqwestError(e) => e@,
            Error::CustomStrError(e) => e@,
        }
    }

    /// The text the error displays (its `Display`).
    pub fn to_string(&self) -> (r: String)
        ensures
            r@ == self.display(),
    {
        match self {
            Error::ReqwestError(e) => e.clone(),
            Error::CustomStrError(e) => e.clone(),
        }
    }

    /// The answer to the error: status 502 and a message holding the text
    /// the error displays.
    pub fn into_response(self) -> (r: ErrorResponse)
        ensures
            r.status == BAD_GATEWAY,
            r.body.text() == self.display(),
    {
        let text = self.to_string();
        ErrorResponse { status: BAD_GATEWAY, body: Message::new(text) }
    }
}

} // verus!
