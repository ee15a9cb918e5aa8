//! The shared error taxonomy: every backend failure surfaces as exactly one
//! of these variants.

use vstd::prelude::*;

verus! {

/// Abstract value of a `ClientError`: the message strings as character
/// sequences.
pub enum ErrorView {
    /// The server answered with a non-2xx status: code and the response text.
    Status(u16, Seq<char>),
    /// The request failed before any response was obtained (DNS, connect,
    /// timeout, TLS).
    Transport(Seq<char>),
    /// A 2xx response arrived but its body could not be read as text.
    Body(Seq<char>),
}

/// One normalized failure of a transport call. Exactly one variant describes
/// any failed call; a status failure and a transport failure never combine.
pub enum ClientError {
    /// Non-2xx HTTP response: status code and response text.
    StatusCode(u16, String),
    /// Connection or IO failure before a status line was obtained.
    Request(String),
    /// The response body could not be read as text.
    Body(String),
}

impl View for ClientError {
    type V = ErrorView;

    open spec fn view(&self) -> ErrorView {
        match self {
            ClientError::StatusCode(code, text) => ErrorView::Status(*code, text@),
            ClientError::Request(msg) => ErrorView::Transport(msg@),
            ClientError::Body(msg) => ErrorView::Body(msg@),
        }
    }
}

/// Alias for the result of every transport operation.
pub type ClientResult<T> = Result<T, ClientError>;

} // verus!
