//! What can go wrong in a call, and the error object of the protocol.

use vstd::prelude::*;
use crate::json::{Json, JsonView};
use crate::text::{chars_of, push_signed_decimal, push_str, signed_decimal, string_of};

verus! {

/// The error object that the remote side reports.
#[derive(Debug, PartialEq, Eq)]
pub struct BrpError {
    /// Defines the general type of the error.
    pub code: i16,
    /// Short, human-readable description of the error.
    pub message: String,
    /// Optional additional error data.
    pub data: Option<Json>,
}

/// The content of a [`BrpError`].
pub struct BrpErrorView {
    pub code: int,
    pub message: Seq<char>,
    pub data: Option<JsonView>,
}

impl View for BrpError {
    type V = BrpErrorView;

    open spec fn view(&self) -> BrpErrorView {
        BrpErrorView {
            code: self.code as int,
            message: self.message@,
            data: match self.data {
                Some(d) => Some(d@),
                None => None,
            },
        }
    }
}

/// The error object that the value `v` holds: an object with an integer
/// `code` of 16 bits and a string `message`; its `data`, where it has one
/// that is not `null`.
pub open spec fn error_object(v: JsonView) -> Option<BrpErrorView> {
    match (v.member("code"@), v.member("message"@)) {
        (Some(code), Some(JsonView::String(message))) => match code.integer() {
            Some(n) => if i16::MIN <= n <= i16::MAX {
                Some(
                    BrpErrorView {
                        code: n,
                        message,
                        data: match v.member("data"@) {
                            None => None,
                            Some(JsonView::Null) => None,
                            Some(d) => Some(d),
                        },
                    },
                )
            } else {
                None
            },
            None => None,
        },
        _ => None,
    }
}

impl BrpError {
    /// Reads an error object.
    pub fn decode(value: &Json) -> (r: Option<BrpError>)
        ensures
            r is Some == error_object(value@) is Some,
            r matches Some(e) ==> Some(e@) == error_object(value@),
    {
        let code = match value.get("code") {
            Some(c) => match c.as_i64() {
                Some(n) => {
                    if n < -32768 || n > 32767 {
                        return None;
                    }
                    n as i16
                },
                None => {
                    return None;
                },
            },
            None => {
                return None;
            },
        };
        let message = match value.get("message") {
            Some(m) => match m.as_str() {
                Some(s) => s.clone(),
                None => {
                    return None;
                },
            },
            None => {
                return None;
            },
        };
        let data = match value.get("data") {
            Some(d) => if d.is_null() {
                None
            } else {
                Some(d.duplicate())
            },
            None => None,
        };
        Some(BrpError { code, message, data })
    }

    /// The text of the error: its message, then its code in brackets.
    pub open spec fn text(e: BrpErrorView) -> Seq<char> {
        e.message + " (code="@ + signed_decimal(e.code) + ")"@
    }

    /// The error in words.
    pub fn describe(&self) -> (r: String)
        ensures
            r@ == Self::text(self@),
    {
        let mut out = chars_of(self.message.as_str());
        push_str(&mut out, " (code=");
        push_signed_decimal(&mut out, self.code as i64);
        push_str(&mut out, ")");
        string_of(&out)
    }
}

/// Why a call gave no result.
#[derive(Debug, PartialEq, Eq)]
pub enum ClientError {
    /// The request did not get through; the text says why.
    HttpError(String),
    /// The reply was not of the expected shape; the text says why.
    ParseError(String),
    /// The remote side reported an error.
    ServerError(BrpError),
}

/// The content of a [`ClientError`].
pub enum ClientErrorView {
    HttpError(Seq<char>),
    ParseError(Seq<char>),
    ServerError(BrpErrorView),
}

impl View for ClientError {
    type V = ClientErrorView;

    open spec fn view(&self) -> ClientErrorView {
        match self {
            ClientError::HttpError(s) => ClientErrorView::HttpError(s@),
            ClientError::ParseError(s) => ClientErrorView::ParseError(s@),
            ClientError::ServerError(e) => ClientErrorView::ServerError(e@),
        }
    }
}

impl ClientError {
    /// The text of the error: what kind it is, then its cause.
    pub open spec fn text(e: ClientErrorView) -> Seq<char> {
        match e {
            ClientErrorView::HttpError(s) => "HTTP request failed: "@ + s,
            ClientErrorView::ParseError(s) => "failed to parse response: "@ + s,
            ClientErrorView::ServerError(e) => "server error: "@ + BrpError::text(e),
        }
    }

    /// The error in words.
    pub fn describe(&self) -> (r: String)
        ensures
            r@ == Self::text(self@),
    {
        let mut out: Vec<char> = Vec::new();
        match self {
            ClientError::HttpError(s) => {
                push_str(&mut out, "HTTP request failed: ");
                push_str(&mut out, s.as_str());
            },
            ClientError::ParseError(s) => {
                push_str(&mut out, "failed to parse response: ");
                push_str(&mut out, s.as_str());
            },
            ClientError::ServerError(e) => {
                push_str(&mut out, "server error: ");
                let inner = e.describe();
                push_str(&mut out, inner.as_str());
            },
        }
        string_of(&out)
    }

    /// A copy of this error.
    pub fn duplicate(&self) -> (r: ClientError)
        ensures
            r@ == self@,
    {
        match self {
            ClientError::HttpError(s) => ClientError::HttpError(s.clone()),
            ClientError::ParseError(s) => ClientError::ParseError(s.clone()),
            ClientError::ServerError(e) => ClientError::ServerError(
                BrpError {
                    code: e.code,
                    message: e.message.clone(),
                    data: match &e.data {
                        Some(d) => Some(d.duplicate()),
                        None => None,
                    },
                },
            ),
        }
    }
}

} // verus!
