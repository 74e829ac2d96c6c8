//! The envelope of a call: what is sent, and how a reply is told apart
//! into a result and an error.

use vstd::prelude::*;
use crate::error::{error_object, BrpError, BrpErrorView, ClientError, ClientErrorView};
use crate::json::{member_views, Json, JsonView};

verus! {

/// One call: the method and its parameters.
#[derive(Debug, PartialEq, Eq)]
pub struct Request {
    pub method: String,
    pub params: Option<Json>,
}

/// The content of a [`Request`].
pub struct RequestView {
    pub method: Seq<char>,
    pub params: Option<JsonView>,
}

impl View for Request {
    type V = RequestView;

    open spec fn view(&self) -> RequestView {
        RequestView {
            method: self.method@,
            params: match self.params {
                Some(p) => Some(p@),
                None => None,
            },
        }
    }
}

/// The message that is sent for the call `request` under the identifier
/// `id`: an object with the members `id`, `jsonrpc`, `method` and
/// `params`, where missing parameters are `null`.
pub open spec fn envelope(request: RequestView, id: u32) -> JsonView {
    JsonView::Object(
        seq![
            ("id"@, JsonView::of_nat(id as nat)),
            ("jsonrpc"@, JsonView::String("2.0"@)),
            ("method"@, JsonView::String(request.method)),
            (
                "params"@,
                match request.params {
                    Some(p) => p,
                    None => JsonView::Null,
                },
            ),
        ],
    )
}

/// The members of a message by their names: the identifier, the version
/// `2.0`, the method, and the parameters, which are `null` where the call
/// has none.
pub proof fn lemma_envelope_members(request: RequestView, id: u32)
    ensures
        envelope(request, id).member("id"@) == Some(JsonView::of_nat(id as nat)),
        envelope(request, id).member("jsonrpc"@) == Some(JsonView::String("2.0"@)),
        envelope(request, id).member("method"@) == Some(JsonView::String(request.method)),
        envelope(request, id).member("params"@) == Some(
            match request.params {
                Some(p) => p,
                None => JsonView::Null,
            },
        ),
{
    reveal_strlit("id");
    reveal_strlit("jsonrpc");
    reveal_strlit("method");
    reveal_strlit("params");
    let members = match envelope(request, id) {
        JsonView::Object(m) => m,
        _ => Seq::empty(),
    };
    assert("jsonrpc"@[0] != "id"@[0]);
    assert("method"@[0] != "id"@[0] && "method"@[0] != "jsonrpc"@[0]);
    assert("params"@[0] != "id"@[0] && "params"@[0] != "jsonrpc"@[0] && "params"@[0]
        != "method"@[0]);
    crate::assoc::lemma_find_at(members, "id"@, 0);
    crate::assoc::lemma_find_at(members, "jsonrpc"@, 1);
    crate::assoc::lemma_find_at(members, "method"@, 2);
    crate::assoc::lemma_find_at(members, "params"@, 3);
}

/// The text of the error for a reply that is neither a result nor an
/// error.
pub open spec fn unrecognized_reply() -> Seq<char> {
    "reply is neither a result nor an error"@
}

/// Whether the value is an identifier of a call: an unsigned integer of 32
/// bits.
pub open spec fn is_call_id(v: Option<JsonView>) -> bool {
    match v {
        Some(id) => match id.integer() {
            Some(n) => 0 <= n <= u32::MAX,
            None => false,
        },
        None => false,
    }
}

/// What the reply `body` says. A reply with an identifier and a `result`
/// gives that result. One with an identifier and an error object as
/// `error` gives a server error. Any other reply is a parse error. The
/// identifier is not compared with the one that was sent.
pub open spec fn reply_of(body: JsonView) -> Result<JsonView, ClientErrorView> {
    if is_call_id(body.member("id"@)) && body.member("result"@) is Some {
        Ok(body.member("result"@).unwrap())
    } else if is_call_id(body.member("id"@)) && body.member("error"@) is Some && error_object(
        body.member("error"@).unwrap(),
    ) is Some {
        Err(ClientErrorView::ServerError(error_object(body.member("error"@).unwrap()).unwrap()))
    } else {
        Err(ClientErrorView::ParseError(unrecognized_reply()))
    }
}

/// A reply, told apart: a result or an error, each with the identifier of
/// the call.
#[derive(Debug, PartialEq, Eq)]
pub enum BrpResponse {
    Success { id: u32, result: Json },
    Error { id: u32, error: BrpError },
}

/// The content of a [`BrpResponse`].
pub enum BrpResponseView {
    Success { id: u32, result: JsonView },
    Error { id: u32, error: BrpErrorView },
}

impl View for BrpResponse {
    type V = BrpResponseView;

    open spec fn view(&self) -> BrpResponseView {
        match self {
            BrpResponse::Success { id, result } => BrpResponseView::Success {
                id: *id,
                result: result@,
            },
            BrpResponse::Error { id, error } => BrpResponseView::Error { id: *id, error: error@ },
        }
    }
}

/// The reply that the value `body` holds: a success where it has an
/// identifier and a `result`; else an error where it has an identifier and
/// an error object as `error`.
pub open spec fn response_shape(body: JsonView) -> Option<BrpResponseView> {
    if is_call_id(body.member("id"@)) && body.member("result"@) is Some {
        Some(
            BrpResponseView::Success {
                id: body.member("id"@).unwrap().integer().unwrap() as u32,
                result: body.member("result"@).unwrap(),
            },
        )
    } else if is_call_id(body.member("id"@)) && body.member("error"@) is Some && error_object(
        body.member("error"@).unwrap(),
    ) is Some {
        Some(
            BrpResponseView::Error {
                id: body.member("id"@).unwrap().integer().unwrap() as u32,
                error: error_object(body.member("error"@).unwrap()).unwrap(),
            },
        )
    } else {
        None
    }
}

/// What a reply says: its result, or the server's error.
pub open spec fn response_outcome(response: BrpResponseView) -> Result<JsonView, ClientErrorView> {
    match response {
        BrpResponseView::Success { result, .. } => Ok(result),
        BrpResponseView::Error { error, .. } => Err(ClientErrorView::ServerError(error)),
    }
}

/// What a reply says is what its shape says.
pub proof fn lemma_reply_by_shape(body: JsonView)
    ensures
        reply_of(body) == (match response_shape(body) {
            Some(response) => response_outcome(response),
            None => Err(ClientErrorView::ParseError(unrecognized_reply())),
        }),
{
}

impl BrpResponse {
    /// Reads a reply.
    pub fn decode(body: &Json) -> (r: Option<BrpResponse>)
        ensures
            r is Some == response_shape(body@) is Some,
            r matches Some(response) ==> Some(response@) == response_shape(body@),
    {
        let id = match call_id(body) {
            Some(id) => id,
            None => {
                return None;
            },
        };
        match body.get("result") {
            Some(result) => {
                return Some(BrpResponse::Success { id, result: result.duplicate() });
            },
            None => {},
        }
        match body.get("error") {
            Some(error) => match BrpError::decode(error) {
                Some(error) => Some(BrpResponse::Error { id, error }),
                None => None,
            },
            None => None,
        }
    }

    /// What the reply says: its result, or the server's error.
    pub fn into_result(self) -> (r: Result<Json, ClientError>)
        ensures
            outcome_view(r) == response_outcome(self@),
    {
        match self {
            BrpResponse::Success { result, .. } => Ok(result),
            BrpResponse::Error { error, .. } => Err(ClientError::ServerError(error)),
        }
    }
}

/// The content of the outcome of a call.
pub open spec fn outcome_view(r: Result<Json, ClientError>) -> Result<JsonView, ClientErrorView> {
    match r {
        Ok(v) => Ok(v@),
        Err(e) => Err(e@),
    }
}

fn call_id(body: &Json) -> (r: Option<u32>)
    ensures
        r is Some == is_call_id(body@.member("id"@)),
        r matches Some(id) ==> body@.member("id"@).unwrap().integer() == Some(id as int),
{
    match body.get("id") {
        Some(id) => match id.as_i64() {
            Some(n) => if 0 <= n && n <= 0xffff_ffff {
                Some(n as u32)
            } else {
                None
            },
            None => {
                proof {
                    let v = id@.integer();
                    if v is Some && 0 <= v.unwrap() <= u32::MAX {
                        assert(id@.as_i64() is Some);
                    }
                }
                None
            },
        },
        None => None,
    }
}

/// What the reply `body` says: the result, the server's error, or a parse
/// error where it is neither.
pub fn decode_reply(body: &Json) -> (r: Result<Json, ClientError>)
    ensures
        outcome_view(r) == reply_of(body@),
{
    match BrpResponse::decode(body) {
        Some(response) => response.into_result(),
        None => Err(ClientError::ParseError("reply is neither a result nor an error".to_owned())),
    }
}

/// The state of a connection that the protocol needs: the address of the
/// remote side, and the identifier of the next call.
#[derive(Debug)]
pub struct BrpClient {
    call_id: u32,
    url: String,
}

impl BrpClient {
    /// The address of the remote side.
    pub closed spec fn address(&self) -> Seq<char> {
        self.url@
    }

    /// The identifier that the next call gets.
    pub closed spec fn upcoming(&self) -> u32 {
        self.call_id
    }

    /// A client for the remote side at `url`. Its first call has the
    /// identifier zero.
    pub fn new(url: String) -> (r: BrpClient)
        ensures
            r.address() == url@,
            r.upcoming() == 0,
    {
        BrpClient { call_id: 0, url }
    }

    /// The address of the remote side.
    pub fn url(&self) -> (r: &String)
        ensures
            r@ == self.address(),
    {
        &self.url
    }

    /// Whether two clients speak to the same address.
    pub fn same_endpoint(&self, other: &BrpClient) -> (r: bool)
        ensures
            r == (self.address() == other.address()),
    {
        crate::text::text_eq(self.url.as_str(), other.url.as_str())
    }

    /// The identifier for one call. Each call gets the next number; after
    /// the greatest of 32 bits the count starts again at zero.
    pub fn next_call_id(&mut self) -> (r: u32)
        ensures
            r == old(self).upcoming(),
            final(self).upcoming() == (if old(self).upcoming() == u32::MAX {
                0u32
            } else {
                (old(self).upcoming() + 1) as u32
            }),
            final(self).address() == old(self).address(),
    {
        let id = self.call_id;
        self.call_id = if id == u32::MAX {
            0
        } else {
            id + 1
        };
        id
    }

    /// The message to send for the call `request`, under the client's next
    /// identifier.
    pub fn envelope(&mut self, request: &Request) -> (r: Json)
        ensures
            r@ == envelope(request@, old(self).upcoming()),
            final(self).upcoming() == (if old(self).upcoming() == u32::MAX {
                0u32
            } else {
                (old(self).upcoming() + 1) as u32
            }),
            final(self).address() == old(self).address(),
    {
        let id = self.next_call_id();
        make_envelope(request, id)
    }
}

/// The message to send for the call `request` under the identifier `id`.
pub fn make_envelope(request: &Request, id: u32) -> (r: Json)
    ensures
        r@ == envelope(request@, id),
{
    let params = match &request.params {
        Some(p) => p.duplicate(),
        None => Json::Null,
    };
    let mut members: Vec<(String, Json)> = Vec::new();
    members.push(("id".to_owned(), Json::from_u64(id as u64)));
    members.push(("jsonrpc".to_owned(), Json::from_text("2.0")));
    members.push(("method".to_owned(), Json::String(request.method.clone())));
    members.push(("params".to_owned(), params));
    let r = Json::object(members);
    proof {
        let want = match envelope(request@, id) {
            JsonView::Object(m) => m,
            _ => Seq::empty(),
        };
        assert(member_views(members@) =~= want);
    }
    r
}

} // verus!
