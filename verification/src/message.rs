//! The request a client sends to a server and the response it gets back.

use vstd::prelude::*;

verus! {

/// What a request says, as characters.
pub struct RequestView {
    pub op: Seq<char>,
    pub key: Seq<char>,
    pub value: Seq<char>,
    pub life: i32,
    pub otherport: Seq<char>,
}

/// What a response says, as characters.
pub struct ResponseView {
    pub op: Seq<char>,
    pub key: Seq<char>,
    pub value: Seq<char>,
    pub state: bool,
}

/// A request: the operation's name, the key and value it concerns, a
/// lifespan in seconds (for `setex`) and the address of another server
/// (for `getport` and `setport`).
#[derive(Debug, Clone)]
pub struct GetItemRequest {
    pub op: String,
    pub key: String,
    pub value: String,
    pub life: i32,
    pub otherport: String,
}

/// A response: the operation it answers, a key and a value, and whether
/// the operation succeeded.
#[derive(Debug, Clone)]
pub struct GetItemResponse {
    pub op: String,
    pub key: String,
    pub value: String,
    pub state: bool,
}

impl View for GetItemRequest {
    type V = RequestView;

    open spec fn view(&self) -> RequestView {
        RequestView {
            op: self.op@,
            key: self.key@,
            value: self.value@,
            life: self.life,
            otherport: self.otherport@,
        }
    }
}

impl View for GetItemResponse {
    type V = ResponseView;

    open spec fn view(&self) -> ResponseView {
        ResponseView { op: self.op@, key: self.key@, value: self.value@, state: self.state }
    }
}

/// A string with the characters of `lit`.
pub fn text(lit: &str) -> (s: String)
    ensures
        s@ == lit@,
{
    lit.to_owned()
}

/// Whether `s` has exactly the characters of `lit`.
pub fn text_is(s: &String, lit: &str) -> (b: bool)
    ensures
        b == (s@ == lit@),
{
    let t = text(lit);
    *s == t
}

impl GetItemRequest {
    /// A request with the given fields.
    pub fn new(op: String, key: String, value: String, life: i32, otherport: String) -> (r: Self)
        ensures
            r@ == (RequestView { op: op@, key: key@, value: value@, life: life, otherport: otherport@ }),
    {
        GetItemRequest { op, key, value, life, otherport }
    }

    /// The request that the client starts from: every text field a single
    /// space, and no lifespan.
    pub fn blank() -> (r: Self)
        ensures
            r@ == (RequestView { op: " "@, key: " "@, value: " "@, life: 0, otherport: " "@ }),
    {
        GetItemRequest { op: text(" "), key: text(" "), value: text(" "), life: 0, otherport: text(" ") }
    }

    /// A copy of the request.
    pub fn duplicate(&self) -> (r: Self)
        ensures
            r@ == self@,
    {
        GetItemRequest {
            op: self.op.clone(),
            key: self.key.clone(),
            value: self.value.clone(),
            life: self.life,
            otherport: self.otherport.clone(),
        }
    }
}

impl GetItemResponse {
    /// A response with the given fields.
    pub fn new(op: String, key: String, value: String, state: bool) -> (r: Self)
        ensures
            r@ == (ResponseView { op: op@, key: key@, value: value@, state: state }),
    {
        GetItemResponse { op, key, value, state }
    }

    /// The response with empty texts and a failed state.
    pub fn empty() -> (r: Self)
        ensures
            r@ == (ResponseView { op: Seq::empty(), key: Seq::empty(), value: Seq::empty(), state: false }),
    {
        GetItemResponse { op: String::new(), key: String::new(), value: String::new(), state: false }
    }

    /// A copy of the response.
    pub fn duplicate(&self) -> (r: Self)
        ensures
            r@ == self@,
    {
        GetItemResponse {
            op: self.op.clone(),
            key: self.key.clone(),
            value: self.value.clone(),
            state: self.state,
        }
    }
}

} // verus!
