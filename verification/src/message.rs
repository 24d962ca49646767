//! The messages exchanged with a client, and the rule that answers a request.
use vstd::prelude::*;

verus! {

/// Free-form text. A client sends it to be echoed; the server sends it back.
#[derive(Clone, Debug, PartialEq, Eq)]
pub struct EchoMessage {
    pub content: String,
}

/// Two integers to be added.
#[derive(Clone, Copy, Debug, PartialEq, Eq)]
pub struct AddRequest {
    pub a: i32,
    pub b: i32,
}

/// The sum of the two integers of an [`AddRequest`].
#[derive(Clone, Copy, Debug, PartialEq, Eq)]
pub struct AddResponse {
    pub result: i32,
}

/// What a client may ask for.
#[derive(Clone, Debug, PartialEq, Eq)]
pub enum Request {
    Echo(EchoMessage),
    Add(AddRequest),
}

/// What the server may answer.
#[derive(Clone, Debug, PartialEq, Eq)]
pub enum Response {
    Echo(EchoMessage),
    Add(AddResponse),
}

/// The envelope a client sends. `message` is `None` when the sender filled in
/// no request at all, which the wire format allows.
#[derive(Clone, Debug, PartialEq, Eq)]
pub struct ClientMessage {
    pub message: Option<Request>,
}

/// The envelope the server sends back.
#[derive(Clone, Debug, PartialEq, Eq)]
pub struct ServerMessage {
    pub message: Option<Response>,
}

/// Mathematical value of a [`Request`].
pub enum RequestView {
    Echo(Seq<char>),
    Add(i32, i32),
}

/// Mathematical value of a [`Response`].
pub enum ResponseView {
    Echo(Seq<char>),
    Add(i32),
}

impl View for Request {
    type V = RequestView;

    open spec fn view(&self) -> RequestView {
        match *self {
            Request::Echo(e) => RequestView::Echo(e.content@),
            Request::Add(r) => RequestView::Add(r.a, r.b),
        }
    }
}

impl View for Response {
    type V = ResponseView;

    open spec fn view(&self) -> ResponseView {
        match *self {
            Response::Echo(e) => ResponseView::Echo(e.content@),
            Response::Add(r) => ResponseView::Add(r.result),
        }
    }
}

impl View for ClientMessage {
    type V = Option<RequestView>;

    open spec fn view(&self) -> Option<RequestView> {
        match self.message {
            Some(r) => Some(r@),
            None => None,
        }
    }
}

impl View for ServerMessage {
    type V = Option<ResponseView>;

    open spec fn view(&self) -> Option<ResponseView> {
        match self.message {
            Some(r) => Some(r@),
            None => None,
        }
    }
}

/// The sum of two 32-bit integers, brought back into the 32-bit range by
/// adding or subtracting 2^32 when it falls outside.
pub open spec fn wrapped_sum(a: i32, b: i32) -> i32 {
    if a + b > i32::MAX {
        (a + b - 0x1_0000_0000) as i32
    } else if a + b < i32::MIN {
        (a + b + 0x1_0000_0000) as i32
    } else {
        (a + b) as i32
    }
}

/// The answer to a request: an echo returns the text it was given, an addition
/// returns the wrapped sum.
pub open spec fn answer(request: RequestView) -> ResponseView {
    match request {
        RequestView::Echo(text) => ResponseView::Echo(text),
        RequestView::Add(a, b) => ResponseView::Add(wrapped_sum(a, b)),
    }
}

/// The reply owed to a client message: the answer to its request, or nothing
/// when it carries no request.
pub open spec fn reply_to(message: Option<RequestView>) -> Option<ResponseView> {
    match message {
        Some(request) => Some(answer(request)),
        None => None,
    }
}

/// Answers one client message.
///
/// An echo request is answered with the same text, an add request with the
/// sum of its operands, wrapping around on overflow. A message without a
/// request is not answered: the result is `None` and nothing is to be sent.
pub fn dispatch(message: ClientMessage) -> (reply: Option<ServerMessage>)
    ensures
        match reply {
            Some(r) => r.message is Some && r@ == reply_to(message@),
            None => message@ is None,
        },
{
    match message.message {
        Some(Request::Echo(echo)) => Some(
            ServerMessage { message: Some(Response::Echo(EchoMessage { content: echo.content })) },
        ),
        Some(Request::Add(add)) => {
            let result: i32 = add.a.wrapping_add(add.b);
            Some(ServerMessage { message: Some(Response::Add(AddResponse { result })) })
        },
        None => None,
    }
}

} // verus!
