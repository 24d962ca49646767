//! One connection: what to do with the bytes of each read.
//!
//! The owner of the socket reads once, hands the bytes to [`Client::handle`]
//! and carries out what comes back. Nothing here blocks or touches the
//! network, so the whole exchange is decided by the bytes alone.
use crate::codec::{decode_client_message, encode_server_message};
use crate::round_trip::{
    lemma_client_message_round_trip, lemma_message_bytes_not_empty,
    lemma_server_message_round_trip,
};
use crate::schema::{
    client_message_bytes, parse_client_message, parse_server_message, request_fits,
    server_message_bytes, text_fits,
};
use crate::message::{answer, dispatch, reply_to, wrapped_sum, RequestView, ResponseView};
use vstd::prelude::*;

verus! {

/// The size of the buffer that one read fills at most. A message longer than
/// this does not arrive in one piece and is not understood.
pub const READ_BUFFER_SIZE: usize = 512;

/// What handling one read came to, and so what the owner of the socket has to
/// do next.
#[derive(Clone, Debug, PartialEq, Eq)]
pub enum Handled {
    /// The read returned no bytes: the peer has closed the connection.
    /// Nothing is written and the connection is not read again.
    Disconnected,
    /// A request was understood. These bytes are written back in full and
    /// flushed before the next read.
    Reply(Vec<u8>),
    /// The bytes are not a message. Nothing is written; the connection stays
    /// open and is read again.
    Undecodable,
    /// The bytes are a message that carries no request. Nothing is written;
    /// the connection stays open and is read again.
    Unanswered,
}

/// Mathematical value of a [`Handled`].
pub enum HandledView {
    Disconnected,
    Reply(Seq<u8>),
    Undecodable,
    Unanswered,
}

impl View for Handled {
    type V = HandledView;

    open spec fn view(&self) -> HandledView {
        match *self {
            Handled::Disconnected => HandledView::Disconnected,
            Handled::Reply(bytes) => HandledView::Reply(bytes@),
            Handled::Undecodable => HandledView::Undecodable,
            Handled::Unanswered => HandledView::Unanswered,
        }
    }
}

/// What the bytes of one read call for on an open connection.
pub open spec fn outcome_of(received: Seq<u8>) -> HandledView {
    if received.len() == 0 {
        HandledView::Disconnected
    } else {
        match parse_client_message(received) {
            None => HandledView::Undecodable,
            Some(message) => match reply_to(message) {
                Some(response) => HandledView::Reply(server_message_bytes(Some(response))),
                None => HandledView::Unanswered,
            },
        }
    }
}

/// One step of a connection: whether it is open afterwards, and what handling
/// the read came to. A closed connection stays closed whatever arrives.
pub open spec fn step(open: bool, received: Seq<u8>) -> (bool, HandledView) {
    if open {
        (received.len() > 0, outcome_of(received))
    } else {
        (false, HandledView::Disconnected)
    }
}

/// What a connection answers to a run of reads, one after the other, starting
/// open or closed as `open` says.
pub open spec fn session(open: bool, reads: Seq<Seq<u8>>) -> Seq<HandledView>
    decreases reads.len(),
{
    if reads.len() == 0 {
        Seq::empty()
    } else {
        seq![step(open, reads[0]).1] + session(step(open, reads[0]).0, reads.skip(1))
    }
}

/// One read arriving at a server with several connections: the number of the
/// connection it arrived on, and its bytes.
pub type Arrival = (nat, Seq<u8>);

/// The reads that arrive on connection `who`, picked from all arrivals in
/// their order.
pub open spec fn reads_of(who: nat, arrivals: Seq<Arrival>) -> Seq<Seq<u8>>
    decreases arrivals.len(),
{
    if arrivals.len() == 0 {
        Seq::empty()
    } else if arrivals[0].0 == who {
        seq![arrivals[0].1] + reads_of(who, arrivals.skip(1))
    } else {
        reads_of(who, arrivals.skip(1))
    }
}

/// What connection `who` is answered when the arrivals on all connections are
/// handled in the order given, each by the connection it arrived on. `open`
/// says which connections are open at the start.
pub open spec fn answers_to(who: nat, open: Map<nat, bool>, arrivals: Seq<Arrival>) -> Seq<
    HandledView,
>
    decreases arrivals.len(),
{
    if arrivals.len() == 0 {
        Seq::empty()
    } else {
        let target = arrivals[0].0;
        let (still_open, handled) = step(open[target], arrivals[0].1);
        let later = answers_to(who, open.insert(target, still_open), arrivals.skip(1));
        if target == who {
            seq![handled] + later
        } else {
            later
        }
    }
}

/// The state of one accepted connection.
#[derive(Debug)]
pub struct Client {
    open: bool,
}

impl Client {
    /// Whether the connection is still to be read from.
    pub closed spec fn open(&self) -> bool {
        self.open
    }

    /// The state of a connection that has just been accepted.
    pub fn new() -> (client: Client)
        ensures
            client.open(),
    {
        Client { open: true }
    }

    /// Whether the connection is still to be read from.
    pub fn is_open(&self) -> (open: bool)
        ensures
            open == self.open(),
    {
        self.open
    }

    /// Handles the bytes of one read.
    ///
    /// No bytes mean that the peer is gone: the connection is closed. Bytes
    /// that decode to a request are answered with the encoded reply. Bytes
    /// that do not decode, or that decode to a message without a request, are
    /// passed over and the connection stays open. On a connection that is
    /// already closed nothing is looked at.
    pub fn handle(&mut self, received: &[u8]) -> (handled: Handled)
        ensures
            (final(self).open(), handled@) == step(old(self).open(), received@),
    {
        if !self.open {
            return Handled::Disconnected;
        }
        if received.len() == 0 {
            self.open = false;
            return Handled::Disconnected;
        }
        match decode_client_message(received) {
            None => Handled::Undecodable,
            Some(message) => match dispatch(message) {
                Some(reply) => Handled::Reply(encode_server_message(&reply)),
                None => Handled::Unanswered,
            },
        }
    }

    /// Records that reading from or writing to the connection failed: the
    /// connection is closed.
    pub fn fail(&mut self)
        ensures
            !final(self).open(),
    {
        self.open = false;
    }

    /// Whether the servicing loop goes round once more: only while the server
    /// is running and the connection is open.
    pub fn keep_serving(&self, server_running: bool) -> (go_on: bool)
        ensures
            go_on == (server_running && self.open()),
    {
        server_running && self.open
    }
}

/// The bytes of an echo request with the given text.
pub open spec fn echo_request_bytes(text: Seq<char>) -> Seq<u8> {
    client_message_bytes(Some(RequestView::Echo(text)))
}

/// The bytes of an add request with the given operands.
pub open spec fn add_request_message_bytes(a: i32, b: i32) -> Seq<u8> {
    client_message_bytes(Some(RequestView::Add(a, b)))
}

/// A request that was written is answered with the written form of its
/// answer, and the connection stays open.
pub proof fn lemma_request_is_answered(request: RequestView)
    requires
        request_fits(Some(request)),
    ensures
        step(true, client_message_bytes(Some(request))) == (
            true,
            HandledView::Reply(server_message_bytes(Some(answer(request)))),
        ),
{
    lemma_client_message_round_trip(Some(request));
    lemma_message_bytes_not_empty(request);
}

/// Every echo request is answered by an echo reply that carries the same text:
/// the reply bytes are those of an echo response with that text, and reading
/// them gives that text back.
pub proof fn lemma_echo_round_trip_identity(text: Seq<char>)
    requires
        text_fits(text),
    ensures
        outcome_of(echo_request_bytes(text)) == HandledView::Reply(
            server_message_bytes(Some(ResponseView::Echo(text))),
        ),
        parse_server_message(server_message_bytes(Some(ResponseView::Echo(text)))) == Some(
            Some(ResponseView::Echo(text)),
        ),
{
    lemma_request_is_answered(RequestView::Echo(text));
    lemma_server_message_round_trip(Some(ResponseView::Echo(text)));
}

/// Every add request whose sum fits in 32 bits is answered by an add response
/// that carries exactly that sum; any other is answered by the wrapped sum.
pub proof fn lemma_add_reply_is_the_sum(a: i32, b: i32)
    ensures
        outcome_of(add_request_message_bytes(a, b)) == HandledView::Reply(
            server_message_bytes(Some(ResponseView::Add(wrapped_sum(a, b)))),
        ),
        parse_server_message(
            server_message_bytes(Some(ResponseView::Add(wrapped_sum(a, b)))),
        ) == Some(Some(ResponseView::Add(wrapped_sum(a, b)))),
        i32::MIN <= a + b <= i32::MAX ==> wrapped_sum(a, b) == a + b,
{
    lemma_request_is_answered(RequestView::Add(a, b));
    lemma_server_message_round_trip(Some(ResponseView::Add(wrapped_sum(a, b))));
}

/// The written form of each request in a run.
pub open spec fn written_requests(requests: Seq<RequestView>) -> Seq<Seq<u8>> {
    Seq::new(requests.len(), |i: int| client_message_bytes(Some(requests[i])))
}

/// Requests sent one after the other on one connection get one reply each, in
/// the order sent, and the reply in place `i` answers the request in place
/// `i` and no other.
pub proof fn lemma_replies_follow_requests(requests: Seq<RequestView>)
    requires
        forall|i: int| 0 <= i < requests.len() ==> request_fits(Some(#[trigger] requests[i])),
    ensures
        session(true, written_requests(requests)).len() == requests.len(),
        forall|i: int|
            0 <= i < requests.len() ==> #[trigger] session(true, written_requests(requests))[i]
                == HandledView::Reply(server_message_bytes(Some(answer(requests[i])))),
    decreases requests.len(),
{
    let reads = written_requests(requests);
    if requests.len() > 0 {
        lemma_request_is_answered(requests[0]);
        assert(reads[0] == client_message_bytes(Some(requests[0])));
        let later = requests.skip(1);
        assert(reads.skip(1) =~= written_requests(later));
        assert forall|i: int| 0 <= i < later.len() implies request_fits(
            Some(#[trigger] later[i]),
        ) by {
            assert(later[i] == requests[i + 1]);
        }
        lemma_replies_follow_requests(later);
        assert forall|i: int| 0 <= i < requests.len() implies #[trigger] session(true, reads)[i]
            == HandledView::Reply(server_message_bytes(Some(answer(requests[i])))) by {
            if i > 0 {
                assert(session(true, reads)[i] == session(true, written_requests(later))[i - 1]);
                assert(later[i - 1] == requests[i]);
            }
        }
    }
}

/// Connections do not touch each other: however the reads on several
/// connections are interleaved, each connection is answered exactly as if it
/// had been the only one.
pub proof fn lemma_connections_are_independent(
    who: nat,
    open: Map<nat, bool>,
    arrivals: Seq<Arrival>,
)
    ensures
        answers_to(who, open, arrivals) == session(open[who], reads_of(who, arrivals)),
    decreases arrivals.len(),
{
    if arrivals.len() > 0 {
        let target = arrivals[0].0;
        let still_open = step(open[target], arrivals[0].1).0;
        lemma_connections_are_independent(who, open.insert(target, still_open), arrivals.skip(1));
        if target == who {
            let reads = reads_of(who, arrivals);
            assert(reads.skip(1) =~= reads_of(who, arrivals.skip(1)));
        }
    }
}

} // verus!
