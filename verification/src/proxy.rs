//! The forwarding orchestrator: a linear exchange — read the request,
//! connect upstream, forward, read the response back, relay it — with every
//! failure mapped to exactly one client-visible response: `400 Bad Request`
//! carrying the cause for request-side and response-parse failures, `502 Bad
//! Gateway` with an empty body for upstream connect and write failures.
//!
//! The machine is driven from outside: each step consumes the outcome of the
//! previous action and says what to do next.  Destination resolution happens
//! inside the request reader, so a read request arrives with its destination
//! already attached; relaying and closing collapse into the final step.

use vstd::prelude::*;
use vstd::utf8::encode_utf8;

use crate::error::HttpError;
use crate::headers::spec_has_key;
use crate::message::{
    append_byte_slice, append_str_bytes, crlf, push_crlf, serialize_msg, Http,
};
use crate::num::dec_digits;
use crate::request::{
    dest_key, spec_fold_header_lines, spec_parse_request, spec_request_line, HttpRequest,
    RequestFailure, RequestModel,
};
use crate::response::HttpResponse;
use crate::text::find_from;

verus! {

/// The header a client uses to name the forwarding destination.
pub const HEADER_PROXY_DESTINATION: &'static str = "x-proxy-destination";

/// The head of a simple response: status line, the body's exact length, and
/// the blank line.
pub open spec fn spec_response_head(status: u16, description: Seq<char>, blen: nat) -> Seq<
    u8,
> {
    encode_utf8("HTTP/1.1 "@) + encode_utf8(dec_digits(status as nat)) + encode_utf8(" "@)
        + encode_utf8(description) + crlf() + encode_utf8("Content-Length: "@) + encode_utf8(
        dec_digits(blen),
    ) + crlf() + crlf()
}

/// A simple response whose body is the given text and a line ending.
pub open spec fn spec_simple_response(
    status: u16,
    description: Seq<char>,
    content: Seq<char>,
) -> Seq<u8> {
    spec_response_head(status, description, (encode_utf8(content) + crlf()).len())
        + encode_utf8(content) + crlf()
}

/// The fixed reply for a failed upstream connect or write: `502 Bad
/// Gateway`, with an explicit length of zero and no body at all.
pub open spec fn spec_bad_gateway() -> Seq<u8> {
    encode_utf8("HTTP/1.1 502 Bad Gateway\r\nContent-Length: 0\r\n\r\n"@)
}

/// Builds a simple response: a status line, the exact content length, and
/// the given text as the body.
pub fn build_simple_response(status: u16, description: &str, content: &str) -> (r: Vec<u8>)
    ensures
        r@ == spec_simple_response(status, description@, content@),
{
    let mut body: Vec<u8> = Vec::new();
    append_str_bytes(&mut body, content);
    push_crlf(&mut body);
    let mut out: Vec<u8> = Vec::new();
    append_str_bytes(&mut out, "HTTP/1.1 ");
    append_str_bytes(&mut out, crate::num::u64_to_dec_string(status as u64).as_str());
    append_str_bytes(&mut out, " ");
    append_str_bytes(&mut out, description);
    push_crlf(&mut out);
    append_str_bytes(&mut out, "Content-Length: ");
    append_str_bytes(&mut out, crate::num::u64_to_dec_string(body.len() as u64).as_str());
    push_crlf(&mut out);
    push_crlf(&mut out);
    append_byte_slice(&mut out, body.as_slice());
    proof {
        assert(out@ =~= spec_simple_response(status, description@, content@));
    }
    out
}

/// Builds the fixed `502 Bad Gateway` reply.
pub fn bad_gateway_response() -> (r: Vec<u8>)
    ensures
        r@ == spec_bad_gateway(),
{
    let mut out: Vec<u8> = Vec::new();
    append_str_bytes(&mut out, "HTTP/1.1 502 Bad Gateway\r\nContent-Length: 0\r\n\r\n");
    proof {
        assert(out@ =~= spec_bad_gateway());
    }
    out
}

/// Where one exchange stands.
#[derive(Clone, Copy, Debug)]
pub enum ProxyState {
    Accepted,
    DestinationResolved,
    UpstreamConnected,
    RequestForwarded,
    ResponseReceived,
    Failed,
    Closed,
}

/// What the outside work reported back.
pub enum ProxyEvent {
    RequestRead(HttpRequest),
    RequestFailed(HttpError),
    Connected,
    ConnectFailed,
    Forwarded,
    ForwardFailed,
    ResponseRead(HttpResponse),
    ResponseFailed(HttpError),
    Relayed,
    RelayFailed,
}

/// What to do next.
pub enum ProxyAction {
    /// Open a TCP connection to this host and port.
    Connect(String, u16),
    /// Write these bytes whole to the upstream stream.
    SendUpstream(Vec<u8>),
    /// Read the upstream's whole response.
    ReadResponse,
    /// Write these bytes whole to the client stream.
    SendClient(Vec<u8>),
    /// Close both streams; the exchange is over.
    Close,
}

/// One exchange's state machine.
pub struct Forwarder {
    pub state: ProxyState,
    pub request: Option<HttpRequest>,
}

impl Forwarder {
    pub fn new() -> (r: Forwarder)
        ensures
            r.state is Accepted,
            r.request is None,
    {
        Forwarder { state: ProxyState::Accepted, request: None }
    }

    /// Advances the exchange by one step: consumes the outcome of the last
    /// action and yields the next one, with every failure drawing its one
    /// client-visible response on the way to `Closed`.
    pub fn step(&mut self, event: ProxyEvent) -> (r: ProxyAction)
        ensures
            old(self).state is Accepted ==> (event matches ProxyEvent::RequestRead(req) ==> (
                final(self).state is DestinationResolved && final(self).request == Some(req) && (
                r matches ProxyAction::Connect(h, p) && h@ == req.destination.hostname@ && p
                    == req.destination.port)
            )),
            old(self).state is Accepted ==> (event matches ProxyEvent::RequestFailed(err) ==> (
                final(self).state is Failed && (r matches ProxyAction::SendClient(b) && b@
                    == spec_simple_response(400, "Bad Request"@, err.spec_message()))
            )),
            old(self).state is DestinationResolved && old(self).request is Some ==> (event
                is Connected ==> (final(self).state is UpstreamConnected && final(self).request
                == old(self).request && (r matches ProxyAction::SendUpstream(b) && b@
                == serialize_msg(
                old(self).request->0.spec_first_line(),
                old(self).request->0.spec_headers(),
                old(self).request->0.spec_body(),
            )))),
            old(self).state is DestinationResolved ==> (event is ConnectFailed ==> (
            final(self).state is Failed && (r matches ProxyAction::SendClient(b) && b@
                == spec_bad_gateway()))),
            old(self).state is UpstreamConnected ==> (event is Forwarded ==> (final(self).state
                is RequestForwarded && final(self).request == old(self).request && r
                is ReadResponse)),
            old(self).state is UpstreamConnected ==> (event is ForwardFailed ==> (
            final(self).state is Failed && (r matches ProxyAction::SendClient(b) && b@
                == spec_bad_gateway()))),
            old(self).state is RequestForwarded ==> (event matches ProxyEvent::ResponseRead(
                resp,
            ) ==> (final(self).state is ResponseReceived && (r
                matches ProxyAction::SendClient(b) && b@ == serialize_msg(
                resp.spec_first_line(),
                resp.spec_headers(),
                resp.spec_body(),
            )))),
            old(self).state is RequestForwarded ==> (event matches ProxyEvent::ResponseFailed(
                err,
            ) ==> (final(self).state is Failed && (r matches ProxyAction::SendClient(b) && b@
                == spec_simple_response(400, "Bad Request"@, err.spec_message())))),
            old(self).state is ResponseReceived ==> ((event is Relayed || event is RelayFailed)
                ==> (final(self).state is Closed && r is Close)),
            old(self).state is Failed ==> (final(self).state is Closed && r is Close),
            old(self).state is Closed ==> (final(self).state is Closed && r is Close),
    {
        let state = self.state;
        match state {
            ProxyState::Accepted => match event {
                ProxyEvent::RequestRead(req) => {
                    let host = req.destination.hostname.clone();
                    let port = req.destination.port;
                    self.request = Some(req);
                    self.state = ProxyState::DestinationResolved;
                    ProxyAction::Connect(host, port)
                },
                ProxyEvent::RequestFailed(err) => {
                    self.state = ProxyState::Failed;
                    ProxyAction::SendClient(
                        build_simple_response(400, "Bad Request", err.message().as_str()),
                    )
                },
                _ => {
                    self.state = ProxyState::Closed;
                    ProxyAction::Close
                },
            },
            ProxyState::DestinationResolved => match event {
                ProxyEvent::Connected => match &self.request {
                    Some(req) => {
                        let bytes = req.to_bytes();
                        self.state = ProxyState::UpstreamConnected;
                        ProxyAction::SendUpstream(bytes)
                    },
                    None => {
                        self.state = ProxyState::Closed;
                        ProxyAction::Close
                    },
                },
                ProxyEvent::ConnectFailed => {
                    self.state = ProxyState::Failed;
                    ProxyAction::SendClient(bad_gateway_response())
                },
                _ => {
                    self.state = ProxyState::Closed;
                    ProxyAction::Close
                },
            },
            ProxyState::UpstreamConnected => match event {
                ProxyEvent::Forwarded => {
                    self.state = ProxyState::RequestForwarded;
                    ProxyAction::ReadResponse
                },
                ProxyEvent::ForwardFailed => {
                    self.state = ProxyState::Failed;
                    ProxyAction::SendClient(bad_gateway_response())
                },
                _ => {
                    self.state = ProxyState::Closed;
                    ProxyAction::Close
                },
            },
            ProxyState::RequestForwarded => match event {
                ProxyEvent::ResponseRead(resp) => {
                    let bytes = resp.to_bytes();
                    self.state = ProxyState::ResponseReceived;
                    ProxyAction::SendClient(bytes)
                },
                ProxyEvent::ResponseFailed(err) => {
                    self.state = ProxyState::Failed;
                    ProxyAction::SendClient(
                        build_simple_response(400, "Bad Request", err.message().as_str()),
                    )
                },
                _ => {
                    self.state = ProxyState::Closed;
                    ProxyAction::Close
                },
            },
            ProxyState::ResponseReceived => {
                self.state = ProxyState::Closed;
                ProxyAction::Close
            },
            ProxyState::Failed => {
                self.state = ProxyState::Closed;
                ProxyAction::Close
            },
            ProxyState::Closed => {
                self.state = ProxyState::Closed;
                ProxyAction::Close
            },
        }
    }
}

/// A request head that parses but names no destination, with no default
/// configured, fails with the missing-destination error; the one response
/// the orchestrator then sends is `400 Bad Request` whose body is exactly
/// the destination message and a line ending.
pub proof fn lemma_no_destination_yields_bad_request(head: Seq<char>)
    requires
        spec_request_line(head.subrange(0, find_from(head, 0, '\n'))) is Some,
        !spec_has_key(
            spec_fold_header_lines(head, find_from(head, 0, '\n') + 1, Seq::empty()),
            dest_key(),
        ),
    ensures
        spec_parse_request(head, None) == Err::<RequestModel, RequestFailure>(
            RequestFailure::MissingDestination,
        ),
        spec_simple_response(400, "Bad Request"@, "No destination found"@)
            == spec_response_head(
            400,
            "Bad Request"@,
            (encode_utf8("No destination found"@) + crlf()).len(),
        ) + encode_utf8("No destination found"@) + crlf(),
{
}

} // verus!
