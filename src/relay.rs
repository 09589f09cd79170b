//! The decisions of one client connection's relay. The caller performs each
//! action (read, connect, send, close) and reports how it went as the next
//! event; the relay frames messages, forwards them in order, answers protocol
//! violations and backend failures with synthesized responses, and decides
//! whether the connection persists.
use vstd::prelude::*;
use crate::wire::text;
use crate::http::{
    HttpRequest, HttpResponse, ParseError, RequestView, ResponseView, keeps_alive,
    request_outcome, response_outcome,
};

verus! {

/// Where the relay stands in the current exchange.
#[derive(Debug, Clone, Copy, PartialEq, Eq, Structural)]
pub enum Phase {
    /// Reading a request from the client.
    AwaitRequest,
    /// A framed request waits for the backend connection.
    Connecting,
    /// The request went to the backend; reading its response.
    AwaitResponse,
    /// Both sockets are to be shut.
    Closed,
}

/// What came of the last action.
#[derive(Debug)]
pub enum RelayEvent {
    /// Bytes read from the client.
    ClientData(Vec<u8>),
    /// The client closed its side.
    ClientClosed,
    BackendConnected,
    BackendUnavailable,
    /// Bytes read from the backend.
    BackendData(Vec<u8>),
    /// The backend closed its side.
    BackendClosed,
    /// The last send was written out.
    Sent,
    /// A read or write failed mid-stream.
    Fault,
}

/// What the caller does next.
#[derive(Debug)]
pub enum RelayAction {
    ReadClient,
    ConnectBackend,
    /// Write these bytes to the backend, then report `Sent`.
    SendToBackend(Vec<u8>),
    ReadBackend,
    /// Write these bytes to the client, then report `Sent`.
    SendToClient(Vec<u8>),
    /// Write these bytes to the client, then shut both sockets.
    SendAndClose(Vec<u8>),
    /// Shut both sockets.
    Close,
}

pub enum ActionView {
    ReadClient,
    ConnectBackend,
    SendToBackend(Seq<u8>),
    ReadBackend,
    SendToClient(Seq<u8>),
    SendAndClose(Seq<u8>),
    Close,
}

impl View for RelayAction {
    type V = ActionView;

    open spec fn view(&self) -> ActionView {
        match self {
            RelayAction::ReadClient => ActionView::ReadClient,
            RelayAction::ConnectBackend => ActionView::ConnectBackend,
            RelayAction::SendToBackend(b) => ActionView::SendToBackend(b@),
            RelayAction::ReadBackend => ActionView::ReadBackend,
            RelayAction::SendToClient(b) => ActionView::SendToClient(b@),
            RelayAction::SendAndClose(b) => ActionView::SendAndClose(b@),
            RelayAction::Close => ActionView::Close,
        }
    }
}

/// One client connection's relay state: the bytes read and not yet framed on
/// each side, the request waiting for a backend connection, whether that
/// connection is open, and whether the current request asked to persist.
pub struct Relay {
    pub phase: Phase,
    pub client_buf: Vec<u8>,
    pub backend_buf: Vec<u8>,
    pub pending: Vec<u8>,
    pub backend_open: bool,
    pub request_keeps_alive: bool,
}

pub struct RelayView {
    pub phase: Phase,
    pub client_buf: Seq<u8>,
    pub backend_buf: Seq<u8>,
    pub pending: Seq<u8>,
    pub backend_open: bool,
    pub request_keeps_alive: bool,
}

impl View for Relay {
    type V = RelayView;

    open spec fn view(&self) -> RelayView {
        RelayView {
            phase: self.phase,
            client_buf: self.client_buf@,
            backend_buf: self.backend_buf@,
            pending: self.pending@,
            backend_open: self.backend_open,
            request_keeps_alive: self.request_keeps_alive,
        }
    }
}

impl RelayView {
    pub open spec fn closed(self) -> RelayView {
        RelayView { phase: Phase::Closed, ..self }
    }
}

/// `400 Bad Request`, empty, closing the connection.
pub open spec fn bad_request_view() -> ResponseView {
    ResponseView {
        version: 1,
        code: 400,
        reason: "Bad Request"@,
        headers: seq![("Connection"@, "close"@), ("Content-Length"@, "0"@)],
        body: seq![],
    }
}

/// `502 Bad Gateway` with a short plain-text body, closing the connection.
pub open spec fn bad_gateway_view() -> ResponseView {
    ResponseView {
        version: 1,
        code: 502,
        reason: "Bad Gateway"@,
        headers: seq![
            ("Content-Type"@, "text/plain"@),
            ("Content-Length"@, "19"@),
            ("Connection"@, "close"@),
        ],
        body: text("Backend unavailable"@),
    }
}

/// The response sent to a client whose request cannot be framed.
pub fn bad_request() -> (r: HttpResponse)
    ensures
        r@ == bad_request_view(),
{
    let mut headers: Vec<(String, String)> = Vec::new();
    headers.push(("Connection".to_owned(), "close".to_owned()));
    headers.push(("Content-Length".to_owned(), "0".to_owned()));
    let r = HttpResponse {
        version: 1,
        code: 400,
        reason: "Bad Request".to_owned(),
        headers,
        body: Vec::new(),
    };
    assert(r@.headers =~= bad_request_view().headers);
    assert(r@.body =~= bad_request_view().body);
    r
}

/// The response sent to a client when the backend cannot be reached or
/// answers with something that cannot be framed.
pub fn bad_gateway() -> (r: HttpResponse)
    ensures
        r@ == bad_gateway_view(),
{
    let mut headers: Vec<(String, String)> = Vec::new();
    headers.push(("Content-Type".to_owned(), "text/plain".to_owned()));
    headers.push(("Content-Length".to_owned(), "19".to_owned()));
    headers.push(("Connection".to_owned(), "close".to_owned()));
    let r = HttpResponse {
        version: 1,
        code: 502,
        reason: "Bad Gateway".to_owned(),
        headers,
        body: vstd::slice::slice_to_vec("Backend unavailable".as_bytes()),
    };
    assert(r@.headers =~= bad_gateway_view().headers);
    r
}

/// What framing the client's buffer leads to, given what the codec made of it.
pub open spec fn request_transition(
    s: RelayView,
    o: Result<(RequestView, nat), ParseError>,
    t: RelayView,
    a: ActionView,
) -> bool {
    match o {
        Err(ParseError::Incomplete) => t == s && a == ActionView::ReadClient,
        Err(_) => t == s.closed() && a == ActionView::SendAndClose(bad_request_view().wire_bytes()),
        Ok((req, n)) => {
            let rest = s.client_buf.subrange(n as int, s.client_buf.len() as int);
            let keep = keeps_alive(req.version, req.headers);
            if s.backend_open {
                t == (RelayView {
                    phase: Phase::AwaitResponse,
                    client_buf: rest,
                    request_keeps_alive: keep,
                    ..s
                }) && a == ActionView::SendToBackend(req.wire_bytes())
            } else {
                t == (RelayView {
                    phase: Phase::Connecting,
                    client_buf: rest,
                    pending: req.wire_bytes(),
                    request_keeps_alive: keep,
                    ..s
                }) && a == ActionView::ConnectBackend
            }
        },
    }
}

/// What framing the backend's buffer leads to, given what the codec made of
/// it. The connection persists only if the request and the response both ask
/// for it.
pub open spec fn response_transition(
    s: RelayView,
    o: Result<(ResponseView, nat), ParseError>,
    t: RelayView,
    a: ActionView,
) -> bool {
    match o {
        Err(ParseError::Incomplete) => t == s && a == ActionView::ReadBackend,
        Err(_) => t == s.closed() && a == ActionView::SendAndClose(bad_gateway_view().wire_bytes()),
        Ok((resp, n)) => {
            let rest = s.backend_buf.subrange(n as int, s.backend_buf.len() as int);
            if s.request_keeps_alive && keeps_alive(resp.version, resp.headers) {
                t == (RelayView { phase: Phase::AwaitRequest, backend_buf: rest, ..s })
                    && a == ActionView::SendToClient(resp.wire_bytes())
            } else {
                t == (RelayView { phase: Phase::Closed, backend_buf: rest, ..s })
                    && a == ActionView::SendAndClose(resp.wire_bytes())
            }
        },
    }
}

/// Framing the client's buffer: some outcome of the codec decides, and a
/// buffer that opens with a valid request, or is a strict prefix of one,
/// decides as that request does.
pub open spec fn frames_request(s: RelayView, t: RelayView, a: ActionView) -> bool {
    &&& exists|o: Result<(RequestView, nat), ParseError>| #[trigger] request_transition(s, o, t, a)
    &&& forall|v: RequestView, rest: Seq<u8>|
        v.valid() && s.client_buf == #[trigger] (v.wire_bytes() + rest) ==> request_transition(
            s,
            Ok((v, v.wire_bytes().len())),
            t,
            a,
        )
    &&& forall|v: RequestView, k: int|
        v.valid() && 0 <= k < v.wire_bytes().len() && s.client_buf == #[trigger] v.wire_bytes().take(k)
            ==> t == s && a == ActionView::ReadClient
}

/// Framing the backend's buffer, likewise.
pub open spec fn frames_response(s: RelayView, t: RelayView, a: ActionView) -> bool {
    &&& exists|o: Result<(ResponseView, nat), ParseError>| #[trigger] response_transition(s, o, t, a)
    &&& forall|v: ResponseView, rest: Seq<u8>|
        v.valid() && s.backend_buf == #[trigger] (v.wire_bytes() + rest) ==> response_transition(
            s,
            Ok((v, v.wire_bytes().len())),
            t,
            a,
        )
    &&& forall|v: ResponseView, k: int|
        v.valid() && 0 <= k < v.wire_bytes().len() && s.backend_buf == #[trigger] v.wire_bytes().take(k)
            ==> t == s && a == ActionView::ReadBackend
}


pub enum EventView {
    ClientData(Seq<u8>),
    ClientClosed,
    BackendConnected,
    BackendUnavailable,
    BackendData(Seq<u8>),
    BackendClosed,
    Sent,
    Fault,
}

impl View for RelayEvent {
    type V = EventView;

    open spec fn view(&self) -> EventView {
        match self {
            RelayEvent::ClientData(b) => EventView::ClientData(b@),
            RelayEvent::ClientClosed => EventView::ClientClosed,
            RelayEvent::BackendConnected => EventView::BackendConnected,
            RelayEvent::BackendUnavailable => EventView::BackendUnavailable,
            RelayEvent::BackendData(b) => EventView::BackendData(b@),
            RelayEvent::BackendClosed => EventView::BackendClosed,
            RelayEvent::Sent => EventView::Sent,
            RelayEvent::Fault => EventView::Fault,
        }
    }
}

/// One move of the relay. Bytes from either side are added to that side's
/// buffer and framed; a sent request is followed by reading the backend, a
/// sent response by framing the client's buffer again (a pipelined request may
/// already be there); a backend that cannot be reached, or that closes before
/// its response is whole, gets the client a `502`. A closed client, a fault,
/// or an event that the phase does not expect closes the relay, and a closed
/// relay stays closed.
pub open spec fn relay_step(s: RelayView, e: EventView, t: RelayView, a: ActionView) -> bool {
    if s.phase == Phase::Closed {
        t == s && a == ActionView::Close
    } else {
        match (s.phase, e) {
            (Phase::AwaitRequest, EventView::ClientData(b)) => frames_request(
                RelayView { client_buf: s.client_buf + b, ..s },
                t,
                a,
            ),
            (Phase::AwaitRequest, EventView::Sent) => frames_request(s, t, a),
            (Phase::Connecting, EventView::BackendConnected) => t == (RelayView {
                phase: Phase::AwaitResponse,
                pending: seq![],
                backend_open: true,
                ..s
            }) && a == ActionView::SendToBackend(s.pending),
            (Phase::Connecting, EventView::BackendUnavailable) => t == s.closed() && a
                == ActionView::SendAndClose(bad_gateway_view().wire_bytes()),
            (Phase::AwaitResponse, EventView::Sent) => t == s && a == ActionView::ReadBackend,
            (Phase::AwaitResponse, EventView::BackendData(b)) => frames_response(
                RelayView { backend_buf: s.backend_buf + b, ..s },
                t,
                a,
            ),
            (Phase::AwaitResponse, EventView::BackendClosed) => t == s.closed() && a
                == ActionView::SendAndClose(bad_gateway_view().wire_bytes()),
            _ => t == s.closed() && a == ActionView::Close,
        }
    }
}

fn rest_of(buf: &Vec<u8>, n: usize) -> (r: Vec<u8>)
    requires
        n <= buf@.len(),
    ensures
        r@ == buf@.subrange(n as int, buf@.len() as int),
{
    vstd::slice::slice_to_vec(vstd::slice::slice_subrange(buf.as_slice(), n, buf.len()))
}

fn append(buf: &mut Vec<u8>, more: Vec<u8>)
    ensures
        final(buf)@ == old(buf)@ + more@,
{
    let mut more = more;
    buf.append(&mut more);
}

impl Relay {
    /// A relay for a freshly accepted client, with no backend connection yet.
    pub fn new() -> (r: Relay)
        ensures
            r@ == (RelayView {
                phase: Phase::AwaitRequest,
                client_buf: seq![],
                backend_buf: seq![],
                pending: seq![],
                backend_open: false,
                request_keeps_alive: false,
            }),
    {
        Relay {
            phase: Phase::AwaitRequest,
            client_buf: Vec::new(),
            backend_buf: Vec::new(),
            pending: Vec::new(),
            backend_open: false,
            request_keeps_alive: false,
        }
    }

    /// Acts on what the codec made of the client's buffer.
    pub fn on_request(&mut self, r: Result<(HttpRequest, usize), ParseError>) -> (a: RelayAction)
        requires
            r matches Ok((_, n)) ==> n <= old(self).client_buf@.len(),
        ensures
            request_transition(old(self)@, request_outcome(r), final(self)@, a@),
    {
        match r {
            Err(ParseError::Incomplete) => RelayAction::ReadClient,
            Err(_) => {
                self.phase = Phase::Closed;
                RelayAction::SendAndClose(bad_request().to_bytes())
            },
            Ok((req, n)) => {
                self.client_buf = rest_of(&self.client_buf, n);
                self.request_keeps_alive = req.should_keep_alive();
                let bytes = req.to_bytes();
                if self.backend_open {
                    self.phase = Phase::AwaitResponse;
                    RelayAction::SendToBackend(bytes)
                } else {
                    self.phase = Phase::Connecting;
                    self.pending = bytes;
                    RelayAction::ConnectBackend
                }
            },
        }
    }

    /// Acts on what the codec made of the backend's buffer.
    pub fn on_response(&mut self, r: Result<(HttpResponse, usize), ParseError>) -> (a: RelayAction)
        requires
            r matches Ok((_, n)) ==> n <= old(self).backend_buf@.len(),
        ensures
            response_transition(old(self)@, response_outcome(r), final(self)@, a@),
    {
        match r {
            Err(ParseError::Incomplete) => RelayAction::ReadBackend,
            Err(_) => {
                self.phase = Phase::Closed;
                RelayAction::SendAndClose(bad_gateway().to_bytes())
            },
            Ok((resp, n)) => {
                self.backend_buf = rest_of(&self.backend_buf, n);
                let keep = self.request_keeps_alive && resp.should_keep_alive();
                let bytes = resp.to_bytes();
                if keep {
                    self.phase = Phase::AwaitRequest;
                    RelayAction::SendToClient(bytes)
                } else {
                    self.phase = Phase::Closed;
                    RelayAction::SendAndClose(bytes)
                }
            },
        }
    }


    /// Takes what came of the last action and returns the next one.
    pub fn step(&mut self, event: RelayEvent) -> (a: RelayAction)
        ensures
            relay_step(old(self)@, event@, final(self)@, a@),
    {
        if self.phase == Phase::Closed {
            return RelayAction::Close;
        }
        match (self.phase, event) {
            (Phase::AwaitRequest, RelayEvent::ClientData(b)) => {
                append(&mut self.client_buf, b);
                self.frame_request()
            },
            (Phase::AwaitRequest, RelayEvent::Sent) => self.frame_request(),
            (Phase::Connecting, RelayEvent::BackendConnected) => {
                self.phase = Phase::AwaitResponse;
                self.backend_open = true;
                let mut bytes: Vec<u8> = Vec::new();
                bytes.append(&mut self.pending);
                RelayAction::SendToBackend(bytes)
            },
            (Phase::Connecting, RelayEvent::BackendUnavailable) => {
                self.phase = Phase::Closed;
                RelayAction::SendAndClose(bad_gateway().to_bytes())
            },
            (Phase::AwaitResponse, RelayEvent::Sent) => RelayAction::ReadBackend,
            (Phase::AwaitResponse, RelayEvent::BackendData(b)) => {
                append(&mut self.backend_buf, b);
                self.frame_response()
            },
            (Phase::AwaitResponse, RelayEvent::BackendClosed) => {
                self.phase = Phase::Closed;
                RelayAction::SendAndClose(bad_gateway().to_bytes())
            },
            _ => {
                self.phase = Phase::Closed;
                RelayAction::Close
            },
        }
    }

    /// Frames the next request out of the client's buffer.
    fn frame_request(&mut self) -> (a: RelayAction)
        ensures
            frames_request(old(self)@, final(self)@, a@),
    {
        let r = HttpRequest::parse(self.client_buf.as_slice());
        let ghost o = request_outcome(r);
        let ghost s = self@;
        let a = self.on_request(r);
        assert(request_transition(s, o, self@, a@));
        a
    }

    /// Frames the next response out of the backend's buffer.
    fn frame_response(&mut self) -> (a: RelayAction)
        ensures
            frames_response(old(self)@, final(self)@, a@),
    {
        let r = HttpResponse::parse(self.backend_buf.as_slice());
        let ghost o = response_outcome(r);
        let ghost s = self@;
        let a = self.on_response(r);
        assert(response_transition(s, o, self@, a@));
        a
    }
}

} // verus!
