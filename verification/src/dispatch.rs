//! Who gets which packet, and waiting for responses.
use vstd::prelude::*;
use vstd::string::*;

use crate::assoc::AssocMap;
use crate::direct_session::RawSession;
use crate::error::owned;
use crate::model::{RequestId, SessionHandle, SocketAddr};
use crate::session_layer::SessionLayer;
#[allow(unused_imports)]
use crate::session_layer::LayerModel;
#[allow(unused_imports)]
use crate::text::{decimal, push_decimal, push_signed, signed};

verus! {

/// A packet together with what came along with it.
pub struct Dispatched<T> {
    pub session_id: Vec<u8>,
    pub code: i32,
    pub packet: T,
}

/// Packets, as far as it matters who gets them.
#[derive(Clone, Copy, Debug, PartialEq, Eq, Structural)]
pub enum PacketKind {
    Control,
    Request,
    /// A response, which may lack its content.
    Response { content: bool },
    Forward,
    /// Anything else.
    Unsupported,
}

/// Whom a packet came from.
#[derive(Clone, Copy, Debug, PartialEq, Eq, Structural)]
pub enum Origin {
    /// An established session.
    Session(SessionHandle),
    /// A session that is being initialized.
    Temporary(RawSession),
    Unknown,
}

/// Who gets a packet.
#[derive(Clone, Copy, Debug, PartialEq, Eq, Structural)]
pub enum PacketRoute {
    OnControl,
    OnRequest,
    /// Whoever waits for a response from the origin.
    Response,
    OnForward(SessionHandle),
    Dropped,
}

impl SessionLayer {
    /// Whom a packet from an address came from: an established session where there is one, and
    /// one that is being initialized otherwise.
    pub fn origin(&self, from: SocketAddr) -> (r: Origin)
        ensures
            r == origin_of(self@, from),
    {
        match self.find_session(from) {
            Some(session) => Origin::Session(session),
            None => match &self.init_protocol {
                Some(protocol) => match protocol.get_temporary_session(&from) {
                    Some(session) => Origin::Temporary(session),
                    None => Origin::Unknown,
                },
                None => Origin::Unknown,
            },
        }
    }
}

/// Whom a packet from an address came from.
pub open spec fn origin_of(m: LayerModel, from: SocketAddr) -> Origin {
    if m.p2p_sessions.contains_key(from) {
        Origin::Session(m.p2p_sessions[from])
    } else {
        match m.protocol {
            Some(p) if p.tmp.contains_key(from) => Origin::Temporary(p.tmp[from].session),
            _ => Origin::Unknown,
        }
    }
}

/// Who gets a packet.
pub open spec fn route_of(kind: PacketKind, origin: Origin) -> PacketRoute {
    match (kind, origin) {
        (PacketKind::Control, _) => PacketRoute::OnControl,
        (PacketKind::Request, _) => PacketRoute::OnRequest,
        (PacketKind::Response { content: true }, Origin::Session(_)) => PacketRoute::Response,
        (PacketKind::Response { content: true }, Origin::Temporary(_)) => PacketRoute::Response,
        (PacketKind::Forward, Origin::Session(session)) => PacketRoute::OnForward(session),
        _ => PacketRoute::Dropped,
    }
}

/// Decides who gets a packet. Payloads are taken from established sessions only.
pub fn dispatch(kind: PacketKind, origin: Origin) -> (r: PacketRoute)
    ensures
        r == route_of(kind, origin),
{
    match (kind, origin) {
        (PacketKind::Control, _) => PacketRoute::OnControl,
        (PacketKind::Request, _) => PacketRoute::OnRequest,
        (PacketKind::Response { content }, origin) => {
            let known = match origin {
                Origin::Unknown => false,
                _ => true,
            };
            if content && known {
                PacketRoute::Response
            } else {
                PacketRoute::Dropped
            }
        },
        (PacketKind::Forward, Origin::Session(session)) => PacketRoute::OnForward(session),
        _ => PacketRoute::Dropped,
    }
}

/// What is done when a response brings an error code.
#[derive(Clone, Copy, Debug, PartialEq, Eq, Structural)]
pub struct ErrorHandler {
    /// Which of all handlers this is, by the order in which they were registered.
    pub registration: u64,
    /// Never runs twice at the same time.
    pub exclusive: bool,
    pub running: bool,
}

/// Keeps track of a session: when it was seen, and which responses are waited for.
pub struct Dispatcher {
    ok: i32,
    seen: i64,
    ping: Option<u64>,
    responses: AssocMap<RequestId, u64>,
    error_handlers: AssocMap<i32, ErrorHandler>,
    next_ticket: u64,
    next_registration: u64,
}

/// Mathematical content of a [`Dispatcher`].
#[verifier::ext_equal]
pub struct DispatcherModel {
    /// Code of a response without an error.
    pub ok: i32,
    /// When the session was last seen.
    pub seen: i64,
    /// Response time. Unset while it was never measured.
    pub ping: Option<u64>,
    /// Who waits for the response to a request.
    pub responses: Map<RequestId, u64>,
    pub error_handlers: Map<i32, ErrorHandler>,
    /// Number of the next one who waits.
    pub next_ticket: u64,
    /// Number of the next handler.
    pub next_registration: u64,
}

impl View for Dispatcher {
    type V = DispatcherModel;

    closed spec fn view(&self) -> DispatcherModel {
        DispatcherModel {
            ok: self.ok,
            seen: self.seen,
            ping: self.ping,
            responses: self.responses@,
            error_handlers: self.error_handlers@,
            next_ticket: self.next_ticket,
            next_registration: self.next_registration,
        }
    }
}

impl DispatcherModel {
    /// Numbers of those who wait, and of handlers, were given out.
    pub open spec fn wf(self) -> bool {
        &&& forall|id: RequestId|
            self.responses.contains_key(id) ==> (#[trigger] self.responses[id])
                < self.next_ticket
        &&& forall|code: i32|
            self.error_handlers.contains_key(code) ==> (
            #[trigger] self.error_handlers[code]).registration < self.next_registration
    }

    /// Something else is done about an error code from now on, and it is not running yet.
    pub open spec fn registered(self, code: i32, exclusive: bool) -> DispatcherModel {
        DispatcherModel {
            error_handlers: self.error_handlers.insert(
                code,
                ErrorHandler {
                    registration: self.next_registration,
                    exclusive,
                    running: false,
                },
            ),
            next_registration: (self.next_registration + 1) as u64,
            ..self
        }
    }

    /// Someone waits for the response to a request, in place of whoever did before.
    pub open spec fn awaiting(self, request_id: RequestId) -> DispatcherModel {
        DispatcherModel {
            responses: self.responses.insert(request_id, self.next_ticket),
            next_ticket: (self.next_ticket + 1) as u64,
            ..self
        }
    }

    /// Whether a response with a code starts what is done about it.
    pub open spec fn starts_handler(self, code: i32) -> bool {
        &&& code != self.ok
        &&& self.error_handlers.contains_key(code)
        &&& !(self.error_handlers[code].exclusive && self.error_handlers[code].running)
    }

    /// A response to a request came.
    pub open spec fn responded(self, request_id: RequestId, code: i32) -> DispatcherModel {
        DispatcherModel {
            responses: self.responses.remove(request_id),
            error_handlers: if self.starts_handler(code) {
                self.error_handlers.insert(
                    code,
                    ErrorHandler { running: true, ..self.error_handlers[code] },
                )
            } else {
                self.error_handlers
            },
            ..self
        }
    }

    /// What a handler did about an error code has ended. That of a handler that was replaced
    /// changes nothing.
    pub open spec fn handled(self, code: i32, registration: u64) -> DispatcherModel {
        if self.error_handlers.contains_key(code) && self.error_handlers[code].registration
            == registration {
            DispatcherModel {
                error_handlers: self.error_handlers.insert(
                    code,
                    ErrorHandler { running: false, ..self.error_handlers[code] },
                ),
                ..self
            }
        } else {
            self
        }
    }

    /// Someone stopped to wait for the response to a request.
    pub open spec fn given_up(self, request_id: RequestId, ticket: u64) -> DispatcherModel {
        if self.responses.contains_key(request_id) && self.responses[request_id] == ticket {
            DispatcherModel { responses: self.responses.remove(request_id), ..self }
        } else {
            self
        }
    }
}

/// What a response leads to.
#[derive(Clone, Copy, Debug, PartialEq, Eq, Structural)]
pub struct ResponseRoute {
    /// Who waits for it, if someone does.
    pub to: Option<u64>,
    /// The handler that starts, if something is done about its error code.
    pub handle_error: Option<u64>,
}

/// What someone who waits for a response gets.
pub enum Awaited<T> {
    TimedOut,
    /// Whoever was to hand the response over is gone.
    Cancelled,
    /// A response, whose content may be of another kind than expected.
    Received(Dispatched<Option<T>>),
}

impl Dispatcher {
    /// For a session that was just seen. `ok` is the code of a response without an error.
    pub fn new(ok: i32, now: i64) -> (r: Dispatcher)
        ensures
            r@ == (DispatcherModel {
                ok,
                seen: now,
                ping: None,
                responses: Map::empty(),
                error_handlers: Map::empty(),
                next_ticket: 0,
                next_registration: 0,
            }),
            r@.wf(),
    {
        Dispatcher {
            ok,
            seen: now,
            ping: None,
            responses: AssocMap::new(),
            error_handlers: AssocMap::new(),
            next_ticket: 0,
            next_registration: 0,
        }
    }

    /// The session was seen.
    pub fn update_seen(&mut self, now: i64)
        ensures
            final(self)@ == (DispatcherModel { seen: now, ..old(self)@ }),
    {
        self.seen = now;
    }

    /// The response time was measured.
    pub fn update_ping(&mut self, ping: u64)
        ensures
            final(self)@ == (DispatcherModel { ping: Some(ping), ..old(self)@ }),
    {
        self.ping = Some(ping);
    }

    /// When the session was last seen.
    pub fn last_seen(&self) -> (r: i64)
        ensures
            r == self@.seen,
    {
        self.seen
    }

    /// Response time, as large as possible while it was never measured.
    pub fn last_ping(&self) -> (r: u64)
        ensures
            r == match self@.ping {
                Some(ping) => ping,
                None => u64::MAX,
            },
    {
        match self.ping {
            Some(ping) => ping,
            None => u64::MAX,
        }
    }

    /// How many responses are waited for.
    pub fn pending(&self) -> (r: usize)
        ensures
            self@.responses.dom().finite(),
            r == self@.responses.len(),
    {
        self.responses.len()
    }

    /// Registers a handler for an error code, in place of the one there was, and gives its number.
    pub fn handle_error(&mut self, code: i32, exclusive: bool) -> (r: u64)
        requires
            old(self)@.wf(),
            old(self)@.next_registration < u64::MAX,
        ensures
            final(self)@.wf(),
            r == old(self)@.next_registration,
            final(self)@ == old(self)@.registered(code, exclusive),
    {
        let registration = self.next_registration;
        self.error_handlers.insert(
            code,
            ErrorHandler { registration, exclusive, running: false },
        );
        self.next_registration = registration + 1;
        assert forall|c: i32| self@.error_handlers.contains_key(c) implies (
        #[trigger] self@.error_handlers[c]).registration < self@.next_registration by {
            if c != code {
                assert(old(self)@.error_handlers[c].registration < old(self)@.next_registration);
            }
        }
        registration
    }

    /// What a handler did about an error code has ended.
    pub fn error_handled(&mut self, code: i32, registration: u64)
        requires
            old(self)@.wf(),
        ensures
            final(self)@.wf(),
            final(self)@ == old(self)@.handled(code, registration),
    {
        let found: Option<ErrorHandler> = match self.error_handlers.get(&code) {
            Some(h) => Some(*h),
            None => None,
        };
        match found {
            Some(h) => {
                if h.registration == registration {
                    self.error_handlers.insert(code, ErrorHandler { running: false, ..h });
                }
            },
            None => {},
        }
        assert forall|c: i32| self@.error_handlers.contains_key(c) implies (
        #[trigger] self@.error_handlers[c]).registration < self@.next_registration by {
            assert(old(self)@.error_handlers[c].registration < old(self)@.next_registration);
        }
    }

    /// Starts to wait for the response to a request. Whoever waited for it before is replaced.
    pub fn response(&mut self, request_id: RequestId) -> (r: u64)
        requires
            old(self)@.wf(),
            old(self)@.next_ticket < u64::MAX,
        ensures
            final(self)@.wf(),
            final(self)@ == old(self)@.awaiting(request_id),
            r == old(self)@.next_ticket,
    {
        let ticket = self.next_ticket;
        self.responses.insert(request_id, ticket);
        self.next_ticket = ticket + 1;
        assert forall|id: RequestId| self@.responses.contains_key(id) implies (
        #[trigger] self@.responses[id]) < self@.next_ticket by {
            if id != request_id {
                assert(old(self)@.responses[id] < old(self)@.next_ticket);
            }
        }
        ticket
    }

    /// Stops to wait for the response to a request, whether it came or not. Whoever replaced the
    /// one who stops goes on to wait.
    pub fn give_up(&mut self, request_id: RequestId, ticket: u64)
        requires
            old(self)@.wf(),
        ensures
            final(self)@.wf(),
            final(self)@ == old(self)@.given_up(request_id, ticket),
    {
        let own = match self.responses.get(&request_id) {
            Some(t) => *t == ticket,
            None => false,
        };
        if own {
            self.responses.remove(&request_id);
            assert forall|id: RequestId| self@.responses.contains_key(id) implies (
            #[trigger] self@.responses[id]) < self@.next_ticket by {
                assert(old(self)@.responses[id] < old(self)@.next_ticket);
            }
        }
    }

    /// What a response means to the one who waited for it.
    pub fn response_outcome<T>(ok: i32, timeout: u64, awaited: Awaited<T>) -> (r: Result<
        Dispatched<T>,
        String,
    >)
        ensures
            match awaited {
                Awaited::TimedOut => r matches Err(m) && m@ == "Request timed out after "@
                    + decimal(timeout as nat) + " ms"@,
                Awaited::Cancelled => r matches Err(m) && m@ == "Request cancelled"@,
                Awaited::Received(response) => if response.code != ok {
                    r matches Err(m) && m@ == "Request failed with code "@ + signed(
                        response.code as int,
                    )
                } else {
                    match response.packet {
                        Some(packet) => r == Ok::<Dispatched<T>, String>(
                            Dispatched {
                                session_id: response.session_id,
                                code: response.code,
                                packet,
                            },
                        ),
                        None => r matches Err(m) && m@ == "Unexpected response type"@,
                    }
                },
            },
    {
        match awaited {
            Awaited::TimedOut => {
                let mut m = owned("Request timed out after ");
                push_decimal(&mut m, timeout as u128);
                m.append(" ms");
                Err(m)
            },
            Awaited::Cancelled => Err(owned("Request cancelled")),
            Awaited::Received(response) => {
                if response.code != ok {
                    let mut m = owned("Request failed with code ");
                    push_signed(&mut m, response.code as i64);
                    return Err(m);
                }
                match response.packet {
                    Some(packet) => Ok(
                        Dispatched {
                            session_id: response.session_id,
                            code: response.code,
                            packet,
                        },
                    ),
                    None => Err(owned("Unexpected response type")),
                }
            },
        }
    }

    /// Takes a response: says who waits for it, and starts what is done about its error code. An
    /// exclusive handler that is running is not started again.
    pub fn dispatch_response(&mut self, request_id: RequestId, code: i32) -> (r: ResponseRoute)
        requires
            old(self)@.wf(),
        ensures
            final(self)@.wf(),
            r == (ResponseRoute {
                to: if old(self)@.responses.contains_key(request_id) {
                    Some(old(self)@.responses[request_id])
                } else {
                    None
                },
                handle_error: if old(self)@.starts_handler(code) {
                    Some(old(self)@.error_handlers[code].registration)
                } else {
                    None
                },
            }),
            final(self)@ == old(self)@.responded(request_id, code),
    {
        let to = self.responses.remove(&request_id);
        let mut handle_error: Option<u64> = None;
        if code != self.ok {
            let found: Option<ErrorHandler> = match self.error_handlers.get(&code) {
                Some(h) => Some(*h),
                None => None,
            };
            match found {
                Some(h) => {
                    if !(h.exclusive && h.running) {
                        self.error_handlers.insert(code, ErrorHandler { running: true, ..h });
                        handle_error = Some(h.registration);
                    }
                },
                None => {},
            }
        }
        assert forall|id: RequestId| self@.responses.contains_key(id) implies (
        #[trigger] self@.responses[id]) < self@.next_ticket by {
            assert(old(self)@.responses[id] < old(self)@.next_ticket);
        }
        assert forall|c: i32| self@.error_handlers.contains_key(c) implies (
        #[trigger] self@.error_handlers[c]).registration < self@.next_registration by {
            assert(old(self)@.error_handlers[c].registration < old(self)@.next_registration);
        }
        ResponseRoute { to, handle_error }
    }
}

/// Waiting for a response and giving up leaves nothing behind.
pub proof fn lemma_giving_up_leaves_nothing(m: DispatcherModel, request_id: RequestId)
    requires
        !m.responses.contains_key(request_id),
    ensures
        m.awaiting(request_id).given_up(request_id, m.next_ticket).responses == m.responses,
{
    assert(m.awaiting(request_id).given_up(request_id, m.next_ticket).responses =~= m.responses);
}

/// Whoever gives up does not take the place of the one who asked later for the same response.
pub proof fn lemma_replacement_stays(m: DispatcherModel, request_id: RequestId)
    requires
        m.next_ticket < u64::MAX - 1,
    ensures
        ({
            let first = m.next_ticket;
            let both = m.awaiting(request_id).awaiting(request_id);
            &&& both.given_up(request_id, first) == both
            &&& both.responses[request_id] != first
        }),
{
}

/// An exclusive handler does not start again before it has ended, however many responses bring its
/// code, and starts again after that.
pub proof fn lemma_exclusive_runs_once(
    m: DispatcherModel,
    code: i32,
    first: RequestId,
    second: RequestId,
)
    requires
        m.starts_handler(code),
        m.error_handlers[code].exclusive,
    ensures
        !m.responded(first, code).starts_handler(code),
        !m.responded(first, code).responded(second, code).starts_handler(code),
        m.responded(first, code).handled(
            code,
            m.error_handlers[code].registration,
        ).starts_handler(code),
{
}

/// The end of a handler says nothing of the one that replaced it. In particular an exclusive
/// handler that runs does not start again because one registered earlier for its code has ended.
pub proof fn lemma_replaced_handler_ends_quietly(
    m: DispatcherModel,
    code: i32,
    exclusive: bool,
    earlier: u64,
    request_id: RequestId,
)
    requires
        m.wf(),
        m.next_registration < u64::MAX,
        earlier < m.next_registration,
    ensures
        ({
            let replaced = m.registered(code, exclusive);
            let started = replaced.responded(request_id, code);
            &&& replaced.handled(code, earlier) == replaced
            &&& started.handled(code, earlier) == started
            &&& exclusive && code != m.ok ==> replaced.starts_handler(code)
                && !started.handled(code, earlier).starts_handler(code)
        }),
{
}

} // verus!
