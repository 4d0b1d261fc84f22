//! The MITM tunnel state machine.
//!
//! The tunnel advances through the phases of one intercepted session:
//! acknowledge the `CONNECT`, terminate the client's TLS with the minted
//! leaf, dial and handshake the origin, then pump request/response pairs
//! through inspection until either side closes. The machine decides; the
//! shell around the library performs the I/O each state asks for and
//! reports what happened as the next event.

use vstd::prelude::*;

use crate::http::{wf_response, Body, Header, Response, Version};

verus! {

/// Where the pump loop stands inside one request/response exchange.
#[derive(Clone, Copy, PartialEq, Eq, Structural)]
pub enum PumpPhase {
    /// Reading one full request from the client TLS stream.
    ReadingRequest,
    /// The request is with the inspection handler.
    InspectingRequest,
    /// Forwarding the request upstream and reading the full response.
    ForwardingRequest,
    /// The response is with the inspection handler.
    InspectingResponse,
    /// Writing the inspected response to the client.
    WritingResponse,
    /// Writing the handler's short-circuit response to the client; the
    /// origin is not contacted for this exchange.
    WritingShortCircuit,
}

/// The states of one MITM tunnel.
pub enum TunnelState {
    /// No `CONNECT` has been accepted yet.
    AwaitingConnect,
    /// Send `200 Connection Established` on the plain client socket.
    SendingOk { host: Vec<u8>, port: u16 },
    /// Pull the leaf for the host and complete the client TLS handshake.
    ClientTlsHandshake { host: Vec<u8>, port: u16 },
    /// Resolve and dial the origin.
    UpstreamDial { host: Vec<u8>, port: u16 },
    /// Complete the TLS handshake with the origin, SNI set to the host.
    UpstreamTlsHandshake { host: Vec<u8>, port: u16 },
    /// Shuttle messages; the phase says what the shell does next.
    Pumping { phase: PumpPhase },
    /// Write a synthesised `502 Bad Gateway` inside the client TLS session.
    SendingBadGateway,
    /// Write a `400 Bad Request` for a client message the codec refused.
    SendingBadRequest,
    /// Write a `500 Internal Server Error` for a handler that panicked.
    SendingHandlerError,
    /// Both sides are closed.
    Closed,
}

/// Spec-level tunnel state.
pub enum TunnelStateModel {
    AwaitingConnect,
    SendingOk { host: Seq<u8>, port: u16 },
    ClientTlsHandshake { host: Seq<u8>, port: u16 },
    UpstreamDial { host: Seq<u8>, port: u16 },
    UpstreamTlsHandshake { host: Seq<u8>, port: u16 },
    Pumping { phase: PumpPhase },
    SendingBadGateway,
    SendingBadRequest,
    SendingHandlerError,
    Closed,
}

impl View for TunnelState {
    type V = TunnelStateModel;

    open spec fn view(&self) -> TunnelStateModel {
        match self {
            TunnelState::AwaitingConnect => TunnelStateModel::AwaitingConnect,
            TunnelState::SendingOk { host, port } => (TunnelStateModel::SendingOk {
                host: host@,
                port: *port,
            }),
            TunnelState::ClientTlsHandshake { host, port } => (
            TunnelStateModel::ClientTlsHandshake { host: host@, port: *port }),
            TunnelState::UpstreamDial { host, port } => (TunnelStateModel::UpstreamDial {
                host: host@,
                port: *port,
            }),
            TunnelState::UpstreamTlsHandshake { host, port } => (
            TunnelStateModel::UpstreamTlsHandshake { host: host@, port: *port }),
            TunnelState::Pumping { phase } => (TunnelStateModel::Pumping { phase: *phase }),
            TunnelState::SendingBadGateway => TunnelStateModel::SendingBadGateway,
            TunnelState::SendingBadRequest => TunnelStateModel::SendingBadRequest,
            TunnelState::SendingHandlerError => TunnelStateModel::SendingHandlerError,
            TunnelState::Closed => TunnelStateModel::Closed,
        }
    }
}

/// What the shell reports back to the machine.
pub enum TunnelEvent {
    /// The dispatcher accepted `CONNECT host:port`.
    ConnectAccepted { host: Vec<u8>, port: u16 },
    /// The client vanished or an unrecoverable socket error occurred.
    ClientGone,
    /// The `200 Connection Established` line was written.
    OkSent,
    /// The client TLS handshake completed over the minted leaf.
    ClientTlsDone,
    /// The client refused the handshake (for instance, untrusted CA).
    ClientTlsFailed,
    /// The leaf could not be minted.
    LeafFailed,
    /// The origin TCP connection is open.
    DialDone,
    /// The origin could not be resolved or connected.
    DialFailed,
    /// The origin TLS handshake completed and validated.
    UpstreamTlsDone,
    /// The origin certificate failed validation, or the handshake failed.
    UpstreamTlsFailed,
    /// One full request was parsed from the client.
    RequestParsed,
    /// The client's bytes were not a well-formed request.
    RequestBad,
    /// The inspection handler forwarded the (possibly mutated) request.
    HandlerForwarded,
    /// The inspection handler supplied a canned response instead.
    HandlerShortCircuit,
    /// The inspection handler panicked.
    HandlerPanicked,
    /// One full response was parsed from the origin.
    ResponseParsed,
    /// The origin connection failed before a full response was read.
    ResponseFailed,
    /// The inspection handler returned the (possibly mutated) response.
    ResponseInspected,
    /// The response bytes were written; `keep_alive` says whether both
    /// sides allow another exchange.
    WriteDone { keep_alive: bool },
}

/// Spec-level tunnel event.
pub enum TunnelEventModel {
    ConnectAccepted { host: Seq<u8>, port: u16 },
    ClientGone,
    OkSent,
    ClientTlsDone,
    ClientTlsFailed,
    LeafFailed,
    DialDone,
    DialFailed,
    UpstreamTlsDone,
    UpstreamTlsFailed,
    RequestParsed,
    RequestBad,
    HandlerForwarded,
    HandlerShortCircuit,
    HandlerPanicked,
    ResponseParsed,
    ResponseFailed,
    ResponseInspected,
    WriteDone { keep_alive: bool },
}

impl View for TunnelEvent {
    type V = TunnelEventModel;

    open spec fn view(&self) -> TunnelEventModel {
        match self {
            TunnelEvent::ConnectAccepted { host, port } => (TunnelEventModel::ConnectAccepted {
                host: host@,
                port: *port,
            }),
            TunnelEvent::ClientGone => TunnelEventModel::ClientGone,
            TunnelEvent::OkSent => TunnelEventModel::OkSent,
            TunnelEvent::ClientTlsDone => TunnelEventModel::ClientTlsDone,
            TunnelEvent::ClientTlsFailed => TunnelEventModel::ClientTlsFailed,
            TunnelEvent::LeafFailed => TunnelEventModel::LeafFailed,
            TunnelEvent::DialDone => TunnelEventModel::DialDone,
            TunnelEvent::DialFailed => TunnelEventModel::DialFailed,
            TunnelEvent::UpstreamTlsDone => TunnelEventModel::UpstreamTlsDone,
            TunnelEvent::UpstreamTlsFailed => TunnelEventModel::UpstreamTlsFailed,
            TunnelEvent::RequestParsed => TunnelEventModel::RequestParsed,
            TunnelEvent::RequestBad => TunnelEventModel::RequestBad,
            TunnelEvent::HandlerForwarded => TunnelEventModel::HandlerForwarded,
            TunnelEvent::HandlerShortCircuit => TunnelEventModel::HandlerShortCircuit,
            TunnelEvent::HandlerPanicked => TunnelEventModel::HandlerPanicked,
            TunnelEvent::ResponseParsed => TunnelEventModel::ResponseParsed,
            TunnelEvent::ResponseFailed => TunnelEventModel::ResponseFailed,
            TunnelEvent::ResponseInspected => TunnelEventModel::ResponseInspected,
            TunnelEvent::WriteDone { keep_alive } => (TunnelEventModel::WriteDone {
                keep_alive: *keep_alive,
            }),
        }
    }
}

/// The transition table. Any pairing not drawn in the session diagram
/// closes the tunnel; `ClientGone` closes it from every state.
pub open spec fn tunnel_step_spec(s: TunnelStateModel, e: TunnelEventModel) -> TunnelStateModel {
    match (s, e) {
        (_, TunnelEventModel::ClientGone) => TunnelStateModel::Closed,
        (
            TunnelStateModel::AwaitingConnect,
            TunnelEventModel::ConnectAccepted { host, port },
        ) => (TunnelStateModel::SendingOk { host, port }),
        (TunnelStateModel::SendingOk { host, port }, TunnelEventModel::OkSent) => (
        TunnelStateModel::ClientTlsHandshake { host, port }),
        (
            TunnelStateModel::ClientTlsHandshake { host, port },
            TunnelEventModel::ClientTlsDone,
        ) => (TunnelStateModel::UpstreamDial { host, port }),
        (TunnelStateModel::ClientTlsHandshake { .. }, TunnelEventModel::ClientTlsFailed) =>
            TunnelStateModel::Closed,
        (TunnelStateModel::ClientTlsHandshake { .. }, TunnelEventModel::LeafFailed) =>
            TunnelStateModel::Closed,
        (TunnelStateModel::UpstreamDial { host, port }, TunnelEventModel::DialDone) => (
        TunnelStateModel::UpstreamTlsHandshake { host, port }),
        (TunnelStateModel::UpstreamDial { .. }, TunnelEventModel::DialFailed) =>
            TunnelStateModel::SendingBadGateway,
        (TunnelStateModel::UpstreamTlsHandshake { .. }, TunnelEventModel::UpstreamTlsDone) => (
        TunnelStateModel::Pumping { phase: PumpPhase::ReadingRequest }),
        (TunnelStateModel::UpstreamTlsHandshake { .. }, TunnelEventModel::UpstreamTlsFailed) =>
            TunnelStateModel::SendingBadGateway,
        (
            TunnelStateModel::Pumping { phase: PumpPhase::ReadingRequest },
            TunnelEventModel::RequestParsed,
        ) => (TunnelStateModel::Pumping { phase: PumpPhase::InspectingRequest }),
        (
            TunnelStateModel::Pumping { phase: PumpPhase::ReadingRequest },
            TunnelEventModel::RequestBad,
        ) => TunnelStateModel::SendingBadRequest,
        (
            TunnelStateModel::Pumping { phase: PumpPhase::InspectingRequest },
            TunnelEventModel::HandlerForwarded,
        ) => (TunnelStateModel::Pumping { phase: PumpPhase::ForwardingRequest }),
        (
            TunnelStateModel::Pumping { phase: PumpPhase::InspectingRequest },
            TunnelEventModel::HandlerShortCircuit,
        ) => (TunnelStateModel::Pumping { phase: PumpPhase::WritingShortCircuit }),
        (
            TunnelStateModel::Pumping { phase: PumpPhase::InspectingRequest },
            TunnelEventModel::HandlerPanicked,
        ) => TunnelStateModel::SendingHandlerError,
        (
            TunnelStateModel::Pumping { phase: PumpPhase::ForwardingRequest },
            TunnelEventModel::ResponseParsed,
        ) => (TunnelStateModel::Pumping { phase: PumpPhase::InspectingResponse }),
        (
            TunnelStateModel::Pumping { phase: PumpPhase::ForwardingRequest },
            TunnelEventModel::ResponseFailed,
        ) => TunnelStateModel::SendingBadGateway,
        (
            TunnelStateModel::Pumping { phase: PumpPhase::InspectingResponse },
            TunnelEventModel::ResponseInspected,
        ) => (TunnelStateModel::Pumping { phase: PumpPhase::WritingResponse }),
        (
            TunnelStateModel::Pumping { phase: PumpPhase::InspectingResponse },
            TunnelEventModel::HandlerPanicked,
        ) => TunnelStateModel::SendingHandlerError,
        (
            TunnelStateModel::Pumping { phase: PumpPhase::WritingResponse },
            TunnelEventModel::WriteDone { keep_alive },
        ) => if keep_alive {
            (TunnelStateModel::Pumping { phase: PumpPhase::ReadingRequest })
        } else {
            TunnelStateModel::Closed
        },
        (
            TunnelStateModel::Pumping { phase: PumpPhase::WritingShortCircuit },
            TunnelEventModel::WriteDone { keep_alive },
        ) => if keep_alive {
            (TunnelStateModel::Pumping { phase: PumpPhase::ReadingRequest })
        } else {
            TunnelStateModel::Closed
        },
        (TunnelStateModel::SendingBadGateway, TunnelEventModel::WriteDone { .. }) =>
            TunnelStateModel::Closed,
        (TunnelStateModel::SendingBadRequest, TunnelEventModel::WriteDone { .. }) =>
            TunnelStateModel::Closed,
        (TunnelStateModel::SendingHandlerError, TunnelEventModel::WriteDone { .. }) =>
            TunnelStateModel::Closed,
        _ => TunnelStateModel::Closed,
    }
}

/// Advances the tunnel by one event, exactly as [`tunnel_step_spec`] draws
/// it.
pub fn tunnel_step(s: TunnelState, e: TunnelEvent) -> (r: TunnelState)
    ensures
        r@ == tunnel_step_spec(s@, e@),
{
    match (s, e) {
        (_, TunnelEvent::ClientGone) => TunnelState::Closed,
        (TunnelState::AwaitingConnect, TunnelEvent::ConnectAccepted { host, port }) =>
            TunnelState::SendingOk { host, port },
        (TunnelState::SendingOk { host, port }, TunnelEvent::OkSent) =>
            TunnelState::ClientTlsHandshake { host, port },
        (TunnelState::ClientTlsHandshake { host, port }, TunnelEvent::ClientTlsDone) =>
            TunnelState::UpstreamDial { host, port },
        (TunnelState::ClientTlsHandshake { .. }, TunnelEvent::ClientTlsFailed) =>
            TunnelState::Closed,
        (TunnelState::ClientTlsHandshake { .. }, TunnelEvent::LeafFailed) => TunnelState::Closed,
        (TunnelState::UpstreamDial { host, port }, TunnelEvent::DialDone) =>
            TunnelState::UpstreamTlsHandshake { host, port },
        (TunnelState::UpstreamDial { .. }, TunnelEvent::DialFailed) =>
            TunnelState::SendingBadGateway,
        (TunnelState::UpstreamTlsHandshake { .. }, TunnelEvent::UpstreamTlsDone) =>
            TunnelState::Pumping { phase: PumpPhase::ReadingRequest },
        (TunnelState::UpstreamTlsHandshake { .. }, TunnelEvent::UpstreamTlsFailed) =>
            TunnelState::SendingBadGateway,
        (TunnelState::Pumping { phase: PumpPhase::ReadingRequest }, TunnelEvent::RequestParsed) =>
            TunnelState::Pumping { phase: PumpPhase::InspectingRequest },
        (TunnelState::Pumping { phase: PumpPhase::ReadingRequest }, TunnelEvent::RequestBad) =>
            TunnelState::SendingBadRequest,
        (
            TunnelState::Pumping { phase: PumpPhase::InspectingRequest },
            TunnelEvent::HandlerForwarded,
        ) => TunnelState::Pumping { phase: PumpPhase::ForwardingRequest },
        (
            TunnelState::Pumping { phase: PumpPhase::InspectingRequest },
            TunnelEvent::HandlerShortCircuit,
        ) => TunnelState::Pumping { phase: PumpPhase::WritingShortCircuit },
        (
            TunnelState::Pumping { phase: PumpPhase::InspectingRequest },
            TunnelEvent::HandlerPanicked,
        ) => TunnelState::SendingHandlerError,
        (
            TunnelState::Pumping { phase: PumpPhase::ForwardingRequest },
            TunnelEvent::ResponseParsed,
        ) => TunnelState::Pumping { phase: PumpPhase::InspectingResponse },
        (
            TunnelState::Pumping { phase: PumpPhase::ForwardingRequest },
            TunnelEvent::ResponseFailed,
        ) => TunnelState::SendingBadGateway,
        (
            TunnelState::Pumping { phase: PumpPhase::InspectingResponse },
            TunnelEvent::ResponseInspected,
        ) => TunnelState::Pumping { phase: PumpPhase::WritingResponse },
        (
            TunnelState::Pumping { phase: PumpPhase::InspectingResponse },
            TunnelEvent::HandlerPanicked,
        ) => TunnelState::SendingHandlerError,
        (
            TunnelState::Pumping { phase: PumpPhase::WritingResponse },
            TunnelEvent::WriteDone { keep_alive },
        ) => if keep_alive {
            TunnelState::Pumping { phase: PumpPhase::ReadingRequest }
        } else {
            TunnelState::Closed
        },
        (
            TunnelState::Pumping { phase: PumpPhase::WritingShortCircuit },
            TunnelEvent::WriteDone { keep_alive },
        ) => if keep_alive {
            TunnelState::Pumping { phase: PumpPhase::ReadingRequest }
        } else {
            TunnelState::Closed
        },
        (TunnelState::SendingBadGateway, TunnelEvent::WriteDone { .. }) => TunnelState::Closed,
        (TunnelState::SendingBadRequest, TunnelEvent::WriteDone { .. }) => TunnelState::Closed,
        (TunnelState::SendingHandlerError, TunnelEvent::WriteDone { .. }) => TunnelState::Closed,
        (_, _) => TunnelState::Closed,
    }
}

/// A run of the machine: each state follows from the one before it.
pub open spec fn tunnel_trace_ok(
    states: Seq<TunnelStateModel>,
    events: Seq<TunnelEventModel>,
) -> bool {
    &&& states.len() == events.len() + 1
    &&& forall|i: int| 0 <= i < events.len() ==> states[i + 1] == tunnel_step_spec(
        #[trigger] states[i],
        events[i],
    )
}

/// How often a run enters the state that writes an upstream response to
/// the client.
pub open spec fn writes_entered(states: Seq<TunnelStateModel>) -> nat
    decreases states.len(),
{
    if states.len() <= 1 {
        0
    } else {
        writes_entered(states.drop_last()) + (if states.last() == (TunnelStateModel::Pumping {
            phase: PumpPhase::WritingResponse,
        }) {
            1nat
        } else {
            0nat
        })
    }
}

/// How many responses the inspection handler has returned in a run.
pub open spec fn responses_inspected(events: Seq<TunnelEventModel>) -> nat
    decreases events.len(),
{
    if events.len() == 0 {
        0
    } else {
        responses_inspected(events.drop_last()) + (if events.last()
            == TunnelEventModel::ResponseInspected {
            1nat
        } else {
            0nat
        })
    }
}

/// No response bytes reach the client before the handler has seen that
/// response: the machine enters its writing state at most once per
/// response the handler returned, so a write of response bytes is always
/// preceded by its inspection.
pub proof fn lemma_write_after_inspection(
    states: Seq<TunnelStateModel>,
    events: Seq<TunnelEventModel>,
)
    requires
        tunnel_trace_ok(states, events),
        states.len() > 0,
        states[0] == TunnelStateModel::AwaitingConnect,
    ensures
        writes_entered(states) <= responses_inspected(events),
    decreases events.len(),
{
    if events.len() == 0 {
        assert(states.len() == 1);
        assert(writes_entered(states) == 0);
    } else {
        let n = events.len() as int;
        let pre_states = states.drop_last();
        let pre_events = events.drop_last();
        assert(tunnel_trace_ok(pre_states, pre_events)) by {
            assert forall|i: int| 0 <= i < pre_events.len() implies pre_states[i + 1]
                == tunnel_step_spec(#[trigger] pre_states[i], pre_events[i]) by {
                assert(states[i + 1] == tunnel_step_spec(states[i], events[i]));
            }
        }
        lemma_write_after_inspection(pre_states, pre_events);
        assert(states[n] == tunnel_step_spec(states[n - 1], events[n - 1]));
        if states.last() == (TunnelStateModel::Pumping { phase: PumpPhase::WritingResponse }) {
            assert(events[n - 1] == TunnelEventModel::ResponseInspected);
        }
        assert(pre_states.last() == states[n - 1]);
    }
}

/// The `200 Connection Established` answer sent after accepting `CONNECT`.
pub fn response_connection_established() -> (r: Response)
    ensures
        r@.status == 200,
        r@.version == Version::Http11,
        r@.reason =~= seq![67u8, 111u8, 110u8, 110u8, 101u8, 99u8, 116u8, 105u8, 111u8, 110u8, 32u8, 69u8, 115u8, 116u8, 97u8, 98u8, 108u8, 105u8, 115u8, 104u8, 101u8, 100u8],
        r@.headers.len() == 0,
        r@.body is Empty,
        wf_response(r@),
{
    let reason: [u8; 22] = [67, 111, 110, 110, 101, 99, 116, 105, 111, 110, 32, 69, 115, 116, 97, 98, 108, 105, 115, 104, 101, 100];
    Response {
        version: Version::Http11,
        status: 200,
        reason: crate::headers::copy_bytes(reason.as_slice()),
        headers: Vec::new(),
        body: Body::Empty,
    }
}

/// The synthesised `502 Bad Gateway`, with the error phrase as a plain-text
/// body, sent when the origin fails before any response bytes have flowed.
pub fn response_bad_gateway(message: &[u8]) -> (r: Response)
    ensures
        r@.status == 502,
        r@.version == Version::Http11,
        r@.reason =~= seq![66u8, 97u8, 100u8, 32u8, 71u8, 97u8, 116u8, 101u8, 119u8, 97u8, 121u8],
        r@.headers.len() == 1,
        r@.headers[0].name =~= seq![67u8, 111u8, 110u8, 116u8, 101u8, 110u8, 116u8, 45u8, 84u8, 121u8, 112u8, 101u8],
        r@.headers[0].value =~= seq![116u8, 101u8, 120u8, 116u8, 47u8, 112u8, 108u8, 97u8, 105u8, 110u8],
        r@.body == crate::http::BodyModel::Sized(message@),
{
    let reason: [u8; 11] = [66, 97, 100, 32, 71, 97, 116, 101, 119, 97, 121];
    let ct_name: [u8; 12] = [67, 111, 110, 116, 101, 110, 116, 45, 84, 121, 112, 101];
    let ct_value: [u8; 10] = [116, 101, 120, 116, 47, 112, 108, 97, 105, 110];
    let mut headers: Vec<Header> = Vec::new();
    headers.push(Header {
        name: crate::headers::copy_bytes(ct_name.as_slice()),
        value: crate::headers::copy_bytes(ct_value.as_slice()),
    });
    Response {
        version: Version::Http11,
        status: 502,
        reason: crate::headers::copy_bytes(reason.as_slice()),
        headers,
        body: Body::Sized(crate::headers::copy_bytes(message)),
    }
}

/// The `500 Internal Server Error` sent when an inspection handler
/// panicked; the failure stays confined to its connection.
pub fn response_handler_error() -> (r: Response)
    ensures
        r@.status == 500,
        r@.version == Version::Http11,
        r@.reason =~= seq![73u8, 110u8, 116u8, 101u8, 114u8, 110u8, 97u8, 108u8, 32u8, 83u8, 101u8, 114u8, 118u8, 101u8, 114u8, 32u8, 69u8, 114u8, 114u8, 111u8, 114u8],
        r@.headers.len() == 0,
        r@.body is Empty,
        wf_response(r@),
{
    let reason: [u8; 21] = [73, 110, 116, 101, 114, 110, 97, 108, 32, 83, 101, 114, 118, 101, 114, 32, 69, 114, 114, 111, 114];
    Response {
        version: Version::Http11,
        status: 500,
        reason: crate::headers::copy_bytes(reason.as_slice()),
        headers: Vec::new(),
        body: Body::Empty,
    }
}

} // verus!
