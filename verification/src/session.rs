//! The build session: one connection for one unit, driven as a state
//! machine from plain events to plain actions.
//!
//! The caller owns the socket and the clock; the library owns every
//! decision. The caller feeds each event (connection up, frame decoded,
//! stream closed, timer expired) into [`session_step`] and performs the
//! action it returns. Responses are consumed strictly in arrival order;
//! the first terminal frame ends the session, and a terminated session
//! never acts again.

use vstd::prelude::*;

use crate::codec::ArtifactModel;
use crate::codec::ArtifactRef;
use crate::codec::Response;
use crate::codec::ResponseModel;
use crate::codec::artifact_views;
use crate::errors::ClientError;
use crate::errors::ClientErrorModel;

verus! {

/// Where a session stands.
///
/// `Connecting` until the stream is up; `HandshakeSent` while the
/// heartbeat is on the wire; `HandshakeAcked` once the worker answered
/// and the unit request is being written; `UnitSent` and `Streaming`
/// while responses arrive; `Terminated` with the session's outcome.
#[derive(PartialEq, Eq, Structural, Clone, Copy, Debug)]
pub enum SessionState {
    Connecting,
    HandshakeSent,
    HandshakeAcked,
    UnitSent,
    Streaming,
    Terminated { success: bool },
}

/// One thing that happened outside the library.
pub enum SessionEvent {
    /// The stream to the worker is up.
    Connected,
    /// The previously requested send was written in full.
    Dispatched,
    /// One full frame arrived and decoded to this response.
    Frame(Response),
    /// The stream ended.
    StreamClosed,
    /// The per-request timer expired.
    TimedOut,
}

/// The mathematical value of a [`SessionEvent`].
pub enum SessionEventModel {
    Connected,
    Dispatched,
    Frame(ResponseModel),
    StreamClosed,
    TimedOut,
}

impl View for SessionEvent {
    type V = SessionEventModel;

    open spec fn view(&self) -> SessionEventModel {
        match self {
            SessionEvent::Connected => SessionEventModel::Connected,
            SessionEvent::Dispatched => SessionEventModel::Dispatched,
            SessionEvent::Frame(r) => SessionEventModel::Frame(r@),
            SessionEvent::StreamClosed => SessionEventModel::StreamClosed,
            SessionEvent::TimedOut => SessionEventModel::TimedOut,
        }
    }
}

/// What the caller must do next.
pub enum SessionAction {
    /// Encode and send a heartbeat request.
    SendHeartbeat,
    /// Encode and send the unit's build request.
    SendUnit,
    /// Read the next frame.
    AwaitFrame,
    /// Surface one line of streamed build output.
    EmitLog { line: Vec<u8>, is_error: bool },
    /// Materialize the returned artifacts; the build succeeded.
    SaveArtifacts { artifacts: Vec<ArtifactRef> },
    /// Surface a failure. When `abort_run` is set the whole run ends at
    /// once; otherwise the attempt failed and may be retried.
    ReportFailure { error: ClientError, abort_run: bool },
    /// Nothing; the session is over.
    Idle,
}

/// The mathematical value of a [`SessionAction`].
pub enum SessionActionModel {
    SendHeartbeat,
    SendUnit,
    AwaitFrame,
    EmitLog { line: Seq<u8>, is_error: bool },
    SaveArtifacts { artifacts: Seq<ArtifactModel> },
    ReportFailure { error: ClientErrorModel, abort_run: bool },
    Idle,
}

impl View for SessionAction {
    type V = SessionActionModel;

    open spec fn view(&self) -> SessionActionModel {
        match self {
            SessionAction::SendHeartbeat => SessionActionModel::SendHeartbeat,
            SessionAction::SendUnit => SessionActionModel::SendUnit,
            SessionAction::AwaitFrame => SessionActionModel::AwaitFrame,
            SessionAction::EmitLog { line, is_error } => SessionActionModel::EmitLog {
                line: line@,
                is_error: *is_error,
            },
            SessionAction::SaveArtifacts { artifacts } => SessionActionModel::SaveArtifacts {
                artifacts: artifact_views(artifacts@),
            },
            SessionAction::ReportFailure { error, abort_run } => SessionActionModel::ReportFailure {
                error: error@,
                abort_run: *abort_run,
            },
            SessionAction::Idle => SessionActionModel::Idle,
        }
    }
}

/// The text `could not reach the worker`.
pub open spec fn txt_unreachable() -> Seq<u8> {
    seq![
        99u8, 111, 117, 108, 100, 32, 110, 111, 116, 32, 114, 101, 97, 99, 104, 32, 116, 104,
        101, 32, 119, 111, 114, 107, 101, 114,
    ]
}

/// The text `handshake failed`.
pub open spec fn txt_handshake_failed() -> Seq<u8> {
    seq![104u8, 97, 110, 100, 115, 104, 97, 107, 101, 32, 102, 97, 105, 108, 101, 100]
}

/// The text `connection closed unexpectedly`.
pub open spec fn txt_closed() -> Seq<u8> {
    seq![
        99u8, 111, 110, 110, 101, 99, 116, 105, 111, 110, 32, 99, 108, 111, 115, 101, 100, 32,
        117, 110, 101, 120, 112, 101, 99, 116, 101, 100, 108, 121,
    ]
}

/// The text `unexpected frame`.
pub open spec fn txt_unexpected_frame() -> Seq<u8> {
    seq![117u8, 110, 101, 120, 112, 101, 99, 116, 101, 100, 32, 102, 114, 97, 109, 101]
}

/// A failed terminal step with a connection error.
pub open spec fn step_conn_fail(detail: Seq<u8>, abort_run: bool) -> (SessionState, SessionActionModel) {
    (
        SessionState::Terminated { success: false },
        SessionActionModel::ReportFailure {
            error: ClientErrorModel::Connection { detail: detail },
            abort_run: abort_run,
        },
    )
}

/// A failed terminal step with a protocol error.
pub open spec fn step_proto_fail() -> (SessionState, SessionActionModel) {
    (
        SessionState::Terminated { success: false },
        SessionActionModel::ReportFailure {
            error: ClientErrorModel::Protocol { detail: txt_unexpected_frame() },
            abort_run: false,
        },
    )
}

/// How a response moves a session that is waiting for build responses.
///
/// Output lines keep the session streaming and change nothing else; the
/// first `BuildComplete` or `BuildError` is terminal; a heartbeat
/// acknowledgement here is a protocol error.
pub open spec fn spec_streaming_step(r: ResponseModel) -> (SessionState, SessionActionModel) {
    match r {
        ResponseModel::BuildOutput { unit_name, line, is_error } => (
            SessionState::Streaming,
            SessionActionModel::EmitLog { line: line, is_error: is_error },
        ),
        ResponseModel::BuildComplete { unit_name, artifacts } => (
            SessionState::Terminated { success: true },
            SessionActionModel::SaveArtifacts { artifacts: artifacts },
        ),
        ResponseModel::BuildError { unit_name, message } => (
            SessionState::Terminated { success: false },
            SessionActionModel::ReportFailure {
                error: ClientErrorModel::ServerBuild { unit_name: unit_name, message: message },
                abort_run: false,
            },
        ),
        ResponseModel::HeartbeatAck => step_proto_fail(),
    }
}

/// The session transition function.
///
/// A worker that fails or times out the handshake is not worth retrying
/// per unit: those failures carry `abort_run`. A connection that cannot
/// be opened, a lost stream, a timeout mid-build and a worker-reported
/// build failure fail only the attempt.
pub open spec fn spec_session_step(s: SessionState, e: SessionEventModel) -> (
    SessionState,
    SessionActionModel,
) {
    match s {
        SessionState::Connecting => match e {
            SessionEventModel::Connected => (
                SessionState::HandshakeSent,
                SessionActionModel::SendHeartbeat,
            ),
            SessionEventModel::StreamClosed => step_conn_fail(txt_unreachable(), false),
            SessionEventModel::TimedOut => step_conn_fail(txt_unreachable(), false),
            _ => step_proto_fail(),
        },
        SessionState::HandshakeSent => match e {
            SessionEventModel::Dispatched => (
                SessionState::HandshakeSent,
                SessionActionModel::AwaitFrame,
            ),
            SessionEventModel::Frame(r) => match r {
                ResponseModel::HeartbeatAck => (
                    SessionState::HandshakeAcked,
                    SessionActionModel::SendUnit,
                ),
                _ => step_conn_fail(txt_handshake_failed(), true),
            },
            SessionEventModel::StreamClosed => step_conn_fail(txt_handshake_failed(), true),
            SessionEventModel::TimedOut => step_conn_fail(txt_handshake_failed(), true),
            SessionEventModel::Connected => step_proto_fail(),
        },
        SessionState::HandshakeAcked => match e {
            SessionEventModel::Dispatched => (SessionState::UnitSent, SessionActionModel::AwaitFrame),
            SessionEventModel::StreamClosed => step_conn_fail(txt_closed(), false),
            SessionEventModel::TimedOut => (
                SessionState::Terminated { success: false },
                SessionActionModel::ReportFailure {
                    error: ClientErrorModel::Timeout,
                    abort_run: false,
                },
            ),
            _ => step_proto_fail(),
        },
        SessionState::UnitSent => match e {
            SessionEventModel::Frame(r) => spec_streaming_step(r),
            SessionEventModel::StreamClosed => step_conn_fail(txt_closed(), false),
            SessionEventModel::TimedOut => (
                SessionState::Terminated { success: false },
                SessionActionModel::ReportFailure {
                    error: ClientErrorModel::Timeout,
                    abort_run: false,
                },
            ),
            _ => step_proto_fail(),
        },
        SessionState::Streaming => match e {
            SessionEventModel::Frame(r) => spec_streaming_step(r),
            SessionEventModel::StreamClosed => step_conn_fail(txt_closed(), false),
            SessionEventModel::TimedOut => (
                SessionState::Terminated { success: false },
                SessionActionModel::ReportFailure {
                    error: ClientErrorModel::Timeout,
                    abort_run: false,
                },
            ),
            _ => step_proto_fail(),
        },
        SessionState::Terminated { success } => (
            SessionState::Terminated { success },
            SessionActionModel::Idle,
        ),
    }
}

/// Drive the session one step: from the current state and one event to
/// the next state and the action the caller must perform.
pub fn session_step(s: SessionState, e: SessionEvent) -> (r: (SessionState, SessionAction))
    ensures
        (r.0, r.1@) == spec_session_step(s, e@),
{
    let conn_unreachable = || -> (a: SessionAction)
        ensures
            a@ == step_conn_fail(txt_unreachable(), false).1,
        {
        SessionAction::ReportFailure {
            error: ClientError::Connection {
                detail: vec![
                    99u8, 111, 117, 108, 100, 32, 110, 111, 116, 32, 114, 101, 97, 99, 104, 32,
                    116, 104, 101, 32, 119, 111, 114, 107, 101, 114,
                ],
            },
            abort_run: false,
        }
    };
    match s {
        SessionState::Connecting => match e {
            SessionEvent::Connected => (SessionState::HandshakeSent, SessionAction::SendHeartbeat),
            SessionEvent::StreamClosed => (
                SessionState::Terminated { success: false },
                conn_unreachable(),
            ),
            SessionEvent::TimedOut => (
                SessionState::Terminated { success: false },
                conn_unreachable(),
            ),
            _ => (SessionState::Terminated { success: false }, proto_fail_action()),
        },
        SessionState::HandshakeSent => match e {
            SessionEvent::Dispatched => (SessionState::HandshakeSent, SessionAction::AwaitFrame),
            SessionEvent::Frame(r) => match r {
                Response::HeartbeatAck => (SessionState::HandshakeAcked, SessionAction::SendUnit),
                _ => (SessionState::Terminated { success: false }, handshake_fail_action()),
            },
            SessionEvent::StreamClosed => (
                SessionState::Terminated { success: false },
                handshake_fail_action(),
            ),
            SessionEvent::TimedOut => (
                SessionState::Terminated { success: false },
                handshake_fail_action(),
            ),
            SessionEvent::Connected => (
                SessionState::Terminated { success: false },
                proto_fail_action(),
            ),
        },
        SessionState::HandshakeAcked => match e {
            SessionEvent::Dispatched => (SessionState::UnitSent, SessionAction::AwaitFrame),
            SessionEvent::StreamClosed => (
                SessionState::Terminated { success: false },
                closed_fail_action(),
            ),
            SessionEvent::TimedOut => (
                SessionState::Terminated { success: false },
                SessionAction::ReportFailure { error: ClientError::Timeout, abort_run: false },
            ),
            _ => (SessionState::Terminated { success: false }, proto_fail_action()),
        },
        SessionState::UnitSent => match e {
            SessionEvent::Frame(r) => streaming_step(r),
            SessionEvent::StreamClosed => (
                SessionState::Terminated { success: false },
                closed_fail_action(),
            ),
            SessionEvent::TimedOut => (
                SessionState::Terminated { success: false },
                SessionAction::ReportFailure { error: ClientError::Timeout, abort_run: false },
            ),
            _ => (SessionState::Terminated { success: false }, proto_fail_action()),
        },
        SessionState::Streaming => match e {
            SessionEvent::Frame(r) => streaming_step(r),
            SessionEvent::StreamClosed => (
                SessionState::Terminated { success: false },
                closed_fail_action(),
            ),
            SessionEvent::TimedOut => (
                SessionState::Terminated { success: false },
                SessionAction::ReportFailure { error: ClientError::Timeout, abort_run: false },
            ),
            _ => (SessionState::Terminated { success: false }, proto_fail_action()),
        },
        SessionState::Terminated { success } => (
            SessionState::Terminated { success },
            SessionAction::Idle,
        ),
    }
}

/// The action of a protocol failure: an unexpected frame or event.
fn proto_fail_action() -> (a: SessionAction)
    ensures
        a@ == step_proto_fail().1,
{
    SessionAction::ReportFailure {
        error: ClientError::Protocol {
            detail: vec![
                117u8, 110, 101, 120, 112, 101, 99, 116, 101, 100, 32, 102, 114, 97, 109, 101,
            ],
        },
        abort_run: false,
    }
}

/// The action of a failed handshake: fatal for the whole run.
fn handshake_fail_action() -> (a: SessionAction)
    ensures
        a@ == step_conn_fail(txt_handshake_failed(), true).1,
{
    SessionAction::ReportFailure {
        error: ClientError::Connection {
            detail: vec![
                104u8, 97, 110, 100, 115, 104, 97, 107, 101, 32, 102, 97, 105, 108, 101, 100,
            ],
        },
        abort_run: true,
    }
}

/// The action of a stream that ended mid-session.
fn closed_fail_action() -> (a: SessionAction)
    ensures
        a@ == step_conn_fail(txt_closed(), false).1,
{
    SessionAction::ReportFailure {
        error: ClientError::Connection {
            detail: vec![
                99u8, 111, 110, 110, 101, 99, 116, 105, 111, 110, 32, 99, 108, 111, 115, 101,
                100, 32, 117, 110, 101, 120, 112, 101, 99, 116, 101, 100, 108, 121,
            ],
        },
        abort_run: false,
    }
}

/// The step a response causes while build responses are expected.
fn streaming_step(r: Response) -> (out: (SessionState, SessionAction))
    ensures
        (out.0, out.1@) == spec_streaming_step(r@),
{
    match r {
        Response::BuildOutput { unit_name, line, is_error } => (
            SessionState::Streaming,
            SessionAction::EmitLog { line, is_error },
        ),
        Response::BuildComplete { unit_name, artifacts } => (
            SessionState::Terminated { success: true },
            SessionAction::SaveArtifacts { artifacts },
        ),
        Response::BuildError { unit_name, message } => (
            SessionState::Terminated { success: false },
            SessionAction::ReportFailure {
                error: ClientError::ServerBuild { unit_name, message },
                abort_run: false,
            },
        ),
        Response::HeartbeatAck => (SessionState::Terminated { success: false }, proto_fail_action()),
    }
}

/// A terminated session never changes state or acts again: every event
/// maps it to itself with no action.
pub proof fn lemma_terminal_is_final(success: bool, e: SessionEventModel)
    ensures
        spec_session_step(SessionState::Terminated { success }, e) == (
            SessionState::Terminated { success },
            SessionActionModel::Idle,
        ),
{
}

/// A streamed output line never changes what the session is waiting
/// for: it is surfaced as a log line and the session keeps streaming.
pub proof fn lemma_output_only_logs(s: SessionState, name: Seq<u8>, line: Seq<u8>, is_error: bool)
    requires
        s == SessionState::UnitSent || s == SessionState::Streaming,
    ensures
        spec_session_step(
            s,
            SessionEventModel::Frame(
                ResponseModel::BuildOutput { unit_name: name, line: line, is_error: is_error },
            ),
        ) == (
            SessionState::Streaming,
            SessionActionModel::EmitLog { line: line, is_error: is_error },
        ),
{
}

/// The first terminal frame ends the session: `BuildComplete` leaves a
/// successful terminated session that saves the artifacts, `BuildError`
/// a failed one that names the unit and the worker's message.
pub proof fn lemma_terminal_frame_ends_session(s: SessionState, r: ResponseModel)
    requires
        s == SessionState::UnitSent || s == SessionState::Streaming,
    ensures
        r matches ResponseModel::BuildComplete { unit_name, artifacts } ==> spec_session_step(
            s,
            SessionEventModel::Frame(r),
        ) == (
            SessionState::Terminated { success: true },
            SessionActionModel::SaveArtifacts { artifacts: artifacts },
        ),
        r matches ResponseModel::BuildError { unit_name, message } ==> spec_session_step(
            s,
            SessionEventModel::Frame(r),
        ) == (
            SessionState::Terminated { success: false },
            SessionActionModel::ReportFailure {
                error: ClientErrorModel::ServerBuild { unit_name: unit_name, message: message },
                abort_run: false,
            },
        ),
{
}


/// What one full frame does to the session: its payload is decoded and
/// fed in; a payload that does not decode is a protocol failure.
pub open spec fn spec_handle_frame(s: SessionState, payload: Seq<u8>) -> (
    SessionState,
    SessionActionModel,
) {
    match crate::codec::spec_decode_response(payload) {
        Option::Some(m) => spec_session_step(s, SessionEventModel::Frame(m)),
        Option::None => step_proto_fail(),
    }
}

/// Decode one frame's payload and drive the session with it.
pub fn handle_frame(s: SessionState, payload: &[u8]) -> (r: (SessionState, SessionAction))
    ensures
        (r.0, r.1@) == spec_handle_frame(s, payload@),
{
    match crate::codec::decode_response(payload) {
        Option::Some(resp) => session_step(s, SessionEvent::Frame(resp)),
        Option::None => (SessionState::Terminated { success: false }, proto_fail_action()),
    }
}

} // verus!
