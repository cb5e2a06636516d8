use tesseract_client::codec::ArtifactRef;
use tesseract_client::codec::Response;
use tesseract_client::codec::encode_response;
use tesseract_client::errors::ClientError;
use tesseract_client::session::SessionAction;
use tesseract_client::session::SessionEvent;
use tesseract_client::session::SessionState;
use tesseract_client::session::handle_frame;
use tesseract_client::session::session_step;

fn contains(haystack: &[u8], needle: &[u8]) -> bool {
    haystack.windows(needle.len()).any(|w| w == needle) || needle.is_empty()
}

#[test]
fn happy_path_reaches_streaming_and_success() {
    let (s, a) = session_step(SessionState::Connecting, SessionEvent::Connected);
    assert_eq!(s, SessionState::HandshakeSent);
    assert!(matches!(a, SessionAction::SendHeartbeat));

    let (s, a) = session_step(s, SessionEvent::Frame(Response::HeartbeatAck));
    assert_eq!(s, SessionState::HandshakeAcked);
    assert!(matches!(a, SessionAction::SendUnit));

    let (s, a) = session_step(s, SessionEvent::Dispatched);
    assert_eq!(s, SessionState::UnitSent);
    assert!(matches!(a, SessionAction::AwaitFrame));

    let out = Response::BuildOutput {
        unit_name: b"alpha".to_vec(),
        line: b"Compiling".to_vec(),
        is_error: false,
    };
    let (s, a) = session_step(s, SessionEvent::Frame(out));
    assert_eq!(s, SessionState::Streaming);
    match a {
        SessionAction::EmitLog { line, is_error } => {
            assert_eq!(line, b"Compiling".to_vec());
            assert!(!is_error);
        }
        _ => panic!("expected a log line"),
    }

    let done = Response::BuildComplete {
        unit_name: b"alpha".to_vec(),
        artifacts: vec![ArtifactRef { rel_path: b"alpha".to_vec(), data: vec![1] }],
    };
    let (s, a) = session_step(s, SessionEvent::Frame(done));
    assert_eq!(s, SessionState::Terminated { success: true });
    match a {
        SessionAction::SaveArtifacts { artifacts } => {
            assert_eq!(artifacts.len(), 1);
            assert_eq!(artifacts[0].rel_path, b"alpha".to_vec());
        }
        _ => panic!("expected artifacts to save"),
    }
}

#[test]
fn output_lines_keep_the_session_streaming() {
    let mut s = SessionState::Streaming;
    for i in 0..5 {
        let out = Response::BuildOutput {
            unit_name: b"alpha".to_vec(),
            line: format!("line {i}").into_bytes(),
            is_error: i % 2 == 1,
        };
        let (next, a) = session_step(s, SessionEvent::Frame(out));
        assert_eq!(next, SessionState::Streaming);
        assert!(matches!(a, SessionAction::EmitLog { .. }));
        s = next;
    }
}

#[test]
fn build_error_names_the_unit_and_the_message() {
    let err = Response::BuildError {
        unit_name: b"foo".to_vec(),
        message: b"E0432".to_vec(),
    };
    let (s, a) = session_step(SessionState::Streaming, SessionEvent::Frame(err));
    assert_eq!(s, SessionState::Terminated { success: false });
    match a {
        SessionAction::ReportFailure { error, abort_run } => {
            assert!(!abort_run);
            let text = error.describe();
            assert!(contains(&text, b"foo"));
            assert!(contains(&text, b"E0432"));
            assert_eq!(text, b"build failed for foo: E0432".to_vec());
        }
        _ => panic!("expected a reported failure"),
    }
}

#[test]
fn handshake_rejection_aborts_the_whole_run() {
    let wrong = Response::BuildOutput {
        unit_name: b"alpha".to_vec(),
        line: b"?".to_vec(),
        is_error: false,
    };
    let (s, a) = session_step(SessionState::HandshakeSent, SessionEvent::Frame(wrong));
    assert_eq!(s, SessionState::Terminated { success: false });
    match a {
        SessionAction::ReportFailure { error, abort_run } => {
            assert!(abort_run);
            assert!(matches!(error, ClientError::Connection { .. }));
        }
        _ => panic!("expected a reported failure"),
    }
}

#[test]
fn handshake_timeout_aborts_the_whole_run() {
    let (s, a) = session_step(SessionState::HandshakeSent, SessionEvent::TimedOut);
    assert_eq!(s, SessionState::Terminated { success: false });
    match a {
        SessionAction::ReportFailure { abort_run, .. } => assert!(abort_run),
        _ => panic!("expected a reported failure"),
    }
}

#[test]
fn eof_mid_stream_is_a_distinct_connection_loss() {
    let (s, a) = session_step(SessionState::Streaming, SessionEvent::StreamClosed);
    assert_eq!(s, SessionState::Terminated { success: false });
    match a {
        SessionAction::ReportFailure { error, abort_run } => {
            assert!(!abort_run);
            match error {
                ClientError::Connection { detail } => {
                    assert_eq!(detail, b"connection closed unexpectedly".to_vec());
                }
                _ => panic!("expected a connection error"),
            }
        }
        _ => panic!("expected a reported failure"),
    }
}

#[test]
fn timeout_mid_stream_is_retryable() {
    let (s, a) = session_step(SessionState::UnitSent, SessionEvent::TimedOut);
    assert_eq!(s, SessionState::Terminated { success: false });
    match a {
        SessionAction::ReportFailure { error, abort_run } => {
            assert!(!abort_run);
            assert!(matches!(error, ClientError::Timeout));
        }
        _ => panic!("expected a reported failure"),
    }
}

#[test]
fn a_terminated_session_never_acts_again() {
    let s0 = SessionState::Terminated { success: true };
    let (s, a) = session_step(s0, SessionEvent::Frame(Response::HeartbeatAck));
    assert_eq!(s, s0);
    assert!(matches!(a, SessionAction::Idle));
    let (s, a) = session_step(s0, SessionEvent::StreamClosed);
    assert_eq!(s, s0);
    assert!(matches!(a, SessionAction::Idle));
}

#[test]
fn an_undecodable_frame_is_a_protocol_failure() {
    let (s, a) = handle_frame(SessionState::Streaming, &[255, 1, 2]);
    assert_eq!(s, SessionState::Terminated { success: false });
    match a {
        SessionAction::ReportFailure { error, .. } => {
            assert!(matches!(error, ClientError::Protocol { .. }));
        }
        _ => panic!("expected a protocol failure"),
    }
}

#[test]
fn a_decodable_frame_drives_the_session() {
    let bytes = encode_response(&Response::HeartbeatAck);
    let (s, a) = handle_frame(SessionState::HandshakeSent, &bytes);
    assert_eq!(s, SessionState::HandshakeAcked);
    assert!(matches!(a, SessionAction::SendUnit));
}

#[test]
fn error_texts_name_their_kind() {
    let e = ClientError::Timeout;
    assert_eq!(e.describe(), b"request timed out".to_vec());
    let e = ClientError::GraphCycle { package: b"looped".to_vec() };
    assert_eq!(e.describe(), b"dependency cycle involving looped".to_vec());
    let e = ClientError::Archive { detail: b"missing file".to_vec() };
    assert_eq!(e.describe(), b"archive error: missing file".to_vec());
    let e = ClientError::Protocol { detail: b"bad tag".to_vec() };
    assert_eq!(e.describe(), b"protocol error: bad tag".to_vec());
    let e = ClientError::Connection { detail: b"refused".to_vec() };
    assert_eq!(e.describe(), b"connection error: refused".to_vec());
}

#[test]
fn fatal_errors_are_exactly_archive_and_cycle() {
    assert!(ClientError::Archive { detail: Vec::new() }.is_fatal());
    assert!(ClientError::GraphCycle { package: Vec::new() }.is_fatal());
    assert!(!ClientError::Timeout.is_fatal());
    assert!(!ClientError::Connection { detail: Vec::new() }.is_fatal());
    assert!(!ClientError::Protocol { detail: Vec::new() }.is_fatal());
    assert!(
        !ClientError::ServerBuild { unit_name: Vec::new(), message: Vec::new() }.is_fatal()
    );
}
