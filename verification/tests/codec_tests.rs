use tesseract_client::codec::ArtifactRef;
use tesseract_client::codec::BuildUnit;
use tesseract_client::codec::Request;
use tesseract_client::codec::Response;
use tesseract_client::codec::decode_request;
use tesseract_client::codec::decode_response;
use tesseract_client::codec::encode_request;
use tesseract_client::codec::encode_response;
use tesseract_client::codec::frame_request;
use tesseract_client::codec::take_frame;

fn sample_unit() -> BuildUnit {
    BuildUnit {
        package_name: b"alpha".to_vec(),
        dependencies: vec![b"beta".to_vec(), b"gamma".to_vec()],
        source_files: vec![b"alpha/Cargo.toml".to_vec(), b"alpha/src/main.rs".to_vec()],
        artifacts: vec![b"alpha".to_vec()],
    }
}

fn units_equal(a: &BuildUnit, b: &BuildUnit) -> bool {
    a.package_name == b.package_name && a.dependencies == b.dependencies
        && a.source_files == b.source_files && a.artifacts == b.artifacts
}

#[test]
fn heartbeat_round_trips_with_zero_length_payload() {
    let bytes = encode_request(&Request::Heartbeat);
    assert_eq!(bytes, vec![0u8]);
    match decode_request(&bytes) {
        Some(Request::Heartbeat) => {}
        _ => panic!("heartbeat did not round trip"),
    }
}

#[test]
fn build_unit_request_round_trips() {
    let req = Request::BuildUnit {
        unit: sample_unit(),
        release: true,
        target: Some(b"x86_64-pc-windows-msvc".to_vec()),
        archive: vec![1, 2, 3, 4, 5],
    };
    let bytes = encode_request(&req);
    match decode_request(&bytes) {
        Some(Request::BuildUnit { unit, release, target, archive }) => {
            assert!(units_equal(&unit, &sample_unit()));
            assert!(release);
            assert_eq!(target, Some(b"x86_64-pc-windows-msvc".to_vec()));
            assert_eq!(archive, vec![1, 2, 3, 4, 5]);
        }
        _ => panic!("request did not round trip"),
    }
}

#[test]
fn build_unit_request_without_target_round_trips() {
    let req = Request::BuildUnit {
        unit: sample_unit(),
        release: false,
        target: None,
        archive: Vec::new(),
    };
    let bytes = encode_request(&req);
    match decode_request(&bytes) {
        Some(Request::BuildUnit { release, target, archive, .. }) => {
            assert!(!release);
            assert_eq!(target, None);
            assert!(archive.is_empty());
        }
        _ => panic!("request did not round trip"),
    }
}

#[test]
fn heartbeat_ack_round_trips() {
    let bytes = encode_response(&Response::HeartbeatAck);
    assert_eq!(bytes, vec![0u8]);
    match decode_response(&bytes) {
        Some(Response::HeartbeatAck) => {}
        _ => panic!("ack did not round trip"),
    }
}

#[test]
fn build_output_round_trips() {
    let resp = Response::BuildOutput {
        unit_name: b"alpha".to_vec(),
        line: b"Compiling alpha v0.1.0".to_vec(),
        is_error: false,
    };
    let bytes = encode_response(&resp);
    match decode_response(&bytes) {
        Some(Response::BuildOutput { unit_name, line, is_error }) => {
            assert_eq!(unit_name, b"alpha".to_vec());
            assert_eq!(line, b"Compiling alpha v0.1.0".to_vec());
            assert!(!is_error);
        }
        _ => panic!("output did not round trip"),
    }
}

#[test]
fn build_complete_round_trips_with_artifacts() {
    let resp = Response::BuildComplete {
        unit_name: b"alpha".to_vec(),
        artifacts: vec![
            ArtifactRef { rel_path: b"alpha".to_vec(), data: vec![9, 8, 7] },
            ArtifactRef { rel_path: b"alpha.d".to_vec(), data: Vec::new() },
        ],
    };
    let bytes = encode_response(&resp);
    match decode_response(&bytes) {
        Some(Response::BuildComplete { unit_name, artifacts }) => {
            assert_eq!(unit_name, b"alpha".to_vec());
            assert_eq!(artifacts.len(), 2);
            assert_eq!(artifacts[0].rel_path, b"alpha".to_vec());
            assert_eq!(artifacts[0].data, vec![9, 8, 7]);
            assert_eq!(artifacts[1].rel_path, b"alpha.d".to_vec());
            assert!(artifacts[1].data.is_empty());
        }
        _ => panic!("completion did not round trip"),
    }
}

#[test]
fn build_error_round_trips() {
    let resp = Response::BuildError {
        unit_name: b"foo".to_vec(),
        message: b"E0432".to_vec(),
    };
    let bytes = encode_response(&resp);
    match decode_response(&bytes) {
        Some(Response::BuildError { unit_name, message }) => {
            assert_eq!(unit_name, b"foo".to_vec());
            assert_eq!(message, b"E0432".to_vec());
        }
        _ => panic!("error did not round trip"),
    }
}

#[test]
fn unknown_tag_is_rejected() {
    assert!(decode_request(&[9u8]).is_none());
    assert!(decode_response(&[9u8]).is_none());
    assert!(decode_response(&[]).is_none());
}

#[test]
fn truncated_payload_is_rejected() {
    let resp = Response::BuildError {
        unit_name: b"foo".to_vec(),
        message: b"E0432".to_vec(),
    };
    let bytes = encode_response(&resp);
    for cut in 1..bytes.len() {
        assert!(decode_response(&bytes[..cut]).is_none(), "cut at {cut} decoded");
    }
}

#[test]
fn trailing_bytes_are_rejected() {
    let mut bytes = encode_response(&Response::HeartbeatAck);
    bytes.push(0);
    assert!(decode_response(&bytes).is_none());
    let mut req = encode_request(&Request::Heartbeat);
    req.push(1);
    assert!(decode_request(&req).is_none());
}

#[test]
fn frame_carries_length_then_payload() {
    let framed = frame_request(&Request::Heartbeat).unwrap();
    assert_eq!(framed, vec![0, 0, 0, 1, 0]);
}

#[test]
fn take_frame_waits_for_the_full_declared_length() {
    let framed = frame_request(&Request::Heartbeat).unwrap();
    assert!(take_frame(&framed[..3]).is_none());
    assert!(take_frame(&framed[..4]).is_none());
    let (payload, used) = take_frame(&framed).unwrap();
    assert_eq!(payload, vec![0u8]);
    assert_eq!(used, 5);
}

#[test]
fn take_frame_leaves_following_bytes_for_the_next_read() {
    let mut buf = frame_request(&Request::Heartbeat).unwrap();
    let second = frame_request(&Request::Heartbeat).unwrap();
    buf.extend_from_slice(&second);
    let (payload, used) = take_frame(&buf).unwrap();
    assert_eq!(payload, vec![0u8]);
    assert_eq!(used, 5);
    let (payload2, used2) = take_frame(&buf[used..]).unwrap();
    assert_eq!(payload2, vec![0u8]);
    assert_eq!(used2, 5);
}
