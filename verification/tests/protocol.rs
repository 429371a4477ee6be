//! Tests of the envelope and payload codec and of envelope authentication.

use dkn_compute::codec::decode;
use dkn_compute::codec::decode_request;
use dkn_compute::codec::encode;
use dkn_compute::codec::encode_request;
use dkn_compute::codec::encode_result;
use dkn_compute::codec::DecodeError;
use dkn_compute::codec::FailureReason;
use dkn_compute::codec::MessageKind;
use dkn_compute::codec::TaskRequest;
use dkn_compute::codec::TaskResult;
use dkn_compute::codec::TaskStatus;
use dkn_compute::identity::verify;
use dkn_compute::identity::NodeIdentity;

#[test]
fn envelope_round_trip() {
    let identity = NodeIdentity::from_seed(42);
    let payload = vec![1u8, 2, 3, 4, 5];
    let env = identity.seal(MessageKind::Heartbeat, payload.clone(), 1000);
    let bytes = encode(&env);
    let back = decode(&bytes).expect("a sealed envelope must decode");
    assert_eq!(back.version, 1);
    assert!(matches!(back.kind, MessageKind::Heartbeat));
    assert_eq!(back.payload, payload);
    assert_eq!(back.publisher, identity.peer_id);
    assert_eq!(back.timestamp, 1000);
    assert_eq!(back.signature, env.signature);
    assert!(verify(&back));
}

#[test]
fn sealed_envelope_verifies() {
    let identity = NodeIdentity::from_seed(7);
    let env = identity.seal(MessageKind::TaskRequest, vec![9u8, 8, 7], 5);
    assert!(verify(&env));
}

#[test]
fn tampered_signature_fails_verification() {
    let identity = NodeIdentity::from_seed(7);
    let mut env = identity.seal(MessageKind::TaskRequest, vec![9u8, 8, 7], 5);
    env.signature = env.signature.wrapping_add(1);
    assert!(!verify(&env));
}

#[test]
fn tampered_payload_fails_verification() {
    let identity = NodeIdentity::from_seed(7);
    let mut env = identity.seal(MessageKind::TaskRequest, vec![9u8, 8, 7], 5);
    env.payload[0] = env.payload[0].wrapping_add(1);
    assert!(!verify(&env));
}

#[test]
fn decode_rejects_truncated_input() {
    assert!(matches!(decode(&vec![1u8, 0, 3]), Err(DecodeError::Truncated)));
    assert!(matches!(decode(&Vec::new()), Err(DecodeError::Truncated)));
}

#[test]
fn decode_rejects_unsupported_version() {
    let identity = NodeIdentity::from_seed(1);
    let env = identity.seal(MessageKind::Heartbeat, Vec::new(), 0);
    let mut bytes = encode(&env);
    bytes[0] = 2;
    assert!(matches!(decode(&bytes), Err(DecodeError::UnsupportedVersion)));
}

#[test]
fn decode_rejects_unknown_kind() {
    let identity = NodeIdentity::from_seed(1);
    let env = identity.seal(MessageKind::Heartbeat, Vec::new(), 0);
    let mut bytes = encode(&env);
    bytes[1] = 9;
    assert!(matches!(decode(&bytes), Err(DecodeError::UnknownKind)));
}

#[test]
fn decode_rejects_length_mismatch() {
    let identity = NodeIdentity::from_seed(1);
    let env = identity.seal(MessageKind::Heartbeat, vec![1u8, 2, 3], 0);
    let mut bytes = encode(&env);
    bytes.pop();
    assert!(matches!(decode(&bytes), Err(DecodeError::LengthMismatch)));
    bytes.push(0);
    bytes.push(0);
    assert!(matches!(decode(&bytes), Err(DecodeError::LengthMismatch)));
}

#[test]
fn request_round_trip() {
    let req = TaskRequest {
        task_id: 11,
        kind: 7,
        deadline: 99,
        requirements: 0b101,
        body: vec![0xde, 0xad],
    };
    let bytes = encode_request(&req);
    let back = decode_request(&bytes).expect("an encoded request must decode");
    assert_eq!(back.task_id, 11);
    assert_eq!(back.kind, 7);
    assert_eq!(back.deadline, 99);
    assert_eq!(back.requirements, 0b101);
    assert_eq!(back.body, vec![0xde, 0xad]);
}

#[test]
fn request_decode_rejects_truncated_input() {
    assert!(matches!(decode_request(&vec![0u8; 35]), Err(DecodeError::Truncated)));
}

#[test]
fn request_decode_rejects_length_mismatch() {
    let req = TaskRequest { task_id: 1, kind: 2, deadline: 3, requirements: 0, body: vec![5u8] };
    let mut bytes = encode_request(&req);
    bytes.push(0);
    assert!(matches!(decode_request(&bytes), Err(DecodeError::LengthMismatch)));
}

#[test]
fn result_encoding_shape() {
    let res = TaskResult {
        task_id: 0x0102030405060708,
        producer: 21,
        status: TaskStatus::Failure(FailureReason::Timeout),
        body: vec![0xaa],
        signature: 0,
    };
    let bytes = encode_result(&res);
    // header (29 bytes) + body
    assert_eq!(bytes.len(), 30);
    // task identifier, big-endian
    assert_eq!(&bytes[0..8], &[1u8, 2, 3, 4, 5, 6, 7, 8]);
    // producer, big-endian
    assert_eq!(&bytes[8..16], &[0u8, 0, 0, 0, 0, 0, 0, 21]);
    // status byte: a timeout failure
    assert_eq!(bytes[24], 1);
    // body length and body
    assert_eq!(&bytes[25..29], &[0u8, 0, 0, 1]);
    assert_eq!(bytes[29], 0xaa);
}

#[test]
fn envelope_wire_layout() {
    let identity = NodeIdentity::from_seed(3);
    let env = identity.seal(MessageKind::TaskResult, vec![0x55u8], 0x0a0b0c0d);
    let bytes = encode(&env);
    assert_eq!(bytes.len(), 31);
    assert_eq!(bytes[0], 1); // version
    assert_eq!(bytes[1], 1); // kind byte of a result
    assert_eq!(&bytes[10..18], &[0u8, 0, 0, 0, 0x0a, 0x0b, 0x0c, 0x0d]); // timestamp
    assert_eq!(&bytes[26..30], &[0u8, 0, 0, 1]); // payload length
    assert_eq!(bytes[30], 0x55); // payload
}

#[test]
fn peer_id_is_deterministic() {
    let a = NodeIdentity::from_seed(1234);
    let b = NodeIdentity::from_seed(1234);
    let c = NodeIdentity::from_seed(1235);
    assert_eq!(a.peer_id, b.peer_id);
    assert_ne!(a.peer_id, c.peer_id);
}
