use signaling::codec::{decode, encode, Envelope, IceCandidate, SessionDescription, SignalPayload};

fn b(s: &str) -> Vec<u8> {
    s.as_bytes().to_vec()
}

fn envelope(to: &str, from: &str, data: SignalPayload) -> Envelope {
    Envelope {
        to: b(to),
        from: b(from),
        data,
    }
}

fn offer(blob: &str) -> SignalPayload {
    SignalPayload::Offer(SessionDescription { blob: b(blob) })
}

#[test]
fn round_trip_offer() {
    let e = envelope("B", "A", offer("{\"type\":\"offer\",\"sdp\":\"v=0\"}"));
    assert_eq!(decode(&encode(&e)).unwrap(), e);
}

#[test]
fn round_trip_answer() {
    let e = envelope(
        "peer-2",
        "peer-1",
        SignalPayload::Answer(SessionDescription {
            blob: b("{\"type\":\"answer\",\"sdp\":\"v=0\"}"),
        }),
    );
    assert_eq!(decode(&encode(&e)).unwrap(), e);
}

#[test]
fn round_trip_candidate() {
    let e = envelope(
        "B",
        "A",
        SignalPayload::Candidate(IceCandidate {
            blob: b("{\"candidate\":\"candidate:1 1 UDP 2122\",\"sdpMid\":\"0\"}"),
        }),
    );
    assert_eq!(decode(&encode(&e)).unwrap(), e);
}

#[test]
fn round_trip_with_quotes_and_backslashes() {
    let e = envelope("p\"q\\r", "s\\\"t", offer("a\"b\\c"));
    assert_eq!(decode(&encode(&e)).unwrap(), e);
}

#[test]
fn round_trip_empty_texts() {
    let e = envelope("", "", offer(""));
    assert_eq!(decode(&encode(&e)).unwrap(), e);
}

#[test]
fn wire_shape_is_compact_json() {
    let e = envelope("B", "A", offer("X"));
    assert_eq!(
        encode(&e),
        b("{\"to\":\"B\",\"from\":\"A\",\"data\":{\"Offer\":\"X\"}}")
    );
}

#[test]
fn wire_escapes_quotes_and_backslashes() {
    let e = envelope("a\"b", "c\\d", offer("X"));
    assert_eq!(
        encode(&e),
        b("{\"to\":\"a\\\"b\",\"from\":\"c\\\\d\",\"data\":{\"Offer\":\"X\"}}")
    );
}

#[test]
fn decode_accepts_any_member_order() {
    let w = b("{\"data\":{\"Answer\":\"Y\"},\"from\":\"A\",\"to\":\"B\"}");
    let e = decode(&w).unwrap();
    assert_eq!(
        e,
        envelope(
            "B",
            "A",
            SignalPayload::Answer(SessionDescription { blob: b("Y") })
        )
    );
}

#[test]
fn decode_ignores_unknown_members() {
    let w = b(
        "{\"to\":\"B\",\"version\":71,\"from\":\"A\",\"tags\":[\"x\",{\"y\":[1,2]}],\
         \"note\":\"hi, there\",\"data\":{\"Offer\":\"Z\"}}",
    );
    assert_eq!(decode(&w).unwrap(), envelope("B", "A", offer("Z")));
}

#[test]
fn decode_rejects_unknown_payload_tag() {
    let w = b("{\"to\":\"B\",\"from\":\"A\",\"data\":{\"Ping\":\"Z\"}}");
    assert!(decode(&w).is_err());
}

#[test]
fn decode_rejects_missing_member() {
    assert!(decode(&b("{\"to\":\"B\",\"data\":{\"Offer\":\"Z\"}}")).is_err());
    assert!(decode(&b("{\"from\":\"A\",\"data\":{\"Offer\":\"Z\"}}")).is_err());
    assert!(decode(&b("{\"to\":\"B\",\"from\":\"A\"}")).is_err());
}

#[test]
fn decode_rejects_duplicate_member() {
    let w = b("{\"to\":\"B\",\"to\":\"C\",\"from\":\"A\",\"data\":{\"Offer\":\"Z\"}}");
    assert!(decode(&w).is_err());
}

#[test]
fn decode_rejects_trailing_bytes() {
    let w = b("{\"to\":\"B\",\"from\":\"A\",\"data\":{\"Offer\":\"Z\"}}x");
    assert!(decode(&w).is_err());
}

#[test]
fn decode_rejects_non_object() {
    assert!(decode(&b("")).is_err());
    assert!(decode(&b("hello")).is_err());
    assert!(decode(&b("\"to\"")).is_err());
    assert!(decode(&b("[1,2]")).is_err());
}

#[test]
fn decode_rejects_control_byte_in_string() {
    let mut w = b("{\"to\":\"B");
    w.push(1);
    w.extend_from_slice(b"\",\"from\":\"A\",\"data\":{\"Offer\":\"Z\"}}");
    assert!(decode(&w).is_err());
}

#[test]
fn decode_rejects_unfinished_object() {
    assert!(decode(&b("{\"to\":\"B\",\"from\":\"A\",\"data\":{\"Offer\":\"Z\"}")).is_err());
    assert!(decode(&b("{")).is_err());
}
