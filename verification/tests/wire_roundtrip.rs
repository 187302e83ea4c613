use six7::msg::{AckResponse, DirectMessage, GroupMessage, MessageType};
use six7::wire::{
    decode_ack, decode_direct, decode_group, encode_ack, encode_direct, encode_group,
};

fn dm(id: &str, content: &str, ts: i64, mt: &str) -> DirectMessage {
    DirectMessage {
        id: id.to_string(),
        content: content.to_string(),
        timestamp: ts,
        message_type: mt.to_string(),
    }
}

fn gm(id: &str, content: &str, ts: i64, mt: &str, gid: &str) -> GroupMessage {
    GroupMessage {
        id: id.to_string(),
        content: content.to_string(),
        timestamp: ts,
        message_type: mt.to_string(),
        group_id: gid.to_string(),
    }
}

#[test]
fn direct_encode_decode_identity() {
    let m = dm("00aa", "hello there", 1714000000123, "text");
    let bytes = encode_direct(&m);
    let back = decode_direct(&bytes).expect("round trip");
    assert_eq!(back, m);
}

#[test]
fn direct_decode_then_encode_then_decode() {
    let m = dm("x", "payload", -7, "contactRequest");
    let bytes = encode_direct(&m);
    let v1 = decode_direct(&bytes).expect("first decode");
    let bytes2 = encode_direct(&v1);
    let v2 = decode_direct(&bytes2).expect("second decode");
    assert_eq!(v1, v2);
    assert_eq!(v2, m);
}

#[test]
fn group_encode_decode_identity() {
    let m = gm("id1", "hi", 99, "text", "lobby");
    let bytes = encode_group(&m);
    let back = decode_group(&bytes).expect("round trip");
    assert_eq!(back, m);
}

#[test]
fn group_decode_then_encode_then_decode() {
    let m = gm("id2", "unicode \u{00e9}\u{4e16}", i64::MIN, "vibe", "room-7");
    let bytes = encode_group(&m);
    let v1 = decode_group(&bytes).expect("first decode");
    let bytes2 = encode_group(&v1);
    let v2 = decode_group(&bytes2).expect("second decode");
    assert_eq!(v1, v2);
    assert_eq!(v2, m);
}

#[test]
fn direct_matches_reference_serializer() {
    let m = dm("4f2a", "hello", 1714000000123, "text");
    let mine = encode_direct(&m);
    let theirs = postcard::to_allocvec(&(
        m.id.clone(),
        m.content.clone(),
        m.timestamp,
        m.message_type.clone(),
    ))
    .unwrap();
    assert_eq!(mine, theirs);
}

#[test]
fn direct_decodes_reference_serializer_bytes() {
    let theirs = postcard::to_allocvec(&(
        "aabb".to_string(),
        "some content".to_string(),
        -123456789i64,
        "readReceipt".to_string(),
    ))
    .unwrap();
    let m = decode_direct(&theirs).expect("decode");
    assert_eq!(m.id, "aabb");
    assert_eq!(m.content, "some content");
    assert_eq!(m.timestamp, -123456789);
    assert_eq!(m.message_type, "readReceipt");
}

#[test]
fn group_matches_reference_serializer() {
    let m = gm("4f2a", "hi all", 42, "text", "lobby");
    let mine = encode_group(&m);
    let theirs = postcard::to_allocvec(&(
        m.id.clone(),
        m.content.clone(),
        m.timestamp,
        m.message_type.clone(),
        m.group_id.clone(),
    ))
    .unwrap();
    assert_eq!(mine, theirs);
}

#[test]
fn reference_deserializer_reads_my_group_bytes() {
    let m = gm("77", "ping", 5, "text", "lobby");
    let mine = encode_group(&m);
    let (id, content, ts, mt, gid): (String, String, i64, String, String) =
        postcard::from_bytes(&mine).unwrap();
    assert_eq!(id, "77");
    assert_eq!(content, "ping");
    assert_eq!(ts, 5);
    assert_eq!(mt, "text");
    assert_eq!(gid, "lobby");
}

#[test]
fn ack_encoding_matches_reference() {
    assert_eq!(AckResponse::success().to_bytes(), vec![1u8]);
    assert_eq!(encode_ack(false), vec![0u8]);
    let theirs = postcard::to_allocvec(&true).unwrap();
    assert_eq!(AckResponse::success().to_bytes(), theirs);
}

#[test]
fn ack_decode_accepts_exactly_the_encodings() {
    assert_eq!(decode_ack(&vec![1u8]), Some(true));
    assert_eq!(decode_ack(&vec![0u8]), Some(false));
    assert_eq!(decode_ack(&vec![2u8]), None);
    assert_eq!(decode_ack(&vec![]), None);
    assert_eq!(decode_ack(&vec![1u8, 0u8]), None);
}

#[test]
fn decode_rejects_malformed_bytes() {
    assert_eq!(decode_direct(&vec![]), None);
    assert_eq!(decode_direct(&b"name@prefix: hello".to_vec()), None);
    // truncated: length prefix promises more bytes than there are
    assert_eq!(decode_direct(&vec![5, b'a', b'b']), None);
    // invalid UTF-8 in a string field
    assert_eq!(decode_direct(&vec![2, 0xff, 0xfe]), None);
    assert_eq!(decode_group(&vec![0x80]), None);
}

#[test]
fn decode_rejects_trailing_bytes() {
    let m = dm("a", "b", 1, "text");
    let mut bytes = encode_direct(&m);
    bytes.push(0);
    assert_eq!(decode_direct(&bytes), None);
}

#[test]
fn constructors_produce_decodable_messages() {
    let m = DirectMessage::new("payload", MessageType::ProfileUpdate);
    assert_eq!(m.message_type, "profileUpdate");
    let bytes = encode_direct(&m);
    assert_eq!(decode_direct(&bytes).unwrap(), m);
    let g = GroupMessage::text("hi", "lobby");
    assert_eq!(g.message_type, "text");
    assert_eq!(g.group_id, "lobby");
    let gb = encode_group(&g);
    assert_eq!(decode_group(&gb).unwrap(), g);
}
