use six7::msg::{DirectMessage, GroupMessage, MessageType};
use six7::registry::PeerRegistry;
use six7::text::{dec_string, extract_legacy_name, id_prefix8, sanitize_text};

#[test]
fn registry_first_write_wins() {
    let mut reg = PeerRegistry::new();
    reg.observe("aabbccdd", "alice");
    reg.observe("aabbccdd", "alice");
    reg.observe("aabbccdd", "impostor");
    assert_eq!(reg.lookup("aabbccdd").as_deref(), Some("alice"));
    assert_eq!(reg.len(), 1);
}

#[test]
fn registry_lookup_missing() {
    let reg = PeerRegistry::new();
    assert_eq!(reg.lookup("deadbeef"), None);
    assert_eq!(reg.len(), 0);
}

#[test]
fn registry_clears_over_cap() {
    let mut reg = PeerRegistry::new();
    for i in 0..1001u32 {
        reg.observe(&format!("{i:08x}"), "peer");
    }
    assert_eq!(reg.len(), 1001);
    // the next insert finds the registry over the cap and clears it first
    reg.observe("ffffffff", "late");
    assert_eq!(reg.len(), 1);
    assert_eq!(reg.lookup("ffffffff").as_deref(), Some("late"));
    assert_eq!(reg.lookup("00000000"), None);
}

#[test]
fn registry_list_snapshot() {
    let mut reg = PeerRegistry::new();
    reg.observe("11111111", "one");
    reg.observe("22222222", "two");
    let mut pairs = reg.list();
    pairs.sort();
    assert_eq!(
        pairs,
        vec![
            ("11111111".to_string(), "one".to_string()),
            ("22222222".to_string(), "two".to_string())
        ]
    );
}

#[test]
fn sanitize_strips_control_characters() {
    assert_eq!(sanitize_text("plain"), "plain");
    assert_eq!(sanitize_text("a\u{1b}[31mred\u{7}"), "a[31mred");
    assert_eq!(sanitize_text("keep\nnewline\tand tab"), "keep\nnewline\tand tab");
    assert_eq!(sanitize_text("\u{0}\u{1f}\u{7f}\u{9f}"), "");
    assert_eq!(sanitize_text("\u{a0}ok"), "\u{a0}ok");
}

#[test]
fn decimal_rendering() {
    assert_eq!(dec_string(0), "0");
    assert_eq!(dec_string(7), "7");
    assert_eq!(dec_string(1714000000123), "1714000000123");
    assert_eq!(dec_string(u64::MAX), "18446744073709551615");
}

#[test]
fn legacy_name_extraction() {
    assert_eq!(extract_legacy_name("bob@12345678: hi there", "fallback"), "bob");
    assert_eq!(extract_legacy_name("no separator here", "fallback"), "fallback");
    assert_eq!(extract_legacy_name("colon: but no at sign", "fallback"), "fallback");
    // the first ": " decides, and the first '@' before it
    assert_eq!(extract_legacy_name("a@b@c: x: y", "fallback"), "a");
    assert_eq!(extract_legacy_name("", "12345678"), "12345678");
}

#[test]
fn identity_prefix() {
    assert_eq!(id_prefix8("abcdefabcdef"), "abcdefab");
    assert_eq!(id_prefix8("short"), "short");
    assert_eq!(id_prefix8(""), "");
}

#[test]
fn direct_message_constructors() {
    let m = DirectMessage::text("hello");
    assert_eq!(m.content, "hello");
    assert_eq!(m.message_type, "text");
    assert_eq!(m.id.len(), 32);
    assert!(m.id.chars().all(|c| c.is_ascii_hexdigit() && !c.is_ascii_uppercase()));
    assert!(m.timestamp >= 0);

    let c = DirectMessage::contact_request("Alice");
    assert_eq!(c.content, "Alice");
    assert_eq!(c.message_type, "contactRequest");

    let a = DirectMessage::contact_accepted("Bob");
    assert_eq!(a.content, "Bob");
    assert_eq!(a.message_type, "contactAccepted");

    let two = DirectMessage::text("x");
    let other = DirectMessage::text("x");
    assert_ne!(two.id, other.id, "identifiers are drawn at random");
}

#[test]
fn read_receipt_shape() {
    let r = DirectMessage::read_receipt(&["id1", "id2", "id3"]);
    assert_eq!(r.content, "id1,id2,id3");
    assert_eq!(r.message_type, "readReceipt");
    assert_eq!(r.id, format!("rr-{}", r.timestamp));
    let empty = DirectMessage::read_receipt(&[]);
    assert_eq!(empty.content, "");
    let one = DirectMessage::read_receipt(&["only"]);
    assert_eq!(one.content, "only");
}

#[test]
fn group_message_constructor() {
    let g = GroupMessage::new("content", MessageType::Location, "room");
    assert_eq!(g.content, "content");
    assert_eq!(g.message_type, "location");
    assert_eq!(g.group_id, "room");
    assert_eq!(g.id.len(), 32);
}

#[test]
fn message_type_tags() {
    assert_eq!(MessageType::Text.tag(), "text");
    assert_eq!(MessageType::Image.tag(), "image");
    assert_eq!(MessageType::Video.tag(), "video");
    assert_eq!(MessageType::Audio.tag(), "audio");
    assert_eq!(MessageType::Document.tag(), "document");
    assert_eq!(MessageType::Location.tag(), "location");
    assert_eq!(MessageType::Contact.tag(), "contact");
    assert_eq!(MessageType::GroupInvite.tag(), "groupInvite");
    assert_eq!(MessageType::ContactRequest.tag(), "contactRequest");
    assert_eq!(MessageType::ContactAccepted.tag(), "contactAccepted");
    assert_eq!(MessageType::Vibe.tag(), "vibe");
    assert_eq!(MessageType::ReadReceipt.tag(), "readReceipt");
    assert_eq!(MessageType::ProfileUpdate.tag(), "profileUpdate");
}
