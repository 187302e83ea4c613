use six7::chat::{
    interpret_contact_response, interpret_dm_response, legacy_ack_bytes, outgoing_room_line,
    parse_bootstrap_parts, parse_command, process_direct_request, process_group_message,
    room_topic, validate_identity, BootstrapError, Command,
};
use six7::msg::{AckResponse, DirectMessage, GroupMessage};
use six7::registry::PeerRegistry;
use six7::wire::{encode_direct, encode_group};
use six7::MAX_MESSAGE_SIZE_BYTES;

const ALICE_ID: &str = "aaaabbbbccccddddeeeeffff0000111122223333444455556666777788889999";
const BOB_ID: &str = "9999888877776666555544443333222211110000ffffeeeeddddccccbbbbaaaa";

#[test]
fn oversized_group_payload_is_dropped() {
    let mut reg = PeerRegistry::new();
    let data = vec![0u8; MAX_MESSAGE_SIZE_BYTES + 1];
    let r = process_group_message("lobby", BOB_ID, "chat/lobby", ALICE_ID, &data, &mut reg);
    assert_eq!(r, None);
    assert_eq!(reg.len(), 0);
}

#[test]
fn oversized_direct_payload_gets_no_reply() {
    let data = vec![0u8; MAX_MESSAGE_SIZE_BYTES + 1];
    assert!(process_direct_request(ALICE_ID, &data).is_none());
    let just_fits = vec![b'x'; MAX_MESSAGE_SIZE_BYTES];
    assert!(process_direct_request(ALICE_ID, &just_fits).is_some());
}

#[test]
fn foreign_topic_and_self_echo_are_dropped() {
    let mut reg = PeerRegistry::new();
    let msg = encode_group(&GroupMessage::text("hi", "lobby"));
    let wrong_topic =
        process_group_message("lobby", BOB_ID, "chat/other", ALICE_ID, &msg, &mut reg);
    assert_eq!(wrong_topic, None);
    let self_echo = process_group_message("lobby", BOB_ID, "chat/lobby", BOB_ID, &msg, &mut reg);
    assert_eq!(self_echo, None);
    assert_eq!(reg.len(), 0);
}

#[test]
fn structured_group_message_renders_and_registers() {
    let mut reg = PeerRegistry::new();
    let msg = encode_group(&GroupMessage::text("hi", "lobby"));
    let line = process_group_message("lobby", BOB_ID, "chat/lobby", ALICE_ID, &msg, &mut reg)
        .expect("accepted");
    // nothing known about the sender yet: the prefix stands in for the name
    assert_eq!(line, "aaaabbbb@aaaabbbb: hi");
    assert_eq!(reg.lookup("aaaabbbb").as_deref(), Some("aaaabbbb"));
}

#[test]
fn legacy_group_message_extracts_name() {
    let mut reg = PeerRegistry::new();
    let data = b"alice@aaaabbbb: hello all".to_vec();
    let line = process_group_message("lobby", BOB_ID, "chat/lobby", ALICE_ID, &data, &mut reg)
        .expect("accepted");
    assert_eq!(line, "alice@aaaabbbb: hello all");
    assert_eq!(reg.lookup("aaaabbbb").as_deref(), Some("alice"));
}

#[test]
fn two_nodes_in_lobby_exchange_broadcast_and_dm() {
    // A and B are both subscribed to room "lobby". A is already known to B
    // by name from an earlier legacy greeting; then A broadcasts "hi".
    let mut b_registry = PeerRegistry::new();
    let hello = b"alice@aaaabbbb: hello".to_vec();
    process_group_message("lobby", BOB_ID, "chat/lobby", ALICE_ID, &hello, &mut b_registry)
        .expect("accepted");
    let broadcast = encode_group(&GroupMessage::text("hi", "lobby"));
    let line =
        process_group_message("lobby", BOB_ID, "chat/lobby", ALICE_ID, &broadcast, &mut b_registry)
            .expect("accepted");
    assert_eq!(line, "alice@aaaabbbb: hi");
    assert_eq!(b_registry.lookup("aaaabbbb").as_deref(), Some("alice"));

    // A sends a direct message to B; B replies with the structured
    // acknowledgment, which A's dispatcher reads as confirmed.
    let dm = encode_direct(&DirectMessage::text("hello"));
    let handled = process_direct_request(ALICE_ID, &dm).expect("one reply owed");
    assert_eq!(handled.from_short, "aaaabbbb");
    assert_eq!(handled.body, " hello");
    assert_eq!(handled.reply, AckResponse::success().to_bytes());
    assert!(interpret_dm_response(&handled.reply));
}

#[test]
fn contact_request_round_trip() {
    // A sends a contact request carrying "Alice"; B tags it, acknowledges
    // with ack=true, and A's dispatcher reads the structured acknowledgment.
    let req = DirectMessage::contact_request("Alice");
    let bytes = encode_direct(&req);
    let handled = process_direct_request(ALICE_ID, &bytes).expect("one reply owed");
    assert_eq!(handled.body, " [contact request] Alice");
    assert_eq!(handled.reply, AckResponse::success().to_bytes());
    assert!(interpret_contact_response(&handled.reply));
}

#[test]
fn direct_request_tags_by_kind() {
    let mk = |mt: &str, content: &str| {
        encode_direct(&DirectMessage {
            id: "x".to_string(),
            content: content.to_string(),
            timestamp: 1,
            message_type: mt.to_string(),
        })
    };
    let tagged = |mt: &str, content: &str| {
        process_direct_request(ALICE_ID, &mk(mt, content)).unwrap().body
    };
    assert_eq!(tagged("text", "hi"), " hi");
    assert_eq!(tagged("contactAccepted", "Bob"), " [contact accepted] Bob");
    assert_eq!(tagged("readReceipt", "a,b"), " [read receipt] a,b");
    assert_eq!(tagged("groupInvite", "{}"), " [group invite] {}");
    assert_eq!(tagged("vibe", "v"), " [vibe] v");
    assert_eq!(tagged("profileUpdate", "p"), " [profile update] p");
    // an unrecognised tag is preserved, bracketed, never rejected
    assert_eq!(tagged("hologram", "hi"), " [hologram] hi");
}

#[test]
fn undecodable_direct_payload_gets_legacy_reply() {
    let data = b"plain old text".to_vec();
    let handled = process_direct_request(ALICE_ID, &data).expect("one reply owed");
    assert_eq!(handled.body, " plain old text");
    assert_eq!(handled.reply, b"received".to_vec());
    assert_eq!(handled.reply, legacy_ack_bytes());
}

#[test]
fn short_sender_identities_are_handled() {
    // identities shorter than the prefix length use their full length
    let mut reg = PeerRegistry::new();
    let msg = encode_group(&GroupMessage::text("yo", "lobby"));
    let line = process_group_message("lobby", BOB_ID, "chat/lobby", "ab", &msg, &mut reg)
        .expect("accepted");
    assert_eq!(line, "ab@ab: yo");
    assert_eq!(reg.lookup("ab").as_deref(), Some("ab"));
    let handled = process_direct_request("xyz", &b"hi".to_vec()).expect("one reply owed");
    assert_eq!(handled.from_short, "xyz");
}

#[test]
fn response_interpretation() {
    assert!(interpret_dm_response(&AckResponse::success().to_bytes()));
    assert!(interpret_dm_response(&b"received".to_vec()));
    assert!(!interpret_dm_response(&vec![0u8]));
    assert!(!interpret_dm_response(&b"whatever".to_vec()));
    assert!(interpret_contact_response(&vec![1u8]));
    assert!(!interpret_contact_response(&b"received".to_vec()));
    assert!(!interpret_contact_response(&vec![]));
}

#[test]
fn command_forms() {
    assert!(matches!(parse_command(""), Command::Empty));
    assert!(matches!(parse_command("/quit"), Command::Quit));
    assert!(matches!(parse_command("/help"), Command::Help));
    assert!(matches!(parse_command("/peers"), Command::Peers));
    assert!(matches!(parse_command("/list"), Command::List));
    assert!(matches!(parse_command("/telemetry"), Command::Telemetry));
    assert!(matches!(parse_command("/bogus"), Command::Unknown));
    assert!(matches!(parse_command("/dm"), Command::Unknown));
    match parse_command("hello room") {
        Command::Broadcast { message } => assert_eq!(message, "hello room"),
        other => panic!("expected broadcast, got {other:?}"),
    }
}

#[test]
fn dm_command_validation() {
    match parse_command(&format!("/dm {ALICE_ID} hi you")) {
        Command::Dm { identity, message } => {
            assert_eq!(identity, ALICE_ID);
            assert_eq!(message, "hi you");
        },
        other => panic!("expected dm, got {other:?}"),
    }
    assert!(matches!(parse_command("/dm onlyidentity"), Command::DmUsage));
    // identity of the wrong length is rejected before any network call
    assert!(matches!(parse_command("/dm abc123 hi"), Command::DmBadIdentity));
    // identity with a non-hex character is rejected before any network call
    let bad = format!("/dm {} hi", ALICE_ID.replace('a', "g"));
    assert!(matches!(parse_command(&bad), Command::DmBadIdentity));
    let huge = format!("/dm {ALICE_ID} {}", "x".repeat(MAX_MESSAGE_SIZE_BYTES + 1));
    assert!(matches!(parse_command(&huge), Command::DmTooLarge));
}

#[test]
fn contact_command_validation() {
    match parse_command(&format!("/contact {BOB_ID}")) {
        Command::Contact { identity } => assert_eq!(identity, BOB_ID),
        other => panic!("expected contact, got {other:?}"),
    }
    assert!(matches!(parse_command("/contact tooshort"), Command::ContactBadIdentity));
}

#[test]
fn broadcast_size_limit() {
    let huge = "y".repeat(MAX_MESSAGE_SIZE_BYTES + 1);
    assert!(matches!(parse_command(&huge), Command::BroadcastTooLarge));
    let fits = "y".repeat(MAX_MESSAGE_SIZE_BYTES);
    assert!(matches!(parse_command(&fits), Command::Broadcast { .. }));
}

#[test]
fn identity_validation() {
    assert!(validate_identity(ALICE_ID));
    assert!(validate_identity(&ALICE_ID.to_uppercase()));
    assert!(!validate_identity(&ALICE_ID[..63]));
    assert!(!validate_identity(&format!("{}z", &ALICE_ID[..63])));
    assert!(!validate_identity(""));
}

#[test]
fn topic_and_outgoing_line() {
    assert_eq!(room_topic("lobby"), "chat/lobby");
    assert_eq!(
        outgoing_room_line("alice", ALICE_ID, "hi"),
        "alice@aaaabbbb: hi"
    );
    assert_eq!(
        outgoing_room_line("bob", "short", "x\u{1b}y"),
        "bob@short: xy"
    );
}

#[test]
fn bootstrap_parsing() {
    match parse_bootstrap_parts(&format!("203.0.113.5:4500/{ALICE_ID}")) {
        Ok((identity, addr)) => {
            assert_eq!(identity, ALICE_ID);
            assert_eq!(addr, "203.0.113.5:4500");
        },
        Err(e) => panic!("expected ok, got {e:?}"),
    }
    assert_eq!(
        parse_bootstrap_parts("no-slash-here"),
        Err(BootstrapError::BadFormat)
    );
    assert_eq!(
        parse_bootstrap_parts("addr/deadbeef"),
        Err(BootstrapError::BadLength)
    );
    let bad = format!("addr/{}", ALICE_ID.replace('a', "z"));
    assert_eq!(parse_bootstrap_parts(&bad), Err(BootstrapError::NotHex));
}
