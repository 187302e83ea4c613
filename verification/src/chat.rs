//! Decision logic of the chat client: what the pub/sub consumer and the
//! direct-message consumer do with each inbound item, how an operator line is
//! parsed into a command, and how the response to an outgoing direct message
//! is judged. The surrounding application performs the waiting, sending and
//! printing; everything it needs to decide is computed here from plain
//! values.

use vstd::prelude::*;
use vstd::string::StringExecFns;
use vstd::slice::slice_to_vec;
use vstd::utf8::encode_utf8;
use crate::ext::{lossy_utf8, utf8_lossy};
use crate::registry::{PeerRegistry, spec_observe};
use crate::text::{
    extract_legacy_name, id_prefix8, sanitize_text, spec_legacy_name, spec_prefix8,
    spec_sanitize, spec_find_char, find_char, lemma_find_char_props,
};
use crate::wire::{
    decode_ack, decode_direct, decode_group, encode_ack, spec_dec_direct, spec_dec_group,
    spec_enc_ack,
};
use crate::{MAX_IDENTITY_LENGTH, MAX_MESSAGE_SIZE_BYTES};

verus! {

/// The wire topic of a chat room: the fixed prefix and the room name.
pub open spec fn spec_room_topic(room: Seq<char>) -> Seq<char> {
    "chat/"@ + room
}

/// The wire topic of a chat room.
pub fn room_topic(room: &str) -> (r: String)
    ensures
        r@ == spec_room_topic(room@),
{
    let mut t = String::from_str("chat/");
    t.append(room);
    t
}

/// Whether the pub/sub consumer accepts an inbound topic message: the
/// payload is within the size limit, the topic is the subscribed room's, and
/// the authenticated sender is not this node itself.
pub open spec fn spec_group_accepted(
    room: Seq<char>,
    my_identity: Seq<char>,
    topic: Seq<char>,
    sender: Seq<char>,
    data: Seq<u8>,
) -> bool {
    data.len() <= MAX_MESSAGE_SIZE_BYTES && topic == spec_room_topic(room)
        && sender != my_identity
}

/// The display name under which an accepted group message is shown and
/// recorded: for a structured message, the name already registered for the
/// sender's prefix, or the prefix itself; for legacy text, the name the
/// legacy shape carries, with the prefix as fallback.
pub open spec fn spec_group_sender_name(
    reg: Map<Seq<char>, Seq<char>>,
    sender: Seq<char>,
    data: Seq<u8>,
) -> Seq<char> {
    let pfx = spec_prefix8(sender);
    match spec_dec_group(data) {
        Some(_) => if reg.contains_key(pfx) {
            reg[pfx]
        } else {
            pfx
        },
        None => spec_legacy_name(lossy_utf8(data), pfx),
    }
}

/// The room line that an accepted group message renders to, already
/// sanitised for display.
pub open spec fn spec_group_line(
    reg: Map<Seq<char>, Seq<char>>,
    sender: Seq<char>,
    data: Seq<u8>,
) -> Seq<char> {
    match spec_dec_group(data) {
        Some(v) => spec_sanitize(
            spec_group_sender_name(reg, sender, data) + "@"@ + spec_prefix8(sender) + ": "@
                + v.content,
        ),
        None => spec_sanitize(lossy_utf8(data)),
    }
}

/// Process one inbound pub/sub message. An oversized payload, a foreign
/// topic or this node's own echo is dropped without decoding and without
/// touching the registry. Anything else is decoded — structured first, then
/// as legacy text — the sender's name is recorded first-seen-wins, and the
/// line to display is returned.
pub fn process_group_message(
    room: &str,
    my_identity: &str,
    topic: &str,
    sender: &str,
    data: &Vec<u8>,
    peers: &mut PeerRegistry,
) -> (r: Option<String>)
    requires
        old(peers).wf(),
    ensures
        final(peers).wf(),
        !spec_group_accepted(room@, my_identity@, topic@, sender@, data@)
            ==> r is None && final(peers)@ == old(peers)@,
        spec_group_accepted(room@, my_identity@, topic@, sender@, data@)
            ==> (r matches Some(line)
                && line@ == spec_group_line(old(peers)@, sender@, data@)
                && final(peers)@ == spec_observe(
                    old(peers)@,
                    spec_prefix8(sender@),
                    spec_group_sender_name(old(peers)@, sender@, data@),
                )),
{
    if data.len() > MAX_MESSAGE_SIZE_BYTES {
        return None;
    }
    let rt = room_topic(room);
    let tp: String = topic.to_owned();
    if !rt.eq(&tp) {
        return None;
    }
    let snd: String = sender.to_owned();
    let me: String = my_identity.to_owned();
    if snd.eq(&me) {
        return None;
    }
    let pfx = id_prefix8(sender);
    match decode_group(data) {
        Some(gm) => {
            let name = match peers.lookup(pfx.as_str()) {
                Some(n) => n,
                None => pfx.clone(),
            };
            let mut line = name.clone();
            line.append("@");
            line.append(pfx.as_str());
            line.append(": ");
            line.append(gm.content.as_str());
            let shown = sanitize_text(line.as_str());
            peers.observe(pfx.as_str(), name.as_str());
            Some(shown)
        },
        None => {
            let text = utf8_lossy(data);
            let name = extract_legacy_name(text.as_str(), pfx.as_str());
            let shown = sanitize_text(text.as_str());
            peers.observe(pfx.as_str(), name.as_str());
            Some(shown)
        },
    }
}

/// The bracketed annotation shown after the sender for each message type
/// tag: empty for plain text, a fixed label for the recognised tags, and the
/// tag itself in brackets for anything else.
pub open spec fn spec_tag_annotation(mt: Seq<char>) -> Seq<char> {
    if mt == "text"@ {
        Seq::empty()
    } else if mt == "contactRequest"@ {
        " [contact request]"@
    } else if mt == "contactAccepted"@ {
        " [contact accepted]"@
    } else if mt == "readReceipt"@ {
        " [read receipt]"@
    } else if mt == "groupInvite"@ {
        " [group invite]"@
    } else if mt == "vibe"@ {
        " [vibe]"@
    } else if mt == "profileUpdate"@ {
        " [profile update]"@
    } else {
        " ["@ + mt + "]"@
    }
}

fn tag_annotation(mt: &String) -> (r: String)
    ensures
        r@ == spec_tag_annotation(mt@),
{
    if mt.eq(&String::from_str("text")) {
        String::new()
    } else if mt.eq(&String::from_str("contactRequest")) {
        String::from_str(" [contact request]")
    } else if mt.eq(&String::from_str("contactAccepted")) {
        String::from_str(" [contact accepted]")
    } else if mt.eq(&String::from_str("readReceipt")) {
        String::from_str(" [read receipt]")
    } else if mt.eq(&String::from_str("groupInvite")) {
        String::from_str(" [group invite]")
    } else if mt.eq(&String::from_str("vibe")) {
        String::from_str(" [vibe]")
    } else if mt.eq(&String::from_str("profileUpdate")) {
        String::from_str(" [profile update]")
    } else {
        let mut s = String::from_str(" [");
        s.append(mt.as_str());
        s.append("]");
        s
    }
}

/// The plain bytes sent as acknowledgment to peers of the oldest protocol
/// generation, which do not understand the structured acknowledgment.
pub open spec fn spec_legacy_ack() -> Seq<u8> {
    encode_utf8("received"@)
}

/// The legacy acknowledgment token.
pub fn legacy_ack_bytes() -> (r: Vec<u8>)
    ensures
        r@ == spec_legacy_ack(),
{
    slice_to_vec("received".as_bytes())
}

/// What the direct-message consumer renders after the sender's short
/// identity: the type annotation and the sanitised content for a structured
/// message, the sanitised lossy text for anything else.
pub open spec fn spec_dm_body(data: Seq<u8>) -> Seq<char> {
    match spec_dec_direct(data) {
        Some(v) => spec_tag_annotation(v.message_type) + " "@ + spec_sanitize(v.content),
        None => " "@ + spec_sanitize(lossy_utf8(data)),
    }
}

/// What the direct-message consumer sends back: the structured success
/// acknowledgment for a structured message, the legacy token for anything
/// else.
pub open spec fn spec_dm_reply(data: Seq<u8>) -> Seq<u8> {
    match spec_dec_direct(data) {
        Some(_) => spec_enc_ack(true),
        None => spec_legacy_ack(),
    }
}

/// One handled inbound direct request: the sender's short identity and the
/// body, which the application renders, and the single reply owed on the
/// request's response channel.
pub struct DmHandled {
    pub from_short: String,
    pub body: String,
    pub reply: Vec<u8>,
}

/// Process one inbound direct request. An oversized payload is dropped
/// without a reply. Every other request yields exactly one reply — the
/// structured acknowledgment when the payload decodes as a direct message,
/// the legacy token when it does not — together with the line to render.
pub fn process_direct_request(sender: &str, data: &Vec<u8>) -> (r: Option<DmHandled>)
    ensures
        r is Some <==> data@.len() <= MAX_MESSAGE_SIZE_BYTES,
        r matches Some(h) ==> h.from_short@ == spec_prefix8(sender@)
            && h.body@ == spec_dm_body(data@)
            && h.reply@ == spec_dm_reply(data@),
{
    if data.len() > MAX_MESSAGE_SIZE_BYTES {
        return None;
    }
    let pfx = id_prefix8(sender);
    match decode_direct(data) {
        Some(dm) => {
            let mut body = tag_annotation(&dm.message_type);
            body.append(" ");
            let clean = sanitize_text(dm.content.as_str());
            body.append(clean.as_str());
            Some(DmHandled { from_short: pfx, body, reply: encode_ack(true) })
        },
        None => {
            let text = utf8_lossy(data);
            let mut body = String::from_str(" ");
            let clean = sanitize_text(text.as_str());
            body.append(clean.as_str());
            Some(DmHandled { from_short: pfx, body, reply: legacy_ack_bytes() })
        },
    }
}

/// True of a hex digit, either case.
pub open spec fn is_hex_char(c: char) -> bool {
    (48 <= (c as u32) && (c as u32) <= 57) || (97 <= (c as u32) && (c as u32) <= 102)
        || (65 <= (c as u32) && (c as u32) <= 70)
}

/// True of a well-formed peer identity: exactly 64 hex characters.
pub open spec fn spec_is_hex_identity(s: Seq<char>) -> bool {
    s.len() == MAX_IDENTITY_LENGTH && forall|i: int| 0 <= i < s.len()
        ==> is_hex_char(#[trigger] s[i])
}

/// Validate a peer identity before any network call: exactly 64 hex
/// characters.
pub fn validate_identity(s: &str) -> (r: bool)
    ensures
        r == spec_is_hex_identity(s@),
{
    let len = s.unicode_len();
    if len != MAX_IDENTITY_LENGTH {
        return false;
    }
    let mut i: usize = 0;
    while i < len
        invariant
            len == s@.len(),
            i <= len,
            forall|j: int| 0 <= j < i ==> is_hex_char(#[trigger] s@[j]),
        decreases len - i,
    {
        let c = s.get_char(i);
        let u = c as u32;
        let ok = (48 <= u && u <= 57) || (97 <= u && u <= 102) || (65 <= u && u <= 70);
        if !ok {
            return false;
        }
        i = i + 1;
    }
    true
}

/// One operator line, parsed. Every line maps to exactly one command;
/// rejected input carries its own variant so that the application reports it
/// without ever reaching the network.
#[derive(Debug)]
pub enum Command {
    /// `/quit`: end the dispatcher loop.
    Quit,
    /// `/help`: print usage.
    Help,
    /// `/peers`: print the registry snapshot.
    Peers,
    /// `/list`: render the transport's peer tables, read-only.
    List,
    /// `/telemetry`: render the transport's counters, read-only.
    Telemetry,
    /// `/dm` with a valid identity and a message within the size limit.
    Dm { identity: String, message: String },
    /// `/dm` without both an identity and a message.
    DmUsage,
    /// `/dm` whose message exceeds the size limit.
    DmTooLarge,
    /// `/dm` whose identity is not 64 hex characters.
    DmBadIdentity,
    /// `/contact` with a valid identity.
    Contact { identity: String },
    /// `/contact` whose identity is not 64 hex characters.
    ContactBadIdentity,
    /// Any other line starting with a slash.
    Unknown,
    /// A plain line within the size limit: broadcast to the room.
    Broadcast { message: String },
    /// A plain line exceeding the size limit.
    BroadcastTooLarge,
    /// An empty line: nothing to do.
    Empty,
}

/// Mathematical content of a parsed command.
pub enum CommandView {
    Quit,
    Help,
    Peers,
    List,
    Telemetry,
    Dm { identity: Seq<char>, message: Seq<char> },
    DmUsage,
    DmTooLarge,
    DmBadIdentity,
    Contact { identity: Seq<char> },
    ContactBadIdentity,
    Unknown,
    Broadcast { message: Seq<char> },
    BroadcastTooLarge,
    Empty,
}

impl View for Command {
    type V = CommandView;

    open spec fn view(&self) -> CommandView {
        match self {
            Command::Quit => CommandView::Quit,
            Command::Help => CommandView::Help,
            Command::Peers => CommandView::Peers,
            Command::List => CommandView::List,
            Command::Telemetry => CommandView::Telemetry,
            Command::Dm { identity, message } => CommandView::Dm {
                identity: identity@,
                message: message@,
            },
            Command::DmUsage => CommandView::DmUsage,
            Command::DmTooLarge => CommandView::DmTooLarge,
            Command::DmBadIdentity => CommandView::DmBadIdentity,
            Command::Contact { identity } => CommandView::Contact { identity: identity@ },
            Command::ContactBadIdentity => CommandView::ContactBadIdentity,
            Command::Unknown => CommandView::Unknown,
            Command::Broadcast { message } => CommandView::Broadcast { message: message@ },
            Command::BroadcastTooLarge => CommandView::BroadcastTooLarge,
            Command::Empty => CommandView::Empty,
        }
    }
}

/// What one trimmed operator line means. The forms are mutually exclusive
/// and tested in this order; an identity is validated, and a message's byte
/// length is held to the size limit, before anything reaches the network.
pub open spec fn spec_parse_command(line: Seq<char>) -> CommandView {
    if line.len() == 0 {
        CommandView::Empty
    } else if line == "/quit"@ {
        CommandView::Quit
    } else if line == "/help"@ {
        CommandView::Help
    } else if line == "/peers"@ {
        CommandView::Peers
    } else if line == "/list"@ {
        CommandView::List
    } else if line == "/telemetry"@ {
        CommandView::Telemetry
    } else if line.len() >= 4 && line.subrange(0, 4) == "/dm "@ {
        let rest = line.subrange(4, line.len() as int);
        match spec_find_char(rest, ' ') {
            None => CommandView::DmUsage,
            Some(k) => {
                let identity = rest.subrange(0, k);
                let message = rest.subrange(k + 1, rest.len() as int);
                if encode_utf8(message).len() > MAX_MESSAGE_SIZE_BYTES {
                    CommandView::DmTooLarge
                } else if !spec_is_hex_identity(identity) {
                    CommandView::DmBadIdentity
                } else {
                    CommandView::Dm { identity, message }
                }
            },
        }
    } else if line.len() >= 9 && line.subrange(0, 9) == "/contact "@ {
        let identity = line.subrange(9, line.len() as int);
        if !spec_is_hex_identity(identity) {
            CommandView::ContactBadIdentity
        } else {
            CommandView::Contact { identity }
        }
    } else if line[0] == '/' {
        CommandView::Unknown
    } else if encode_utf8(line).len() > MAX_MESSAGE_SIZE_BYTES {
        CommandView::BroadcastTooLarge
    } else {
        CommandView::Broadcast { message: line }
    }
}

fn str_eq_lit(s: &str, lit: &str) -> (r: bool)
    ensures
        r == (s@ == lit@),
{
    let a: String = s.to_owned();
    let b: String = lit.to_owned();
    a.eq(&b)
}

/// Parse one trimmed operator line.
pub fn parse_command(line: &str) -> (c: Command)
    ensures
        c@ == spec_parse_command(line@),
{
    let len = line.unicode_len();
    if len == 0 {
        return Command::Empty;
    }
    if str_eq_lit(line, "/quit") {
        return Command::Quit;
    }
    if str_eq_lit(line, "/help") {
        return Command::Help;
    }
    if str_eq_lit(line, "/peers") {
        return Command::Peers;
    }
    if str_eq_lit(line, "/list") {
        return Command::List;
    }
    if str_eq_lit(line, "/telemetry") {
        return Command::Telemetry;
    }
    if len >= 4 && str_eq_lit(line.substring_char(0, 4), "/dm ") {
        let rest = line.substring_char(4, len);
        match find_char(rest, ' ') {
            None => {
                return Command::DmUsage;
            },
            Some(k) => {
                proof {
                    lemma_find_char_props(rest@, ' ');
                }
                let identity = rest.substring_char(0, k).to_owned();
                let message = rest.substring_char(k + 1, len - 4).to_owned();
                let mb: &[u8] = message.as_str().as_bytes();
                proof {
                    vstd::slice::axiom_spec_len::<u8>(mb);
                }
                if mb.len() > MAX_MESSAGE_SIZE_BYTES {
                    return Command::DmTooLarge;
                }
                if !validate_identity(identity.as_str()) {
                    return Command::DmBadIdentity;
                }
                return Command::Dm { identity, message };
            },
        }
    }
    if len >= 9 && str_eq_lit(line.substring_char(0, 9), "/contact ") {
        let identity = line.substring_char(9, len).to_owned();
        if !validate_identity(identity.as_str()) {
            return Command::ContactBadIdentity;
        }
        return Command::Contact { identity };
    }
    if line.get_char(0) == '/' {
        return Command::Unknown;
    }
    let lb: &[u8] = line.as_bytes();
    proof {
        vstd::slice::axiom_spec_len::<u8>(lb);
    }
    if lb.len() > MAX_MESSAGE_SIZE_BYTES {
        return Command::BroadcastTooLarge;
    }
    Command::Broadcast { message: line.to_owned() }
}

/// Whether a direct-message response counts as confirmed delivery: the
/// structured acknowledgment with the flag set, or the recognised legacy
/// token. Anything else is ambiguous, never a hard failure.
pub open spec fn spec_dm_send_confirmed(resp: Seq<u8>) -> bool {
    resp == spec_enc_ack(true) || resp == spec_legacy_ack()
}

fn bytes_eq_legacy_ack(resp: &Vec<u8>) -> (r: bool)
    ensures
        r == (resp@ == spec_legacy_ack()),
{
    let lit: &[u8] = "received".as_bytes();
    let n = lit.len();
    if resp.len() != n {
        return false;
    }
    let mut i: usize = 0;
    while i < n
        invariant
            n == lit@.len(),
            resp@.len() == n,
            i <= n,
            lit@ == spec_legacy_ack(),
            forall|j: int| 0 <= j < i ==> resp@[j] == lit@[j],
        decreases n - i,
    {
        if resp[i] != *vstd::slice::slice_index_get(lit, i) {
            return false;
        }
        i = i + 1;
    }
    proof {
        assert(resp@ =~= lit@);
    }
    true
}

/// Judge the response to an outgoing `/dm`: confirmed exactly for the
/// structured success acknowledgment or the legacy token.
pub fn interpret_dm_response(resp: &Vec<u8>) -> (r: bool)
    ensures
        r == spec_dm_send_confirmed(resp@),
{
    match decode_ack(resp) {
        Some(true) => true,
        _ => {
            proof {
                if resp@ == spec_enc_ack(true) {
                    assert(false);
                }
            }
            bytes_eq_legacy_ack(resp)
        },
    }
}

/// Judge the response to an outgoing `/contact`: the structured success
/// acknowledgment means the peer understood it; anything else is treated as
/// a legacy peer, never a failure.
pub fn interpret_contact_response(resp: &Vec<u8>) -> (r: bool)
    ensures
        r == (resp@ == spec_enc_ack(true)),
{
    match decode_ack(resp) {
        Some(true) => true,
        _ => {
            proof {
                if resp@ == spec_enc_ack(true) {
                    assert(false);
                }
            }
            false
        },
    }
}

/// Why a bootstrap string was rejected.
#[derive(Debug, Clone, PartialEq, Eq, Structural)]
pub enum BootstrapError {
    /// No `/` between address and identity.
    BadFormat,
    /// The identity part is not exactly 64 characters.
    BadLength,
    /// The identity part carries a character that is not a hex digit.
    NotHex,
}

/// Split a bootstrap string of the shape `<address>/<identity-hex>` at its
/// first `/` and validate the identity: exactly 64 hex characters. Returns
/// (identity, address), as the transport expects them.
pub fn parse_bootstrap_parts(s: &str) -> (r: Result<(String, String), BootstrapError>)
    ensures
        ({
            match spec_find_char(s@, '/') {
                None => r == Err::<(String, String), BootstrapError>(BootstrapError::BadFormat),
                Some(i) => {
                    let identity = s@.subrange(i + 1, s@.len() as int);
                    if identity.len() != MAX_IDENTITY_LENGTH {
                        r == Err::<(String, String), BootstrapError>(BootstrapError::BadLength)
                    } else if !spec_is_hex_identity(identity) {
                        r == Err::<(String, String), BootstrapError>(BootstrapError::NotHex)
                    } else {
                        r matches Ok(p) && p.0@ == identity && p.1@ == s@.subrange(0, i)
                    }
                },
            }
        }),
{
    let len = s.unicode_len();
    match find_char(s, '/') {
        None => Err(BootstrapError::BadFormat),
        Some(i) => {
            proof {
                lemma_find_char_props(s@, '/');
            }
            let addr = s.substring_char(0, i).to_owned();
            let identity = s.substring_char(i + 1, len).to_owned();
            if identity.as_str().unicode_len() != MAX_IDENTITY_LENGTH {
                return Err(BootstrapError::BadLength);
            }
            if !validate_identity(identity.as_str()) {
                return Err(BootstrapError::NotHex);
            }
            Ok((identity, addr))
        },
    }
}

/// The locally echoed line for an outgoing broadcast, sanitised as rendered.
pub fn outgoing_room_line(name: &str, identity: &str, message: &str) -> (r: String)
    ensures
        r@ == spec_sanitize(name@ + "@"@ + spec_prefix8(identity@) + ": "@ + message@),
{
    let pfx = id_prefix8(identity);
    let mut line: String = name.to_owned();
    line.append("@");
    line.append(pfx.as_str());
    line.append(": ");
    line.append(message);
    sanitize_text(line.as_str())
}

} // verus!
