//! The message protocol's data model: message types with their wire tags, the
//! direct and group chat records, the acknowledgment record, and the payloads
//! carried inside message content.

use vstd::prelude::*;
use vstd::slice::slice_index_get;
use vstd::string::StringExecFns;
use std::collections::HashMap;
use crate::ext::{current_timestamp_ms, push_char, random_bytes_16, hex_lower};
use crate::text::{spec_dec, dec_string, is_hex_lower_char, lemma_hex_lower_chars};

verus! {

/// Message types of the protocol. Each has a canonical lowercase-camel tag
/// used on the wire; tags that no variant covers travel as plain strings and
/// are preserved, never rejected.
#[derive(Debug, Clone, PartialEq, Eq, Structural)]
pub enum MessageType {
    Text,
    Image,
    Video,
    Audio,
    Document,
    Location,
    Contact,
    GroupInvite,
    ContactRequest,
    ContactAccepted,
    Vibe,
    ReadReceipt,
    ProfileUpdate,
}

impl MessageType {
    /// The canonical wire tag of this message type.
    pub open spec fn spec_tag(self) -> Seq<char> {
        match self {
            MessageType::Text => "text"@,
            MessageType::Image => "image"@,
            MessageType::Video => "video"@,
            MessageType::Audio => "audio"@,
            MessageType::Document => "document"@,
            MessageType::Location => "location"@,
            MessageType::Contact => "contact"@,
            MessageType::GroupInvite => "groupInvite"@,
            MessageType::ContactRequest => "contactRequest"@,
            MessageType::ContactAccepted => "contactAccepted"@,
            MessageType::Vibe => "vibe"@,
            MessageType::ReadReceipt => "readReceipt"@,
            MessageType::ProfileUpdate => "profileUpdate"@,
        }
    }

    /// The canonical wire tag of this message type.
    pub fn tag(&self) -> (r: String)
        ensures
            r@ == self.spec_tag(),
    {
        match self {
            MessageType::Text => String::from_str("text"),
            MessageType::Image => String::from_str("image"),
            MessageType::Video => String::from_str("video"),
            MessageType::Audio => String::from_str("audio"),
            MessageType::Document => String::from_str("document"),
            MessageType::Location => String::from_str("location"),
            MessageType::Contact => String::from_str("contact"),
            MessageType::GroupInvite => String::from_str("groupInvite"),
            MessageType::ContactRequest => String::from_str("contactRequest"),
            MessageType::ContactAccepted => String::from_str("contactAccepted"),
            MessageType::Vibe => String::from_str("vibe"),
            MessageType::ReadReceipt => String::from_str("readReceipt"),
            MessageType::ProfileUpdate => String::from_str("profileUpdate"),
        }
    }
}

/// True of a freshly generated message identifier: 32 lowercase hex
/// characters, the rendering of a random 128-bit value.
pub open spec fn is_hex_id(s: Seq<char>) -> bool {
    s.len() == 32 && forall|i: int| 0 <= i < 32 ==> is_hex_lower_char(#[trigger] s[i])
}

/// Generate a random 128-bit identifier rendered as lowercase hex.
pub(crate) fn random_hex_id() -> (r: String)
    ensures
        is_hex_id(r@),
{
    let b = random_bytes_16();
    let s = hex_lower(&b);
    proof {
        lemma_hex_lower_chars(b@);
    }
    s
}

/// Mathematical content of a direct message.
#[verifier::ext_equal]
pub struct DirectMessageView {
    pub id: Seq<char>,
    pub content: Seq<char>,
    pub timestamp: int,
    pub message_type: Seq<char>,
}

/// A 1:1 direct chat message. The sender identity is authenticated by the
/// transport layer and never taken from the payload.
#[derive(Debug, Clone, PartialEq)]
pub struct DirectMessage {
    /// Unique message identifier: 32 lowercase hex characters when generated
    /// here, except read receipts, whose identifier is derived from the
    /// timestamp.
    pub id: String,
    /// Message content.
    pub content: String,
    /// Unix epoch milliseconds.
    pub timestamp: i64,
    /// Wire tag of the message type.
    pub message_type: String,
}

impl View for DirectMessage {
    type V = DirectMessageView;

    open spec fn view(&self) -> DirectMessageView {
        DirectMessageView {
            id: self.id@,
            content: self.content@,
            timestamp: self.timestamp as int,
            message_type: self.message_type@,
        }
    }
}

/// The comma-joined rendering of a sequence of identifiers.
pub open spec fn spec_join_ids(xs: Seq<Seq<char>>) -> Seq<char>
    decreases xs.len(),
{
    if xs.len() == 0 {
        Seq::empty()
    } else if xs.len() == 1 {
        xs[0]
    } else {
        xs[0] + seq![','] + spec_join_ids(xs.drop_first())
    }
}

proof fn lemma_join_ids_push(xs: Seq<Seq<char>>, y: Seq<char>)
    ensures
        xs.len() == 0 ==> spec_join_ids(xs.push(y)) == y,
        xs.len() > 0 ==> spec_join_ids(xs.push(y)) =~= spec_join_ids(xs) + seq![','] + y,
    decreases xs.len(),
{
    if xs.len() == 0 {
        assert(xs.push(y)[0] == y);
    } else if xs.len() == 1 {
        assert(xs.push(y).drop_first() =~= seq![y]);
        assert(spec_join_ids(seq![y]) == y);
    } else {
        assert(xs.push(y).drop_first() =~= xs.drop_first().push(y));
        lemma_join_ids_push(xs.drop_first(), y);
    }
}

impl DirectMessage {
    /// Build a message of the given type: fresh random identifier, the
    /// current clock reading, the content as given, the type's wire tag.
    pub fn new(content: &str, message_type: MessageType) -> (r: Self)
        ensures
            is_hex_id(r.id@),
            r.content@ == content@,
            r.timestamp >= 0,
            r.message_type@ == message_type.spec_tag(),
    {
        DirectMessage {
            id: random_hex_id(),
            content: content.to_owned(),
            timestamp: current_timestamp_ms(),
            message_type: message_type.tag(),
        }
    }

    /// A plain text message.
    pub fn text(content: &str) -> (r: Self)
        ensures
            is_hex_id(r.id@),
            r.content@ == content@,
            r.timestamp >= 0,
            r.message_type@ == MessageType::Text.spec_tag(),
    {
        Self::new(content, MessageType::Text)
    }

    /// A contact request carrying the sender's display name.
    pub fn contact_request(display_name: &str) -> (r: Self)
        ensures
            is_hex_id(r.id@),
            r.content@ == display_name@,
            r.timestamp >= 0,
            r.message_type@ == MessageType::ContactRequest.spec_tag(),
    {
        Self::new(display_name, MessageType::ContactRequest)
    }

    /// A contact acceptance carrying the sender's display name.
    pub fn contact_accepted(display_name: &str) -> (r: Self)
        ensures
            is_hex_id(r.id@),
            r.content@ == display_name@,
            r.timestamp >= 0,
            r.message_type@ == MessageType::ContactAccepted.spec_tag(),
    {
        Self::new(display_name, MessageType::ContactAccepted)
    }

    /// A read receipt: its identifier is deterministically derived from the
    /// timestamp, and its content is the comma-joined list of the referenced
    /// message identifiers.
    pub fn read_receipt(message_ids: &[&str]) -> (r: Self)
        ensures
            r.timestamp >= 0,
            r.id@ == "rr-"@ + spec_dec(r.timestamp as nat),
            r.content@ == spec_join_ids(message_ids.deep_view()),
            r.message_type@ == MessageType::ReadReceipt.spec_tag(),
    {
        let ts = current_timestamp_ms();
        let mut id = String::from_str("rr-");
        let num = dec_string(ts as u64);
        id.append(num.as_str());
        let n = message_ids.len();
        let mut content = String::new();
        let mut i: usize = 0;
        while i < n
            invariant
                n == message_ids@.len(),
                message_ids.deep_view().len() == n,
                i <= n,
                content@ == spec_join_ids(message_ids.deep_view().take(i as int)),
            decreases n - i,
        {
            proof {
                lemma_join_ids_push(
                    message_ids.deep_view().take(i as int),
                    message_ids.deep_view()[i as int],
                );
                assert(message_ids.deep_view().take(i + 1)
                    =~= message_ids.deep_view().take(i as int).push(message_ids.deep_view()[i as int]));
            }
            if i > 0 {
                push_char(&mut content, ',');
            }
            let s: &&str = slice_index_get(message_ids, i);
            content.append(*s);
            i = i + 1;
        }
        proof {
            assert(message_ids.deep_view().take(n as int) =~= message_ids.deep_view());
        }
        DirectMessage { id, content, timestamp: ts, message_type: MessageType::ReadReceipt.tag() }
    }
}

/// Mathematical content of a group message.
#[verifier::ext_equal]
pub struct GroupMessageView {
    pub id: Seq<char>,
    pub content: Seq<char>,
    pub timestamp: int,
    pub message_type: Seq<char>,
    pub group_id: Seq<char>,
}

/// A group chat message, broadcast over the room's topic. The sender identity
/// is authenticated by the transport layer and never taken from the payload.
#[derive(Debug, Clone, PartialEq)]
pub struct GroupMessage {
    /// Unique message identifier: 32 lowercase hex characters when generated
    /// here.
    pub id: String,
    /// Message content.
    pub content: String,
    /// Unix epoch milliseconds.
    pub timestamp: i64,
    /// Wire tag of the message type.
    pub message_type: String,
    /// Identifier of the logical group (distinct from the raw topic string).
    pub group_id: String,
}

impl View for GroupMessage {
    type V = GroupMessageView;

    open spec fn view(&self) -> GroupMessageView {
        GroupMessageView {
            id: self.id@,
            content: self.content@,
            timestamp: self.timestamp as int,
            message_type: self.message_type@,
            group_id: self.group_id@,
        }
    }
}

impl GroupMessage {
    /// Build a group message of the given type: fresh random identifier, the
    /// current clock reading, the content and group as given.
    pub fn new(content: &str, message_type: MessageType, group_id: &str) -> (r: Self)
        ensures
            is_hex_id(r.id@),
            r.content@ == content@,
            r.timestamp >= 0,
            r.message_type@ == message_type.spec_tag(),
            r.group_id@ == group_id@,
    {
        GroupMessage {
            id: random_hex_id(),
            content: content.to_owned(),
            timestamp: current_timestamp_ms(),
            message_type: message_type.tag(),
            group_id: group_id.to_owned(),
        }
    }

    /// A plain text group message.
    pub fn text(content: &str, group_id: &str) -> (r: Self)
        ensures
            is_hex_id(r.id@),
            r.content@ == content@,
            r.timestamp >= 0,
            r.message_type@ == MessageType::Text.spec_tag(),
            r.group_id@ == group_id@,
    {
        Self::new(content, MessageType::Text, group_id)
    }
}

/// Group invite metadata, carried as the content of a direct message with the
/// group-invite type; never sent as its own top-level message.
#[derive(Debug, Clone)]
pub struct GroupInvitePayload {
    pub group_id: String,
    pub name: String,
    pub description: String,
    pub member_ids: Vec<String>,
    pub member_names: HashMap<String, String>,
    pub creator_id: String,
    pub created_at_ms: i64,
}

/// Acknowledgment for direct messages.
#[derive(Debug, Clone, PartialEq, Eq, Structural)]
pub struct AckResponse {
    pub ack: bool,
}

impl AckResponse {
    /// The canonical success value.
    pub fn success() -> (r: Self)
        ensures
            r.ack == true,
    {
        AckResponse { ack: true }
    }

    /// The wire bytes of this acknowledgment. Encoding cannot fail.
    pub fn to_bytes(&self) -> (r: Vec<u8>)
        ensures
            r@ == crate::wire::spec_enc_ack(self.ack),
    {
        crate::wire::encode_ack(self.ack)
    }
}

/// Payload of a vibe message: either a commitment to a hidden value or the
/// later reveal of it.
#[derive(Debug, Clone, PartialEq)]
pub enum VibePayload {
    Commitment { vibe_id: String, commitment: String },
    Reveal { vibe_id: String, secret: String },
}

} // verus!
