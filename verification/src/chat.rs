//! The chat core: owns the process-wide symmetric key, the local display name,
//! the listening port and the peer registry, and makes every protocol decision
//! — what a discovery event does to the registry, how an outgoing message
//! becomes a frame, and what an incoming frame body becomes.
//!
//! The surrounding process performs the I/O: it accepts connections, reads the
//! 4-byte header and the declared number of body bytes, and hands the body
//! here; it takes composed frames and writes them to each peer of a snapshot,
//! one fresh connection per peer, failures per peer reported and never
//! aborting the rest of the fan-out.

use vstd::prelude::*;

use crate::bytes::copy_range;
use crate::cipher::{decrypt, encrypt, fresh_key, opens_to, CipherError};
use crate::message::{Message, MessageVariant, MessageView};
use crate::protocol::{
    be32_at, decode_message, encode_message, frame, message_dec, message_enc, message_fits,
    wf_message, MAX_FRAME_LEN,
};
use crate::registry::{spec_upsert, PeerAddr, PeerRegistry};

verus! {

/// An event surfaced by the discovery collaborator: a peer appeared (already
/// resolved to an address and a name) or a previously seen peer went away.
pub enum DiscoveryEvent {
    PeerFound { addr: PeerAddr, name: Vec<u8> },
    PeerLost { addr: PeerAddr },
}

/// What became of one inbound frame body: a decoded message to display, a
/// silent discard (it decrypted but did not deserialize — the connection stays
/// open), or a reason to close the connection.
pub enum FrameOutcome {
    Delivered(Message),
    Discarded,
    Closed(CipherError),
}

/// `fr` is a well-formed wire frame for the message `m` under `key`: a 4-byte
/// big-endian length declaring the body's size (the serialized message plus
/// the 28 bytes of nonce and tag), followed by a body that opens to the
/// serialized message.
pub open spec fn frame_for(key: Seq<u8>, m: MessageView, fr: Seq<u8>) -> bool {
    &&& fr.len() == message_enc(m).len() + 32
    &&& be32_at(fr, 0) == message_enc(m).len() + 28
    &&& opens_to(key, fr.skip(4), message_enc(m))
}

/// The chat core's state.
pub struct ChatCore {
    /// The 32-byte symmetric key, generated once and shared by every
    /// connection this process makes or accepts. Never transmitted.
    pub key: Vec<u8>,
    /// The local display name (UTF-8 bytes), stamped on every outgoing message.
    pub name: Vec<u8>,
    /// The local listening port, exposed to discovery for advertisement.
    pub listen_port: u16,
    /// The registry of discovered peers.
    pub registry: PeerRegistry,
}

impl ChatCore {
    /// The key has its full 32 bytes and the registry's addresses are unique.
    pub open spec fn wf(&self) -> bool {
        self.key@.len() == 32 && self.registry.wf()
    }

    /// The model of an outgoing message built from the given payload at the
    /// given time: the local name is always the sender.
    pub open spec fn outgoing(&self, v: crate::message::VariantView, ts: u64) -> MessageView {
        MessageView { sender: self.name@, variant: v, timestamp: ts }
    }

    /// A fresh core: a newly drawn random key and an empty registry.
    pub fn new(name: Vec<u8>, listen_port: u16) -> (r: ChatCore)
        ensures
            r.wf(),
            r.name@ == name@,
            r.listen_port == listen_port,
            r.registry@ == Map::<PeerAddr, Seq<u8>>::empty(),
    {
        ChatCore { key: fresh_key(), name, listen_port, registry: PeerRegistry::new() }
    }

    /// A core with a caller-supplied key: two processes can interoperate only
    /// when the same key is supplied to both out-of-band.
    pub fn with_key(name: Vec<u8>, listen_port: u16, key: Vec<u8>) -> (r: ChatCore)
        requires
            key@.len() == 32,
        ensures
            r.wf(),
            r.key@ == key@,
            r.name@ == name@,
            r.listen_port == listen_port,
            r.registry@ == Map::<PeerAddr, Seq<u8>>::empty(),
    {
        ChatCore { key, name, listen_port, registry: PeerRegistry::new() }
    }

    /// Apply a discovery event. A found peer whose port differs from the local
    /// listening port is upserted (first-seen name wins) and the result says
    /// whether it was new; a found peer on the local port is ignored (it is
    /// this process); a lost peer is only noted — the entry stays.
    pub fn handle_discovery(&mut self, ev: DiscoveryEvent) -> (is_new: bool)
        requires
            old(self).wf(),
        ensures
            final(self).wf(),
            final(self).key@ == old(self).key@,
            final(self).name@ == old(self).name@,
            final(self).listen_port == old(self).listen_port,
            ev matches DiscoveryEvent::PeerFound { addr, name } ==> (if addr.port != old(
                self,
            ).listen_port {
                final(self).registry@ == spec_upsert(old(self).registry@, addr, name@) && is_new
                    == !old(self).registry@.contains_key(addr)
            } else {
                final(self).registry@ == old(self).registry@ && !is_new
            }),
            ev matches DiscoveryEvent::PeerLost { addr } ==> final(self).registry@ == old(
                self,
            ).registry@ && !is_new,
    {
        match ev {
            DiscoveryEvent::PeerFound { addr, name } => {
                if addr.port != self.listen_port {
                    self.registry.upsert(addr, name)
                } else {
                    false
                }
            },
            DiscoveryEvent::PeerLost { addr: _ } => false,
        }
    }

    /// Build an outgoing message: the local name as sender, the given payload,
    /// and the current clock reading as timestamp.
    pub fn build_message(&self, variant: MessageVariant) -> (r: Message)
        ensures
            r@.sender == self.name@,
            r@.variant == variant@,
    {
        let sender = copy_range(&self.name, 0, self.name.len());
        proof {
            assert(sender@ =~= self.name@);
        }
        Message { sender, variant, timestamp: now_timestamp() }
    }

    /// Serialize, encrypt and frame a message: the returned bytes are a
    /// well-formed wire frame for it under this core's key.
    pub fn compose_frame(&self, msg: &Message) -> (r: Vec<u8>)
        requires
            self.wf(),
            wf_message(msg@),
        ensures
            frame_for(self.key@, msg@, r@),
    {
        let pt = encode_message(msg);
        let body = encrypt(&pt, &self.key);
        let fr = frame(&body);
        proof {
            crate::protocol::lemma_be32_round_trip(body@.len() as u32);
            assert(fr@.len() == message_enc(msg@).len() + 32);
            assert forall|k: int| 0 <= k < 4 implies fr@[k] == crate::protocol::be32(
                body@.len() as u32,
            )[k] by {}
            assert(be32_at(fr@, 0) == be32_at(crate::protocol::be32(body@.len() as u32), 0));
            assert(fr@.skip(4) =~= body@);
        }
        fr
    }

    /// Serialize, encrypt and frame a message after checking that it fits a
    /// frame; a message too large for the protocol yields nothing.
    pub fn try_compose_frame(&self, msg: &Message) -> (r: Option<Vec<u8>>)
        requires
            self.wf(),
        ensures
            r matches Some(fr) ==> wf_message(msg@) && frame_for(self.key@, msg@, fr@),
            r is None ==> !wf_message(msg@),
    {
        if message_fits(msg) {
            Some(self.compose_frame(msg))
        } else {
            None
        }
    }

    /// Process one inbound frame body (the bytes after the length header).
    /// A body too short for a nonce, or one whose tag does not verify, closes
    /// the connection; a body that decrypts but does not deserialize is
    /// silently discarded and the connection stays open; otherwise the decoded
    /// message is delivered. Any body of a frame composed under the same key
    /// is delivered as exactly the composed message.
    pub fn process_frame(&self, body: &Vec<u8>) -> (r: FrameOutcome)
        requires
            self.wf(),
            body@.len() <= MAX_FRAME_LEN,
        ensures
            body@.len() < 12 ==> r == FrameOutcome::Closed(CipherError::MalformedFrame),
            forall|pt: Seq<u8>| #[trigger]
                opens_to(self.key@, body@, pt) ==> ((message_dec(pt) matches Some(mv) ==> (
                r matches FrameOutcome::Delivered(m) && m@ == mv)) && (message_dec(pt) is None
                    ==> r == FrameOutcome::Discarded)),
            r matches FrameOutcome::Closed(e) ==> (e == CipherError::MalformedFrame <==> body@.len()
                < 12),
    {
        match decrypt(body, &self.key) {
            Err(e) => FrameOutcome::Closed(e),
            Ok(pt) => {
                match decode_message(&pt) {
                    Some(m) => FrameOutcome::Delivered(m),
                    None => FrameOutcome::Discarded,
                }
            },
        }
    }
}

/// End to end: a frame composed for a well-formed message opens back to the
/// message's serialization, which decodes to exactly that message — so a
/// listener holding the same key delivers the message as sent.
pub proof fn lemma_composed_frame_delivers(key: Seq<u8>, m: MessageView, fr: Seq<u8>)
    requires
        frame_for(key, m, fr),
        m.sender.len() <= 0xFFFF_FFFF,
        crate::protocol::wf_variant(m.variant),
    ensures
        opens_to(key, fr.skip(4), message_enc(m)),
        message_dec(message_enc(m)) == Some(m),
{
    crate::protocol::lemma_message_round_trip(m);
}

/// A composed frame always passes the listener's length check: its declared
/// body length is nonzero and within the 50 MiB maximum, so the receiving
/// side reads the body rather than closing the connection.
pub proof fn lemma_composed_frame_length_accepted(key: Seq<u8>, m: MessageView, fr: Seq<u8>)
    requires
        frame_for(key, m, fr),
        wf_message(m),
    ensures
        1 <= be32_at(fr, 0) <= MAX_FRAME_LEN,
{
    assert(message_enc(m).len() >= 17) by {
        match m.variant {
            crate::message::VariantView::Text(_) => {},
            crate::message::VariantView::Image { .. } => {},
            crate::message::VariantView::Video { .. } => {},
            crate::message::VariantView::KeyExchange { .. } => {},
        }
    }
}

/// Relies on chrono's `Utc::now().timestamp()`: seconds since the unix epoch
/// by the system clock. Nothing can be promised of a clock reading.
#[verifier::external_body]
fn now_unix_raw() -> i64 {
    chrono::Utc::now().timestamp()
}

/// Clamp a raw clock reading to an unsigned timestamp: readings before the
/// epoch become zero.
pub fn clamp_timestamp(t: i64) -> (r: u64)
    ensures
        r == (if t < 0 {
            0u64
        } else {
            t as u64
        }),
{
    if t < 0 {
        0
    } else {
        t as u64
    }
}

/// The current unix timestamp, clamped to zero for clocks set before the
/// epoch. The value depends on the system clock.
pub fn now_timestamp() -> u64 {
    clamp_timestamp(now_unix_raw())
}

/// How many entries of `s` are true.
pub open spec fn count_true(s: Seq<bool>) -> int
    decreases s.len(),
{
    if s.len() == 0 {
        0
    } else {
        count_true(s.drop_last()) + (if s.last() {
            1int
        } else {
            0int
        })
    }
}

/// The count of true entries never exceeds the length.
pub proof fn lemma_count_true_le(s: Seq<bool>)
    ensures
        0 <= count_true(s) <= s.len(),
    decreases s.len(),
{
    if s.len() > 0 {
        lemma_count_true_le(s.drop_last());
    }
}

/// The summary of one broadcast fan-out.
pub struct DeliveryReport {
    /// How many peers were attempted (the whole snapshot, failures included).
    pub attempted: usize,
    /// How many attempts succeeded.
    pub delivered: usize,
    /// The message is always displayed locally, whatever was delivered.
    pub displayed_locally: bool,
}

/// Account for a fan-out: one outcome per attempted peer, in snapshot order.
/// Every peer of the snapshot is attempted — a failure never aborts the rest —
/// and the message is displayed locally regardless of any delivery failure.
pub fn delivery_report(outcomes: &Vec<bool>) -> (r: DeliveryReport)
    ensures
        r.attempted == outcomes@.len(),
        r.delivered == count_true(outcomes@),
        r.displayed_locally,
{
    let mut delivered: usize = 0;
    let mut i: usize = 0;
    while i < outcomes.len()
        invariant
            i <= outcomes@.len(),
            delivered == count_true(outcomes@.take(i as int)),
            delivered <= i,
        decreases outcomes@.len() - i,
    {
        proof {
            assert(outcomes@.take(i + 1 as int).drop_last() =~= outcomes@.take(i as int));
            assert(outcomes@.take(i + 1 as int).last() == outcomes@[i as int]);
        }
        if outcomes[i] {
            delivered = delivered + 1;
        }
        i = i + 1;
    }
    proof {
        assert(outcomes@.take(outcomes@.len() as int) =~= outcomes@);
    }
    DeliveryReport { attempted: outcomes.len(), delivered, displayed_locally: true }
}

} // verus!
