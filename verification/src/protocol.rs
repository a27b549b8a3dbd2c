//! Length-prefixed framing and serialization of `Message` records.
//!
//! A wire frame is a 4-byte big-endian length followed by exactly that many
//! bytes of encrypted payload. The serialized (pre-encryption) form of a
//! message is: one tag byte, the timestamp as 8 big-endian bytes, then each
//! byte-sequence field prefixed by its length as 4 big-endian bytes.

use vstd::prelude::*;

use crate::bytes::{copy_range, push_all};
use crate::message::{Message, MessageVariant, MessageView, VariantView};

verus! {

/// Largest declared frame length a listener accepts (50 MiB): bounds the
/// memory a hostile or corrupt peer can make a connection allocate.
pub const MAX_FRAME_LEN: u32 = 52428800;

/// Largest serialized message that still fits a frame after encryption adds
/// the 12-byte nonce and the 16-byte tag.
pub const MAX_PLAINTEXT_LEN: usize = 52428772;

/// The four big-endian bytes of `n`.
pub open spec fn be32(n: u32) -> Seq<u8> {
    seq![(n >> 24) as u8, (n >> 16) as u8, (n >> 8) as u8, n as u8]
}

/// The eight big-endian bytes of `n`.
pub open spec fn be64(n: u64) -> Seq<u8> {
    seq![
        (n >> 56) as u8,
        (n >> 48) as u8,
        (n >> 40) as u8,
        (n >> 32) as u8,
        (n >> 24) as u8,
        (n >> 16) as u8,
        (n >> 8) as u8,
        n as u8,
    ]
}

/// The unsigned value of four big-endian bytes.
pub open spec fn from_be32(b0: u8, b1: u8, b2: u8, b3: u8) -> u32 {
    ((b0 as u32) << 24) | ((b1 as u32) << 16) | ((b2 as u32) << 8) | (b3 as u32)
}

/// The unsigned value of eight big-endian bytes.
pub open spec fn from_be64(
    b0: u8,
    b1: u8,
    b2: u8,
    b3: u8,
    b4: u8,
    b5: u8,
    b6: u8,
    b7: u8,
) -> u64 {
    ((b0 as u64) << 56) | ((b1 as u64) << 48) | ((b2 as u64) << 40) | ((b3 as u64) << 32) | ((
    b4 as u64) << 24) | ((b5 as u64) << 16) | ((b6 as u64) << 8) | (b7 as u64)
}

/// The value of the four big-endian bytes of `s` starting at `i`.
pub open spec fn be32_at(s: Seq<u8>, i: int) -> u32 {
    from_be32(s[i], s[i + 1], s[i + 2], s[i + 3])
}

/// The value of the eight big-endian bytes of `s` starting at `i`.
pub open spec fn be64_at(s: Seq<u8>, i: int) -> u64 {
    from_be64(s[i], s[i + 1], s[i + 2], s[i + 3], s[i + 4], s[i + 5], s[i + 6], s[i + 7])
}

/// Reading back the four big-endian bytes of `n` yields `n`.
pub proof fn lemma_be32_round_trip(n: u32)
    ensures
        be32_at(be32(n), 0) == n,
{
    assert((((((n >> 24) as u8) as u32) << 24) | ((((n >> 16) as u8) as u32) << 16) | ((((n
        >> 8) as u8) as u32) << 8) | ((n as u8) as u32)) == n) by (bit_vector);
}

/// Reading back the eight big-endian bytes of `n` yields `n`.
pub proof fn lemma_be64_round_trip(n: u64)
    ensures
        be64_at(be64(n), 0) == n,
{
    assert((((((n >> 56) as u8) as u64) << 56) | ((((n >> 48) as u8) as u64) << 48) | ((((n
        >> 40) as u8) as u64) << 40) | ((((n >> 32) as u8) as u64) << 32) | ((((n
        >> 24) as u8) as u64) << 24) | ((((n >> 16) as u8) as u64) << 16) | ((((n
        >> 8) as u8) as u64) << 8) | ((n as u8) as u64)) == n) by (bit_vector);
}

/// The four big-endian bytes of `n`, as a vector.
pub fn u32_to_be(n: u32) -> (r: Vec<u8>)
    ensures
        r@ == be32(n),
{
    let mut r: Vec<u8> = Vec::new();
    r.push(#[verifier::truncate] ((n >> 24) as u8));
    r.push(#[verifier::truncate] ((n >> 16) as u8));
    r.push(#[verifier::truncate] ((n >> 8) as u8));
    r.push(#[verifier::truncate] (n as u8));
    proof {
        assert(r@ =~= be32(n));
    }
    r
}

/// The eight big-endian bytes of `n`, as a vector.
pub fn u64_to_be(n: u64) -> (r: Vec<u8>)
    ensures
        r@ == be64(n),
{
    let mut r: Vec<u8> = Vec::new();
    r.push(#[verifier::truncate] ((n >> 56) as u8));
    r.push(#[verifier::truncate] ((n >> 48) as u8));
    r.push(#[verifier::truncate] ((n >> 40) as u8));
    r.push(#[verifier::truncate] ((n >> 32) as u8));
    r.push(#[verifier::truncate] ((n >> 24) as u8));
    r.push(#[verifier::truncate] ((n >> 16) as u8));
    r.push(#[verifier::truncate] ((n >> 8) as u8));
    r.push(#[verifier::truncate] (n as u8));
    proof {
        assert(r@ =~= be64(n));
    }
    r
}

/// The value of the four big-endian bytes of `b` starting at `i`.
pub fn read_be32_at(b: &Vec<u8>, i: usize) -> (r: u32)
    requires
        i + 4 <= b@.len(),
    ensures
        r == be32_at(b@, i as int),
{
    let l: usize = b.len();
    ((b[i] as u32) << 24) | ((b[i + 1] as u32) << 16) | ((b[i + 2] as u32) << 8) | (b[i + 3] as u32)
}

/// The value of the eight big-endian bytes of `b` starting at `i`.
pub fn read_be64_at(b: &Vec<u8>, i: usize) -> (r: u64)
    requires
        i + 8 <= b@.len(),
    ensures
        r == be64_at(b@, i as int),
{
    let l: usize = b.len();
    ((b[i] as u64) << 56) | ((b[i + 1] as u64) << 48) | ((b[i + 2] as u64) << 40) | ((b[i
        + 3] as u64) << 32) | ((b[i + 4] as u64) << 24) | ((b[i + 5] as u64) << 16) | ((b[i
        + 6] as u64) << 8) | (b[i + 7] as u64)
}

/// A length-prefixed field: the field's length as four big-endian bytes, then
/// the field's bytes.
pub open spec fn field_enc(data: Seq<u8>) -> Seq<u8> {
    be32(data.len() as u32) + data
}

/// The tag byte that discriminates the message variants on the wire.
pub open spec fn tag_of(v: VariantView) -> u8 {
    match v {
        VariantView::Text(_) => 0u8,
        VariantView::Image { .. } => 1u8,
        VariantView::Video { .. } => 2u8,
        VariantView::KeyExchange { .. } => 3u8,
    }
}

/// The serialized field block of a variant, after the tag byte.
pub open spec fn variant_enc(v: VariantView) -> Seq<u8> {
    match v {
        VariantView::Text(t) => field_enc(t),
        VariantView::Image { filename, bytes } => field_enc(filename) + field_enc(bytes),
        VariantView::Video { filename, bytes } => field_enc(filename) + field_enc(bytes),
        VariantView::KeyExchange { public_key } => field_enc(public_key),
    }
}

/// The full serialized form of a message.
pub open spec fn message_enc(m: MessageView) -> Seq<u8> {
    seq![tag_of(m.variant)] + be64(m.timestamp) + field_enc(m.sender) + variant_enc(m.variant)
}

/// Every byte-sequence field of the variant fits a 4-byte length prefix.
pub open spec fn wf_variant(v: VariantView) -> bool {
    match v {
        VariantView::Text(t) => t.len() <= 0xFFFF_FFFF,
        VariantView::Image { filename, bytes } => filename.len() <= 0xFFFF_FFFF && bytes.len()
            <= 0xFFFF_FFFF,
        VariantView::Video { filename, bytes } => filename.len() <= 0xFFFF_FFFF && bytes.len()
            <= 0xFFFF_FFFF,
        VariantView::KeyExchange { public_key } => public_key.len() <= 0xFFFF_FFFF,
    }
}

/// The message's fields fit their length prefixes and its serialized form fits
/// a frame once encrypted.
pub open spec fn wf_message(m: MessageView) -> bool {
    m.sender.len() <= 0xFFFF_FFFF && wf_variant(m.variant) && message_enc(m).len()
        <= MAX_PLAINTEXT_LEN
}

/// Parse a length-prefixed field of `b` starting at `i`: the field's bytes and
/// the position just past them, or nothing if the prefix or the field runs past
/// the end of `b`.
pub open spec fn parse_field(b: Seq<u8>, i: int) -> Option<(Seq<u8>, int)> {
    if i + 4 <= b.len() {
        let n = be32_at(b, i) as int;
        if i + 4 + n <= b.len() {
            Some((b.subrange(i + 4, i + 4 + n), i + 4 + n))
        } else {
            None
        }
    } else {
        None
    }
}

/// Parse a serialized message: the tag byte, the timestamp, the sender field,
/// the variant's fields for that tag, with nothing left over — or nothing if
/// any of that fails.
pub open spec fn message_dec(b: Seq<u8>) -> Option<MessageView> {
    if b.len() < 9 {
        None
    } else {
        let tag = b[0];
        let ts = be64_at(b, 1);
        match parse_field(b, 9) {
            None => None,
            Some((sender, i)) => if tag == 0 {
                match parse_field(b, i) {
                    None => None,
                    Some((t, j)) => if j == b.len() {
                        Some(
                            MessageView {
                                sender,
                                variant: VariantView::Text(t),
                                timestamp: ts,
                            },
                        )
                    } else {
                        None
                    },
                }
            } else if tag == 1 || tag == 2 {
                match parse_field(b, i) {
                    None => None,
                    Some((filename, j)) => match parse_field(b, j) {
                        None => None,
                        Some((bytes, k)) => if k == b.len() {
                            Some(
                                MessageView {
                                    sender,
                                    variant: if tag == 1 {
                                        VariantView::Image { filename, bytes }
                                    } else {
                                        VariantView::Video { filename, bytes }
                                    },
                                    timestamp: ts,
                                },
                            )
                        } else {
                            None
                        },
                    },
                }
            } else if tag == 3 {
                match parse_field(b, i) {
                    None => None,
                    Some((public_key, j)) => if j == b.len() {
                        Some(
                            MessageView {
                                sender,
                                variant: VariantView::KeyExchange { public_key },
                                timestamp: ts,
                            },
                        )
                    } else {
                        None
                    },
                }
            } else {
                None
            },
        }
    }
}

/// Append a length-prefixed field to `dst`.
fn push_field(dst: &mut Vec<u8>, data: &Vec<u8>)
    requires
        data@.len() <= 0xFFFF_FFFF,
    ensures
        final(dst)@ == old(dst)@ + field_enc(data@),
{
    let lenb = u32_to_be(data.len() as u32);
    push_all(dst, &lenb);
    push_all(dst, data);
}

/// Serialize a message. The result is exactly `message_enc` of its model.
pub fn encode_message(m: &Message) -> (r: Vec<u8>)
    requires
        m.sender@.len() <= 0xFFFF_FFFF,
        wf_variant(m.variant@),
    ensures
        r@ == message_enc(m@),
{
    let mut out: Vec<u8> = Vec::new();
    let tag: u8 = match &m.variant {
        MessageVariant::Text(_) => 0,
        MessageVariant::Image { .. } => 1,
        MessageVariant::Video { .. } => 2,
        MessageVariant::KeyExchange { .. } => 3,
    };
    out.push(tag);
    proof {
        assert(out@ =~= seq![tag_of(m.variant@)]);
    }
    let ts = u64_to_be(m.timestamp);
    push_all(&mut out, &ts);
    push_field(&mut out, &m.sender);
    match &m.variant {
        MessageVariant::Text(t) => {
            push_field(&mut out, t);
        },
        MessageVariant::Image { filename, bytes } => {
            push_field(&mut out, filename);
            push_field(&mut out, bytes);
        },
        MessageVariant::Video { filename, bytes } => {
            push_field(&mut out, filename);
            push_field(&mut out, bytes);
        },
        MessageVariant::KeyExchange { public_key } => {
            push_field(&mut out, public_key);
        },
    }
    out
}

/// Parse a length-prefixed field of `b` starting at `i`, executably.
fn parse_field_exec(b: &Vec<u8>, i: usize) -> (r: Option<(Vec<u8>, usize)>)
    requires
        i <= b@.len(),
        b@.len() <= 0x4000_0000,
    ensures
        r matches Some(p) ==> (parse_field(b@, i as int) matches Some(q) && p.0@ == q.0 && p.1
            == q.1 && i < p.1 <= b@.len()),
        r is None ==> parse_field(b@, i as int) is None,
{
    if b.len() - i < 4 {
        return None;
    }
    let n = read_be32_at(b, i) as usize;
    if n > b.len() - (i + 4) {
        return None;
    }
    let data = copy_range(b, i + 4, i + 4 + n);
    Some((data, i + 4 + n))
}

/// Deserialize a message, executably. The result is exactly `message_dec` of
/// the bytes: a message whose serialization is `b`, or nothing when `b` is not
/// a serialized message.
pub fn decode_message(b: &Vec<u8>) -> (r: Option<Message>)
    requires
        b@.len() <= 0x4000_0000,
    ensures
        r matches Some(m) ==> (message_dec(b@) matches Some(mv) && mv == m@),
        r is None ==> message_dec(b@) is None,
{
    if b.len() < 9 {
        return None;
    }
    let tag: u8 = b[0];
    let ts = read_be64_at(b, 1);
    match parse_field_exec(b, 9) {
        None => None,
        Some((sender, i)) => {
            if tag == 0 {
                match parse_field_exec(b, i) {
                    None => None,
                    Some((t, j)) => {
                        if j == b.len() {
                            Some(
                                Message {
                                    sender,
                                    variant: MessageVariant::Text(t),
                                    timestamp: ts,
                                },
                            )
                        } else {
                            None
                        }
                    },
                }
            } else if tag == 1 || tag == 2 {
                match parse_field_exec(b, i) {
                    None => None,
                    Some((filename, j)) => match parse_field_exec(b, j) {
                        None => None,
                        Some((bytes, k)) => {
                            if k == b.len() {
                                Some(
                                    Message {
                                        sender,
                                        variant: if tag == 1 {
                                            MessageVariant::Image { filename, bytes }
                                        } else {
                                            MessageVariant::Video { filename, bytes }
                                        },
                                        timestamp: ts,
                                    },
                                )
                            } else {
                                None
                            }
                        },
                    },
                }
            } else if tag == 3 {
                match parse_field_exec(b, i) {
                    None => None,
                    Some((public_key, j)) => {
                        if j == b.len() {
                            Some(
                                Message {
                                    sender,
                                    variant: MessageVariant::KeyExchange { public_key },
                                    timestamp: ts,
                                },
                            )
                        } else {
                            None
                        }
                    },
                }
            } else {
                None
            }
        },
    }
}

/// A well-placed field block parses back to its data: if the bytes of `b` from
/// `i` are a length prefix followed by `data`, parsing at `i` yields `data`
/// and stops just past it.
proof fn lemma_parse_field_at(b: Seq<u8>, i: int, data: Seq<u8>)
    requires
        0 <= i,
        data.len() <= 0xFFFF_FFFF,
        i + 4 + data.len() <= b.len(),
        b.subrange(i, i + 4 + data.len()) == field_enc(data),
    ensures
        parse_field(b, i) == Some::<(Seq<u8>, int)>((data, i + 4 + data.len())),
{
    let l = data.len() as int;
    let f = field_enc(data);
    assert(f.len() == 4 + l);
    assert forall|k: int| 0 <= k < 4 + l implies b[i + k] == f[k] by {
        assert(b.subrange(i, i + 4 + l)[k] == b[i + k]);
    }
    let n = data.len() as u32;
    lemma_be32_round_trip(n);
    assert(f[0] == be32(n)[0]);
    assert(f[1] == be32(n)[1]);
    assert(f[2] == be32(n)[2]);
    assert(f[3] == be32(n)[3]);
    assert(be32_at(b, i) == be32_at(be32(n), 0));
    assert(be32_at(b, i) as int == l);
    assert(b.subrange(i + 4, i + 4 + l) =~= data) by {
        assert forall|k: int| 0 <= k < l implies b.subrange(i + 4, i + 4 + l)[k] == data[k] by {
            assert(b[i + 4 + k] == f[4 + k]);
            assert(f[4 + k] == data[k]);
        }
    }
}

/// Round trip of the serializer: decoding the encoding of any well-formed
/// message yields exactly that message.
pub proof fn lemma_message_round_trip(m: MessageView)
    requires
        m.sender.len() <= 0xFFFF_FFFF,
        wf_variant(m.variant),
    ensures
        message_dec(message_enc(m)) == Some(m),
{
    let b = message_enc(m);
    let head = seq![tag_of(m.variant)] + be64(m.timestamp);
    let sf = field_enc(m.sender);
    let ve = variant_enc(m.variant);
    assert(head.len() == 9);
    assert(b == head + sf + ve);
    assert(b.len() == 9 + sf.len() + ve.len());
    assert(b[0] == tag_of(m.variant));
    assert forall|k: int| 0 <= k < 8 implies b[1 + k] == be64(m.timestamp)[k] by {}
    lemma_be64_round_trip(m.timestamp);
    assert(be64_at(b, 1) == m.timestamp);
    assert(b.subrange(9, 9 + 4 + m.sender.len() as int) =~= sf) by {
        assert forall|k: int| 0 <= k < sf.len() implies b[9 + k] == sf[k] by {}
    }
    lemma_parse_field_at(b, 9, m.sender);
    let i = 9 + 4 + m.sender.len() as int;
    assert(b.len() == i + ve.len());
    match m.variant {
        VariantView::Text(t) => {
            assert(ve == field_enc(t));
            assert(b.subrange(i, i + 4 + t.len() as int) =~= ve) by {
                assert forall|k: int| 0 <= k < ve.len() implies b[i + k] == ve[k] by {}
            }
            lemma_parse_field_at(b, i, t);
            assert(i + 4 + t.len() == b.len());
            assert(message_dec(b) == Some(m));
        },
        VariantView::Image { filename, bytes } => {
            assert(ve == field_enc(filename) + field_enc(bytes));
            assert(b.subrange(i, b.len() as int) =~= ve) by {
                assert forall|k: int| 0 <= k < ve.len() implies b[i + k] == ve[k] by {}
            }
            lemma_parse_two_fields(b, i, filename, bytes);
            assert(message_dec(b) == Some(m));
        },
        VariantView::Video { filename, bytes } => {
            assert(ve == field_enc(filename) + field_enc(bytes));
            assert(b.subrange(i, b.len() as int) =~= ve) by {
                assert forall|k: int| 0 <= k < ve.len() implies b[i + k] == ve[k] by {}
            }
            lemma_parse_two_fields(b, i, filename, bytes);
            assert(message_dec(b) == Some(m));
        },
        VariantView::KeyExchange { public_key } => {
            assert(ve == field_enc(public_key));
            assert(b.subrange(i, i + 4 + public_key.len() as int) =~= ve) by {
                assert forall|k: int| 0 <= k < ve.len() implies b[i + k] == ve[k] by {}
            }
            lemma_parse_field_at(b, i, public_key);
            assert(i + 4 + public_key.len() == b.len());
            assert(message_dec(b) == Some(m));
        },
    }
}

/// Two consecutive field blocks that end the buffer parse back to their data.
proof fn lemma_parse_two_fields(b: Seq<u8>, i: int, d1: Seq<u8>, d2: Seq<u8>)
    requires
        0 <= i,
        d1.len() <= 0xFFFF_FFFF,
        d2.len() <= 0xFFFF_FFFF,
        i + (field_enc(d1) + field_enc(d2)).len() == b.len(),
        b.subrange(i, b.len() as int) == field_enc(d1) + field_enc(d2),
    ensures
        parse_field(b, i) == Some::<(Seq<u8>, int)>((d1, i + 4 + d1.len())),
        parse_field(b, i + 4 + d1.len()) == Some::<(Seq<u8>, int)>((d2, b.len() as int)),
{
    let tail = field_enc(d1) + field_enc(d2);
    assert forall|k: int| 0 <= k < tail.len() implies b[i + k] == tail[k] by {
        assert(b.subrange(i, b.len() as int)[k] == b[i + k]);
    }
    assert(b.subrange(i, i + 4 + d1.len() as int) =~= field_enc(d1)) by {
        assert forall|k: int| 0 <= k < 4 + d1.len() implies b[i + k] == field_enc(d1)[k] by {
            assert(tail[k] == field_enc(d1)[k]);
        }
    }
    lemma_parse_field_at(b, i, d1);
    let j = i + 4 + d1.len() as int;
    assert(b.subrange(j, j + 4 + d2.len() as int) =~= field_enc(d2)) by {
        assert forall|k: int| 0 <= k < 4 + d2.len() implies b[j + k] == field_enc(d2)[k] by {
            assert(tail[4 + d1.len() + k] == field_enc(d2)[k]);
        }
    }
    lemma_parse_field_at(b, j, d2);
}

/// Whether a message is well-formed for the wire: every byte-sequence field
/// fits its 4-byte length prefix and the serialized form fits a frame once
/// encryption has added its 28 bytes.
pub fn message_fits(m: &Message) -> (r: bool)
    ensures
        r == wf_message(m@),
{
    if (m.sender.len() as u64) > 0xFFFF_FFFF {
        return false;
    }
    match &m.variant {
        MessageVariant::Text(t) => {
            if (t.len() as u64) > 0xFFFF_FFFF {
                return false;
            }
            let total: u128 = 17 + m.sender.len() as u128 + t.len() as u128;
            proof {
                assert(message_enc(m@).len() == 17 + m@.sender.len() + t@.len());
            }
            total <= (MAX_PLAINTEXT_LEN as u128)
        },
        MessageVariant::Image { filename, bytes } => {
            if (filename.len() as u64) > 0xFFFF_FFFF || (bytes.len() as u64) > 0xFFFF_FFFF {
                return false;
            }
            let total: u128 = 21 + m.sender.len() as u128 + filename.len() as u128
                + bytes.len() as u128;
            proof {
                assert(message_enc(m@).len() == 21 + m@.sender.len() + filename@.len()
                    + bytes@.len());
            }
            total <= (MAX_PLAINTEXT_LEN as u128)
        },
        MessageVariant::Video { filename, bytes } => {
            if (filename.len() as u64) > 0xFFFF_FFFF || (bytes.len() as u64) > 0xFFFF_FFFF {
                return false;
            }
            let total: u128 = 21 + m.sender.len() as u128 + filename.len() as u128
                + bytes.len() as u128;
            proof {
                assert(message_enc(m@).len() == 21 + m@.sender.len() + filename@.len()
                    + bytes@.len());
            }
            total <= (MAX_PLAINTEXT_LEN as u128)
        },
        MessageVariant::KeyExchange { public_key } => {
            if (public_key.len() as u64) > 0xFFFF_FFFF {
                return false;
            }
            let total: u128 = 17 + m.sender.len() as u128 + public_key.len() as u128;
            proof {
                assert(message_enc(m@).len() == 17 + m@.sender.len() + public_key@.len());
            }
            total <= (MAX_PLAINTEXT_LEN as u128)
        },
    }
}

/// Whether a declared frame length is acceptable: nonzero and at most the
/// 50 MiB maximum. A connection whose peer declares anything else is closed
/// before any further byte is read.
pub fn frame_length_ok(len: u32) -> (r: bool)
    ensures
        r == (1 <= len <= MAX_FRAME_LEN),
{
    1 <= len && len <= MAX_FRAME_LEN
}

/// Prefix an encrypted frame body with its length as four big-endian bytes.
pub fn frame(body: &Vec<u8>) -> (r: Vec<u8>)
    requires
        1 <= body@.len() <= MAX_FRAME_LEN,
    ensures
        r@ == be32(body@.len() as u32) + body@,
{
    let mut out = u32_to_be(body.len() as u32);
    push_all(&mut out, body);
    out
}

/// Read a frame header: the declared body length.
pub fn parse_frame_header(h: &Vec<u8>) -> (r: u32)
    requires
        h@.len() == 4,
    ensures
        r == be32_at(h@, 0),
{
    read_be32_at(h, 0)
}

} // verus!
