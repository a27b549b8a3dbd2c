//! Tests of the cipher and the wire protocol: round trips, tampering,
//! framing bounds, and exact encodings.

use chatcore::cipher::{decrypt, encrypt, fresh_key, CipherError};
use chatcore::message::{Message, MessageVariant};
use chatcore::protocol::{
    decode_message, encode_message, frame, frame_length_ok, message_fits, parse_frame_header,
    read_be32_at, read_be64_at, u32_to_be, u64_to_be, MAX_FRAME_LEN,
};

#[test]
fn be32_round_trip_exact() {
    let b = u32_to_be(0x0102_0304);
    assert_eq!(b, vec![1u8, 2, 3, 4]);
    assert_eq!(read_be32_at(&b, 0), 0x0102_0304);
    let z = u32_to_be(0);
    assert_eq!(z, vec![0u8, 0, 0, 0]);
    let m = u32_to_be(u32::MAX);
    assert_eq!(m, vec![255u8, 255, 255, 255]);
    assert_eq!(read_be32_at(&m, 0), u32::MAX);
}

#[test]
fn be64_round_trip_exact() {
    let b = u64_to_be(0x0102_0304_0506_0708);
    assert_eq!(b, vec![1u8, 2, 3, 4, 5, 6, 7, 8]);
    assert_eq!(read_be64_at(&b, 0), 0x0102_0304_0506_0708);
}

#[test]
fn encrypt_decrypt_round_trip() {
    let key = fresh_key();
    let pt = b"attack at dawn".to_vec();
    let body = encrypt(&pt, &key);
    assert_eq!(body.len(), pt.len() + 28);
    let back = decrypt(&body, &key).expect("round trip must decrypt");
    assert_eq!(back, pt);
}

#[test]
fn encrypt_decrypt_round_trip_empty_payload() {
    let key = fresh_key();
    let pt: Vec<u8> = Vec::new();
    let body = encrypt(&pt, &key);
    assert_eq!(body.len(), 28);
    let back = decrypt(&body, &key).expect("round trip must decrypt");
    assert_eq!(back, pt);
}

#[test]
fn encryption_output_differs_from_plaintext() {
    let key = fresh_key();
    let pt = b"plain".to_vec();
    let body = encrypt(&pt, &key);
    assert_ne!(body, pt);
    assert_ne!(&body[12..], &pt[..]);
}

#[test]
fn two_encryptions_differ() {
    let key = fresh_key();
    let pt = b"same payload".to_vec();
    let a = encrypt(&pt, &key);
    let b = encrypt(&pt, &key);
    assert_ne!(a, b);
    assert_ne!(&a[0..12], &b[0..12]);
}

#[test]
fn tampered_ciphertext_never_decrypts() {
    let key = fresh_key();
    let pt = b"attack at dawn".to_vec();
    let body = encrypt(&pt, &key);
    for i in 12..body.len() {
        for bit in 0..8u8 {
            let mut tampered = body.clone();
            tampered[i] ^= 1u8 << bit;
            match decrypt(&tampered, &key) {
                Err(CipherError::CryptoError) => {}
                Err(CipherError::MalformedFrame) => panic!("length did not change"),
                Ok(_) => panic!("tampered frame decrypted at byte {} bit {}", i, bit),
            }
        }
    }
}

#[test]
fn wrong_key_never_decrypts() {
    let key = fresh_key();
    let other = fresh_key();
    let body = encrypt(&b"secret".to_vec(), &key);
    assert!(decrypt(&body, &other).is_err());
}

#[test]
fn short_body_is_malformed() {
    let key = fresh_key();
    for n in 0..12usize {
        let body = vec![0u8; n];
        match decrypt(&body, &key) {
            Err(CipherError::MalformedFrame) => {}
            _ => panic!("body of {} bytes must be malformed", n),
        }
    }
}

#[test]
fn frame_length_bounds() {
    assert!(!frame_length_ok(0));
    assert!(frame_length_ok(1));
    assert!(frame_length_ok(MAX_FRAME_LEN));
    assert!(!frame_length_ok(MAX_FRAME_LEN + 1));
    assert!(!frame_length_ok(u32::MAX));
}

#[test]
fn frame_prefixes_length() {
    let body = b"abc".to_vec();
    let fr = frame(&body);
    assert_eq!(fr, vec![0u8, 0, 0, 3, 97, 98, 99]);
    let header = fr[0..4].to_vec();
    assert_eq!(parse_frame_header(&header), 3);
}

#[test]
fn encode_text_message_exact_bytes() {
    let m = Message {
        sender: b"ab".to_vec(),
        variant: MessageVariant::Text(b"hi".to_vec()),
        timestamp: 1,
    };
    let enc = encode_message(&m);
    let expected: Vec<u8> = vec![
        0, // tag: text
        0, 0, 0, 0, 0, 0, 0, 1, // timestamp
        0, 0, 0, 2, 97, 98, // sender "ab"
        0, 0, 0, 2, 104, 105, // text "hi"
    ];
    assert_eq!(enc, expected);
}

#[test]
fn decode_inverts_encode_for_every_variant() {
    let variants = vec![
        MessageVariant::Text(b"hello there".to_vec()),
        MessageVariant::Image { filename: b"cat.png".to_vec(), bytes: vec![1, 2, 3, 255] },
        MessageVariant::Video { filename: b"clip.mp4".to_vec(), bytes: vec![9, 8, 7] },
        MessageVariant::KeyExchange { public_key: vec![0u8; 32] },
    ];
    for variant in variants {
        let m = Message { sender: b"alice".to_vec(), variant, timestamp: 1_700_000_000 };
        let enc = encode_message(&m);
        let back = decode_message(&enc).expect("encoding must decode");
        assert_eq!(back.sender, m.sender);
        assert_eq!(back.timestamp, m.timestamp);
        match (&back.variant, &m.variant) {
            (MessageVariant::Text(a), MessageVariant::Text(b)) => assert_eq!(a, b),
            (
                MessageVariant::Image { filename: f1, bytes: b1 },
                MessageVariant::Image { filename: f2, bytes: b2 },
            ) => {
                assert_eq!(f1, f2);
                assert_eq!(b1, b2);
            }
            (
                MessageVariant::Video { filename: f1, bytes: b1 },
                MessageVariant::Video { filename: f2, bytes: b2 },
            ) => {
                assert_eq!(f1, f2);
                assert_eq!(b1, b2);
            }
            (
                MessageVariant::KeyExchange { public_key: k1 },
                MessageVariant::KeyExchange { public_key: k2 },
            ) => assert_eq!(k1, k2),
            _ => panic!("variant changed across the round trip"),
        }
    }
}

#[test]
fn decode_rejects_garbage() {
    assert!(decode_message(&Vec::new()).is_none());
    assert!(decode_message(&vec![0u8; 8]).is_none());
    assert!(decode_message(&vec![7u8; 64]).is_none());
}

#[test]
fn decode_rejects_bad_tag() {
    let m = Message {
        sender: b"a".to_vec(),
        variant: MessageVariant::Text(b"x".to_vec()),
        timestamp: 0,
    };
    let mut enc = encode_message(&m);
    enc[0] = 9;
    assert!(decode_message(&enc).is_none());
}

#[test]
fn decode_rejects_trailing_bytes() {
    let m = Message {
        sender: b"a".to_vec(),
        variant: MessageVariant::Text(b"x".to_vec()),
        timestamp: 0,
    };
    let mut enc = encode_message(&m);
    enc.push(0);
    assert!(decode_message(&enc).is_none());
}

#[test]
fn decode_rejects_truncation() {
    let m = Message {
        sender: b"alice".to_vec(),
        variant: MessageVariant::Text(b"hello".to_vec()),
        timestamp: 42,
    };
    let enc = encode_message(&m);
    for n in 0..enc.len() {
        let truncated = enc[0..n].to_vec();
        assert!(decode_message(&truncated).is_none(), "prefix of {} bytes decoded", n);
    }
}

#[test]
fn message_fits_boundary() {
    let fitting = Message {
        sender: b"a".to_vec(),
        variant: MessageVariant::Text(vec![0u8; 52428772 - 18]),
        timestamp: 0,
    };
    assert!(message_fits(&fitting));
    let oversize = Message {
        sender: b"a".to_vec(),
        variant: MessageVariant::Text(vec![0u8; 52428772 - 17]),
        timestamp: 0,
    };
    assert!(!message_fits(&oversize));
}
