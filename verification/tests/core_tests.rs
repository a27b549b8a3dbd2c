//! Tests of the registry, the chat core's decisions, the interactive command
//! parser, and the in-memory end-to-end path between two cores sharing a key.

use chatcore::chat::{
    clamp_timestamp, delivery_report, now_timestamp, ChatCore, DiscoveryEvent, FrameOutcome,
};
use chatcore::command::{parse_command, Command};
use chatcore::message::{Message, MessageVariant};
use chatcore::protocol::{frame_length_ok, parse_frame_header};
use chatcore::registry::{PeerAddr, PeerRegistry};

fn addr(ip: u32, port: u16) -> PeerAddr {
    PeerAddr { ip, port }
}

#[test]
fn registry_first_seen_name_wins() {
    let mut reg = PeerRegistry::new();
    let a = addr(0x7F00_0001, 6000);
    assert!(reg.upsert(a, b"alice".to_vec()));
    assert!(!reg.upsert(a, b"bob".to_vec()));
    let snap = reg.snapshot();
    assert_eq!(snap.len(), 1);
    assert_eq!(snap[0].addr, a);
    assert_eq!(snap[0].name, b"alice".to_vec());
}

#[test]
fn registry_remove_and_absent_remove() {
    let mut reg = PeerRegistry::new();
    let a = addr(1, 1000);
    let b = addr(2, 2000);
    reg.upsert(a, b"one".to_vec());
    reg.upsert(b, b"two".to_vec());
    reg.remove(a);
    assert!(!reg.contains(a));
    assert!(reg.contains(b));
    reg.remove(a); // absent: a no-op
    assert!(reg.contains(b));
    assert_eq!(reg.snapshot().len(), 1);
}

#[test]
fn registry_snapshot_is_a_copy() {
    let mut reg = PeerRegistry::new();
    reg.upsert(addr(1, 1), b"one".to_vec());
    let snap = reg.snapshot();
    reg.upsert(addr(2, 2), b"two".to_vec());
    assert_eq!(snap.len(), 1);
    assert_eq!(reg.snapshot().len(), 2);
}

#[test]
fn discovery_found_registers_unless_own_port() {
    let mut core = ChatCore::new(b"alice".to_vec(), 6000);
    let other = addr(0x0A00_0001, 6001);
    let own = addr(0x0A00_0002, 6000);
    assert!(core.handle_discovery(DiscoveryEvent::PeerFound { addr: other, name: b"bob".to_vec() }));
    assert!(!core.handle_discovery(DiscoveryEvent::PeerFound {
        addr: other,
        name: b"mallory".to_vec(),
    }));
    assert!(!core.handle_discovery(DiscoveryEvent::PeerFound { addr: own, name: b"me".to_vec() }));
    assert!(core.registry.contains(other));
    assert!(!core.registry.contains(own));
    let snap = core.registry.snapshot();
    assert_eq!(snap.len(), 1);
    assert_eq!(snap[0].name, b"bob".to_vec());
}

#[test]
fn discovery_lost_only_logs() {
    let mut core = ChatCore::new(b"alice".to_vec(), 6000);
    let other = addr(0x0A00_0001, 6001);
    core.handle_discovery(DiscoveryEvent::PeerFound { addr: other, name: b"bob".to_vec() });
    assert!(!core.handle_discovery(DiscoveryEvent::PeerLost { addr: other }));
    assert!(core.registry.contains(other));
}

#[test]
fn end_to_end_between_two_cores() {
    let key = chatcore::cipher::fresh_key();
    let mut alice = ChatCore::with_key(b"alice".to_vec(), 6000, key.clone());
    let mut bob = ChatCore::with_key(b"bob".to_vec(), 6001, key);
    alice.handle_discovery(DiscoveryEvent::PeerFound {
        addr: addr(0x7F00_0001, 6001),
        name: b"bob".to_vec(),
    });
    bob.handle_discovery(DiscoveryEvent::PeerFound {
        addr: addr(0x7F00_0001, 6000),
        name: b"alice".to_vec(),
    });

    let before = now_timestamp();
    let msg = alice.build_message(MessageVariant::Text(b"hi".to_vec()));
    let after = now_timestamp();
    let fr = alice.try_compose_frame(&msg).expect("small message must fit");

    // The receiving side: split the header, check the declared length, hand
    // the body to the core.
    let header = fr[0..4].to_vec();
    let declared = parse_frame_header(&header);
    assert!(frame_length_ok(declared));
    assert_eq!(declared as usize, fr.len() - 4);
    let body = fr[4..].to_vec();
    match bob.process_frame(&body) {
        FrameOutcome::Delivered(m) => {
            assert_eq!(m.sender, b"alice".to_vec());
            match m.variant {
                MessageVariant::Text(t) => assert_eq!(t, b"hi".to_vec()),
                _ => panic!("wrong variant delivered"),
            }
            assert!(before <= m.timestamp && m.timestamp <= after + 1);
        }
        _ => panic!("frame was not delivered"),
    }
}

#[test]
fn mismatched_keys_close_the_connection() {
    let alice = ChatCore::new(b"alice".to_vec(), 6000);
    let bob = ChatCore::new(b"bob".to_vec(), 6001);
    let msg = alice.build_message(MessageVariant::Text(b"hi".to_vec()));
    let fr = alice.try_compose_frame(&msg).expect("small message must fit");
    let body = fr[4..].to_vec();
    match bob.process_frame(&body) {
        FrameOutcome::Closed(chatcore::cipher::CipherError::CryptoError) => {}
        _ => panic!("a frame under another key must close the connection"),
    }
}

#[test]
fn undecodable_plaintext_is_discarded() {
    let core = ChatCore::new(b"alice".to_vec(), 6000);
    // Encrypts fine under the same key, but the plaintext is not a serialized
    // message: the frame is dropped silently and the connection stays open.
    let body = chatcore::cipher::encrypt(&vec![7u8; 20], &core.key);
    match core.process_frame(&body) {
        FrameOutcome::Discarded => {}
        _ => panic!("valid decrypt with bad payload must be discarded"),
    }
}

#[test]
fn short_frame_body_closes_as_malformed() {
    let core = ChatCore::new(b"alice".to_vec(), 6000);
    match core.process_frame(&vec![0u8; 5]) {
        FrameOutcome::Closed(chatcore::cipher::CipherError::MalformedFrame) => {}
        _ => panic!("a body shorter than a nonce must close as malformed"),
    }
}

#[test]
fn fanout_failure_does_not_stop_the_rest() {
    // Peer X reachable, peer Y not: the message still reaches X and is still
    // displayed locally.
    let outcomes = vec![true, false];
    let report = delivery_report(&outcomes);
    assert_eq!(report.attempted, 2);
    assert_eq!(report.delivered, 1);
    assert!(report.displayed_locally);

    let outcomes = vec![false, true];
    let report = delivery_report(&outcomes);
    assert_eq!(report.attempted, 2);
    assert_eq!(report.delivered, 1);
    assert!(report.displayed_locally);

    let report = delivery_report(&Vec::new());
    assert_eq!(report.attempted, 0);
    assert_eq!(report.delivered, 0);
    assert!(report.displayed_locally);
}

#[test]
fn clamp_timestamp_floors_at_zero() {
    assert_eq!(clamp_timestamp(-5), 0);
    assert_eq!(clamp_timestamp(0), 0);
    assert_eq!(clamp_timestamp(7), 7);
    assert_eq!(clamp_timestamp(i64::MAX), i64::MAX as u64);
}

#[test]
fn command_parsing() {
    assert!(matches!(parse_command(&b"/quit".to_vec()), Command::Quit));
    assert!(matches!(parse_command(&b"/peers".to_vec()), Command::Peers));
    match parse_command(&b"/img cat.png".to_vec()) {
        Command::Image(p) => assert_eq!(p, b"cat.png".to_vec()),
        _ => panic!("image command not recognised"),
    }
    match parse_command(&b"/vid clip.mp4".to_vec()) {
        Command::Video(p) => assert_eq!(p, b"clip.mp4".to_vec()),
        _ => panic!("video command not recognised"),
    }
    match parse_command(&b"hello everyone".to_vec()) {
        Command::Text(t) => assert_eq!(t, b"hello everyone".to_vec()),
        _ => panic!("free text not recognised"),
    }
    // No trailing space: not a file command, just text.
    match parse_command(&b"/imgcat".to_vec()) {
        Command::Text(t) => assert_eq!(t, b"/imgcat".to_vec()),
        _ => panic!("near-miss prefix must stay text"),
    }
    match parse_command(&b"/quitx".to_vec()) {
        Command::Text(t) => assert_eq!(t, b"/quitx".to_vec()),
        _ => panic!("near-miss quit must stay text"),
    }
}

#[test]
fn oversize_message_is_refused_not_sent() {
    let core = ChatCore::new(b"a".to_vec(), 6000);
    let msg = Message {
        sender: b"a".to_vec(),
        variant: MessageVariant::Text(vec![0u8; 52428772]),
        timestamp: 0,
    };
    assert!(core.try_compose_frame(&msg).is_none());
}
