use monomouse::config::{Config, NetworkConfig, SecurityConfig};
use monomouse::framing::{decode_frame, encode_frame, header_value, FrameDecode, HEADER_LEN, MAX_MESSAGE_LEN};
use monomouse::machine::{Machine, DEFAULT_PORT};

#[test]
fn frame_carries_big_endian_length_then_payload() {
    let frame = encode_frame(b"hello");
    assert_eq!(frame, vec![0, 0, 0, 5, b'h', b'e', b'l', b'l', b'o']);
    let empty = encode_frame(b"");
    assert_eq!(empty, vec![0, 0, 0, 0]);
}

#[test]
fn header_value_reads_big_endian() {
    assert_eq!(header_value(0, 0, 1, 0), 256);
    assert_eq!(header_value(0x12, 0x34, 0x56, 0x78), 0x1234_5678);
    assert_eq!(header_value(0xff, 0xff, 0xff, 0xff), u32::MAX);
}

#[test]
fn decoding_an_encoded_frame_gives_the_payload_back() {
    let payload: Vec<u8> = (0..300u32).map(|i| (i % 251) as u8).collect();
    let mut buf = encode_frame(&payload);
    buf.extend_from_slice(b"next frame");
    match decode_frame(&buf) {
        FrameDecode::Complete { payload: p, consumed } => {
            assert_eq!(p, payload);
            assert_eq!(consumed, 304);
        }
        other => panic!("unexpected {:?}", other),
    }
}

#[test]
fn short_buffers_ask_for_more() {
    assert_eq!(decode_frame(&[0, 0]), FrameDecode::Incomplete { needed: HEADER_LEN });
    assert_eq!(decode_frame(&[0, 0, 0, 3, 1]), FrameDecode::Incomplete { needed: 7 });
    assert_eq!(
        decode_frame(&[0, 0, 0, 0]),
        FrameDecode::Complete { payload: vec![], consumed: 4 }
    );
}

#[test]
fn oversized_frames_are_refused() {
    // 1 MiB is accepted, one byte more is not.
    assert_eq!(MAX_MESSAGE_LEN, 1_048_576);
    assert_eq!(decode_frame(&[0, 0x10, 0, 0]), FrameDecode::Incomplete { needed: 4 + 1_048_576 });
    assert_eq!(decode_frame(&[0, 0x10, 0, 1]), FrameDecode::TooLarge { len: 1_048_577 });
    assert_eq!(decode_frame(&[0xff, 0, 0, 0]), FrameDecode::TooLarge { len: 0xff00_0000 });
}

#[test]
fn machine_ids_follow_the_name() {
    let a = Machine::new("desk".to_string(), true);
    let b = Machine::new("desk".to_string(), false);
    let c = Machine::new("laptop".to_string(), false);
    assert_eq!(a.id, b.id);
    assert_ne!(a.id, c.id);
    assert_eq!(a.port, DEFAULT_PORT);
    assert_eq!(a.addr, None);
    assert!(a.monitors.is_empty());
    assert!(a.is_server);
    assert!(!b.is_server);
}

#[test]
fn machine_id_is_the_uuid_v5_of_the_name() {
    let expected = uuid::Uuid::new_v5(&uuid::Uuid::NAMESPACE_DNS, b"desk").as_u128();
    assert_eq!(Machine::new("desk".to_string(), true).id, expected);
    // The DNS namespace UUID of "python.org", a well-known value.
    let known = uuid::Uuid::parse_str("886313e1-3b8a-5372-9b90-0c9aee199e5d").unwrap().as_u128();
    assert_eq!(Machine::new("python.org".to_string(), false).id, known);
}

#[test]
fn default_settings() {
    let n = NetworkConfig::default();
    assert_eq!(n.port, 24800);
    assert_eq!(n.server_addr, None);
    assert!(n.mdns_enabled);
    let s = SecurityConfig::default();
    assert!(!s.tls_enabled);
    assert_eq!(s.cert_path, None);
    assert_eq!(s.key_path, None);
}

#[test]
fn default_config_uses_the_host_name() {
    let c = Config::default_config("box".to_string());
    assert_eq!(c.machine.name, "box");
    assert_eq!(c.machine.id, Machine::new("box".to_string(), false).id);
    assert!(!c.machine.is_server);
    assert!(c.grid.monitors.is_empty());
    assert!(c.grid.transitions.is_empty());
    assert_eq!(c.network.port, DEFAULT_PORT);
    assert!(!c.security.tls_enabled);
}
