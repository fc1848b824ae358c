use relay_tunnel::codec::{HttpCodec, ProtocolType, ProxyPacket, ProxyPayload, ProxyRequest, ProxyResponse, TcpCodec, WebSocketCodec, WsData};
use relay_tunnel::crypto::{verify_signature, Credential};
use relay_tunnel::error::TunnelError;
use relay_tunnel::frame::{decode_frame, encode_frame, frame_length};
use relay_tunnel::nonce::increment_nonce;
use relay_tunnel::stream::{ReadPoll, StreamState, WritePoll};
use relay_tunnel::wire::{Identity, InitPayload, SignedPayload};

#[test]
fn increment_moves_the_last_byte_first() {
    let mut n = [0u8; 12];
    increment_nonce(&mut n);
    assert_eq!(n, [0, 0, 0, 0, 0, 0, 0, 0, 0, 0, 0, 1]);
    let mut n = [0, 0, 0, 0, 0, 0, 0, 0, 0, 0, 0x01, 0xFF];
    increment_nonce(&mut n);
    assert_eq!(n, [0, 0, 0, 0, 0, 0, 0, 0, 0, 0, 0x02, 0x00]);
}

#[test]
fn increment_wraps_all_ones_to_zero() {
    let mut n = [0xFFu8; 12];
    increment_nonce(&mut n);
    assert_eq!(n, [0u8; 12]);
}

#[test]
fn frame_has_big_endian_length_prefix() {
    assert_eq!(encode_frame(b"abc").unwrap(), vec![0, 0, 0, 3, b'a', b'b', b'c']);
    let data = vec![7u8; 300];
    let f = encode_frame(&data).unwrap();
    assert_eq!(&f[..4], &[0, 0, 1, 44]);
    assert_eq!(decode_frame(&f).unwrap(), (data, 304));
}

#[test]
fn oversize_length_field_is_refused() {
    assert_eq!(frame_length(&[0x04, 0x00, 0x00, 0x01]), Err(TunnelError::FrameTooLarge));
    assert_eq!(frame_length(&[0x04, 0x00, 0x00, 0x00]), Ok(1 << 26));
    assert_eq!(decode_frame(&[0x04, 0x00, 0x00, 0x01, 1, 2, 3]), Err(TunnelError::FrameTooLarge));
}

#[test]
fn short_frame_is_unexpected_eof() {
    assert_eq!(decode_frame(&[0, 0]), Err(TunnelError::UnexpectedEof));
    assert_eq!(decode_frame(&[0, 0, 0, 5, 1, 2]), Err(TunnelError::UnexpectedEof));
    let (p, used) = decode_frame(&[0, 0, 0, 1, 9, 8, 7]).unwrap();
    assert_eq!((p, used), (vec![9], 5));
}

#[test]
fn identity_round_trip_keeps_bytes() {
    let c = Credential::from_secret_key(&[5u8; 32]).unwrap();
    let id = c.identity();
    assert_eq!(id.id, hex::encode(&id.public_key));
    let wire = id.encode();
    let back = Identity::decode(&wire).unwrap();
    assert_eq!(back, id);
    assert_eq!(back.encode(), wire);
    assert_eq!(wire[0], 0x0A);
    assert_eq!(wire[1], 64);
}

#[test]
fn identity_exact_encoding() {
    let id = Identity { id: "ab".to_string(), public_key: vec![1, 2] };
    assert_eq!(id.encode(), vec![0x0A, 2, b'a', b'b', 0x12, 2, 1, 2]);
    let empty = Identity { id: String::new(), public_key: vec![] };
    assert_eq!(empty.encode(), Vec::<u8>::new());
}

#[test]
fn non_canonical_encodings_are_refused() {
    // fields out of order
    assert_eq!(Identity::decode(&[0x12, 1, 9, 0x0A, 1, b'a']), Err(TunnelError::DecodeError));
    // an empty field that would be left out
    assert_eq!(Identity::decode(&[0x0A, 0]), Err(TunnelError::DecodeError));
    // a padded varint length
    assert_eq!(Identity::decode(&[0x0A, 0x81, 0x00, b'a']), Err(TunnelError::DecodeError));
    // invalid UTF-8 in the id
    assert_eq!(Identity::decode(&[0x0A, 1, 0xFF]), Err(TunnelError::DecodeError));
    // trailing bytes
    assert_eq!(SignedPayload::decode(&[0x0A, 1, 1, 0x12, 1, 2, 0]), Err(TunnelError::DecodeError));
}

#[test]
fn init_payload_round_trip_with_negative_timestamp() {
    let m = InitPayload {
        version: 1,
        nonce: vec![1; 12],
        timestamp: -5,
        identity: Some(Identity { id: "x".to_string(), public_key: vec![3; 32] }),
        alpn: "websocket".to_string(),
        session_public_key: vec![4; 32],
    };
    let wire = m.encode();
    assert_eq!(InitPayload::decode(&wire).unwrap(), m);
    let bare = InitPayload { version: 0, nonce: vec![], timestamp: 0, identity: None, alpn: String::new(), session_public_key: vec![] };
    assert_eq!(bare.encode(), Vec::<u8>::new());
    assert_eq!(InitPayload::decode(&[]).unwrap(), bare);
}

#[test]
fn credential_id_is_hex_of_public_key() {
    let c = Credential::from_secret_key(&[1u8; 32]).unwrap();
    let pk = c.public_key();
    assert_eq!(pk.len(), 32);
    assert_eq!(c.id(), hex::encode(&pk));
    assert_eq!(c.id().len(), 64);
    let expected = ed25519_dalek::SigningKey::from_bytes(&[1u8; 32]).verifying_key().to_bytes();
    assert_eq!(pk, expected.to_vec());
    assert!(Credential::from_secret_key(&[1u8; 31]).is_none());
}

#[test]
fn signature_verifies_under_own_public_key() {
    let c = Credential::new();
    let data = b"payload to sign".to_vec();
    let signature = c.sign(&data);
    assert_eq!(signature.len(), 64);
    let signed = SignedPayload { data: data.clone(), signature };
    assert_eq!(verify_signature(&c.identity(), &signed), Ok(()));
    let other = Credential::new();
    assert_eq!(verify_signature(&other.identity(), &signed), Err(TunnelError::BadSignature));
    let short = SignedPayload { data, signature: vec![0u8; 63] };
    assert_eq!(verify_signature(&c.identity(), &short), Err(TunnelError::BadSignature));
    let bad_key = Identity { id: String::new(), public_key: vec![0u8; 31] };
    assert_eq!(verify_signature(&bad_key, &signed_copy(&c)), Err(TunnelError::BadIdentity));
}

fn signed_copy(c: &Credential) -> SignedPayload {
    let data = vec![1, 2, 3];
    SignedPayload { signature: c.sign(&data), data }
}

#[test]
fn methods_are_upper_cased_and_checked() {
    assert_eq!(HttpCodec::parse_method("get"), Ok("GET".to_string()));
    assert_eq!(HttpCodec::parse_method("Options"), Ok("OPTIONS".to_string()));
    assert_eq!(HttpCodec::parse_method("fetch"), Err("unsupported HTTP method: fetch".to_string()));
}

#[test]
fn urls_and_addresses_are_checked() {
    assert_eq!(HttpCodec::validate_url("https://example.com"), Ok(()));
    assert_eq!(HttpCodec::validate_url("ftp://x"), Err("invalid HTTP URL: ftp://x".to_string()));
    assert_eq!(WebSocketCodec::validate_url("wss://relay"), Ok(()));
    assert_eq!(WebSocketCodec::validate_url("http://relay"), Err("invalid WebSocket URL: http://relay".to_string()));
    assert_eq!(TcpCodec::validate_address("", 80), Err("empty host".to_string()));
    assert_eq!(TcpCodec::validate_address("db", 0), Err("invalid port".to_string()));
    assert_eq!(TcpCodec::validate_address("db", 5432), Ok(()));
}

#[test]
fn headers_keep_last_value_per_name() {
    let h = vec![
        ("a".to_string(), "1".to_string()),
        ("b".to_string(), "2".to_string()),
        ("a".to_string(), "3".to_string()),
    ];
    assert_eq!(
        HttpCodec::parse_headers(h),
        vec![("a".to_string(), "3".to_string()), ("b".to_string(), "2".to_string())]
    );
}

#[test]
fn packets_carry_id_version_and_payload() {
    let req = ProxyRequest::WebSocketMessage {
        tunnel_id: "tunnel-123".to_string(),
        data: WsData::Text { content: "Hello".to_string() },
    };
    let p = ProxyPacket::new_request("msg-id".to_string(), req.clone());
    assert_eq!(p.id, "msg-id");
    assert_eq!(p.version, 1);
    assert_eq!(p.payload, ProxyPayload::Request(req));
    assert_eq!(p.into_response(), Err("unexpected packet type".to_string()));
    let resp = ProxyResponse::TcpConnected { tunnel_id: "t".to_string() };
    let p = ProxyPacket::new_response("r".to_string(), resp.clone());
    assert_eq!(p.into_response(), Ok(resp));
    assert_eq!(ProtocolType::WebSocket.alpn(), "websocket");
    assert_eq!(ProtocolType::Http.alpn(), "http");
    assert_eq!(ProtocolType::Tcp.alpn(), "tcp");
}

#[test]
fn websocket_codec_tunnel_ids_are_hex() {
    let a = WebSocketCodec::generate_tunnel_id();
    assert_eq!(a.len(), 32);
    assert!(a.chars().all(|c| c.is_ascii_hexdigit() && !c.is_ascii_uppercase()));
}

#[test]
fn stream_reads_in_order_then_ends() {
    let mut s = StreamState::new();
    assert_eq!(s.poll_read(4), ReadPoll::Pending);
    s.on_message(&[1, 2, 3]);
    s.on_message(&[4, 5]);
    assert_eq!(s.poll_read(4), ReadPoll::Ready(vec![1, 2, 3, 4]));
    assert_eq!(s.poll_write(0), WritePoll::Send);
    assert_eq!(s.poll_write(65537), WritePoll::Pending);
    assert!(s.poll_close());
    assert!(!s.poll_close());
    assert_eq!(s.poll_read(4), ReadPoll::Ready(vec![5]));
    assert_eq!(s.poll_read(4), ReadPoll::Eof);
    assert_eq!(s.poll_write(0), WritePoll::BrokenPipe);
}

#[test]
fn stream_error_is_latched() {
    let mut s = StreamState::new();
    s.on_message(&[1]);
    s.on_error();
    assert_eq!(s.poll_read(4), ReadPoll::Failed("WebSocket error".to_string()));
    assert_eq!(s.poll_write(0), WritePoll::Failed);
    assert_eq!(s.check_error(), Err("WebSocket error".to_string()));
}
