use relay_tunnel::channel::SecureConnection;
use relay_tunnel::crypto::{verify_signature, Credential};
use relay_tunnel::error::TunnelError;
use relay_tunnel::frame::{decode_frame, encode_frame};
use relay_tunnel::handshake::derive_session_keys;
use relay_tunnel::nonce::increment_nonce;
use relay_tunnel::wire::{EncryptedData, InitPayload, SignedPayload};

const SERVER_SECRET: [u8; 32] = [7u8; 32];
const SERVER_EPHEMERAL: [u8; 32] = [9u8; 32];
const SERVER_NONCE: [u8; 12] = [0, 0, 0, 0, 0, 0, 0, 0, 0, 0, 0, 5];

struct Server {
    client_nonce: Vec<u8>,
    client_epk: [u8; 32],
    hello_frame: Vec<u8>,
}

fn open_frame(frame: &[u8]) -> Vec<u8> {
    let (payload, used) = decode_frame(frame).unwrap();
    assert_eq!(used, frame.len());
    payload
}

fn read_client_hello(frame: &[u8]) -> (Vec<u8>, [u8; 32], InitPayload) {
    let payload = open_frame(frame);
    let signed = SignedPayload::decode(&payload).unwrap();
    let init = InitPayload::decode(&signed.data).unwrap();
    let epk: [u8; 32] = init.session_public_key.as_slice().try_into().unwrap();
    (init.nonce.clone(), epk, init)
}

fn server_hello(version: u32, tamper: bool) -> Vec<u8> {
    let server = Credential::from_secret_key(&SERVER_SECRET).unwrap();
    let epk = x25519_dalek::x25519(SERVER_EPHEMERAL, x25519_dalek::X25519_BASEPOINT_BYTES);
    let init = InitPayload {
        version,
        nonce: SERVER_NONCE.to_vec(),
        timestamp: 1_700_000_000,
        identity: Some(server.identity()),
        alpn: "http".to_string(),
        session_public_key: epk.to_vec(),
    };
    let data = init.encode();
    let signature = server.sign(&data);
    let mut data = data;
    if tamper {
        // the last byte of the server nonce field
        let pos = data.iter().position(|b| *b == 0x12).unwrap() + 2 + 11;
        data[pos] ^= 0x01;
    }
    let signed = SignedPayload { data, signature };
    encode_frame(&signed.encode()).unwrap()
}

fn start_client() -> (relay_tunnel::handshake::ClientHandshake, Server) {
    let client = Credential::new();
    let (hs, frame) = SecureConnection::client_handshake_start(&client, "http", 1_700_000_000).unwrap();
    let (client_nonce, client_epk, init) = read_client_hello(&frame);
    assert_eq!(init.version, 1);
    assert_eq!(init.alpn, "http");
    assert_eq!(init.identity.as_ref().unwrap().id, client.id());
    assert_eq!(client_nonce, hs.client_nonce());
    (hs, Server { client_nonce, client_epk, hello_frame: frame })
}

/// The server's side of the channel: it encrypts with the server-to-client key and
/// sends its initial nonce first, so its counter starts one below.
fn server_channel(s: &Server) -> SecureConnection {
    let shared = x25519_dalek::x25519(SERVER_EPHEMERAL, s.client_epk);
    let (c2s, s2c) = derive_session_keys(&shared, &s.client_nonce, &SERVER_NONCE);
    let mut first_expected = s.client_nonce.clone();
    increment_nonce(&mut first_expected);
    let mut before_first = SERVER_NONCE.to_vec();
    before_first[11] -= 1;
    SecureConnection::new(&s2c, &c2s, &before_first, &first_expected)
}

fn connect() -> (SecureConnection, SecureConnection, Vec<u8>) {
    let (hs, server) = start_client();
    let hello = server_hello(1, false);
    let (client, identity) = SecureConnection::client_handshake_finish(hs, &open_frame(&hello)).unwrap();
    let expected = Credential::from_secret_key(&SERVER_SECRET).unwrap();
    assert_eq!(identity.public_key, expected.public_key());
    let peer = server_channel(&server);
    (client, peer, server.client_nonce)
}

#[test]
fn happy_path_server_sees_client_nonce_plus_one() {
    let (mut client, mut server, client_nonce) = connect();
    let frame = client.write(b"hello").unwrap();
    let payload = open_frame(&frame);
    let sent = EncryptedData::decode(&payload).unwrap();
    let mut expected = client_nonce.clone();
    increment_nonce(&mut expected);
    assert_eq!(sent.nonce, expected);
    let mut buf = [0u8; 64];
    let n = server.read(&payload, &mut buf).unwrap();
    assert_eq!(&buf[..n], b"hello");
}

#[test]
fn client_first_read_uses_server_initial_nonce() {
    let (mut client, mut server, _) = connect();
    let frame = server.write(b"welcome").unwrap();
    let payload = open_frame(&frame);
    assert_eq!(EncryptedData::decode(&payload).unwrap().nonce, SERVER_NONCE.to_vec());
    let mut buf = [0u8; 64];
    let n = client.read(&payload, &mut buf).unwrap();
    assert_eq!(&buf[..n], b"welcome");
}

#[test]
fn replay_of_first_frame_is_rejected() {
    let (mut client, mut server, _) = connect();
    let payload = open_frame(&server.write(b"one").unwrap());
    let mut buf = [0u8; 64];
    assert_eq!(client.read(&payload, &mut buf), Ok(3));
    assert_eq!(client.read(&payload, &mut buf), Err(TunnelError::NonceMismatch));
}

#[test]
fn reordered_frames_are_rejected() {
    let (mut client, mut server, _) = connect();
    let f1 = open_frame(&server.write(b"n").unwrap());
    let f2 = open_frame(&server.write(b"n+1").unwrap());
    let f3 = open_frame(&server.write(b"n+2").unwrap());
    let mut buf = [0u8; 64];
    assert_eq!(client.read(&f1, &mut buf), Ok(1));
    assert_eq!(client.read(&f3, &mut buf), Err(TunnelError::NonceMismatch));
    // the refused frame did not move the counter: the next in order still opens
    assert_eq!(client.read(&f2, &mut buf), Ok(3));
}

#[test]
fn tampered_server_hello_is_rejected() {
    let (hs, _server) = start_client();
    let hello = server_hello(1, true);
    let r = SecureConnection::client_handshake_finish(hs, &open_frame(&hello));
    assert!(matches!(r, Err(TunnelError::BadSignature)));
}

#[test]
fn version_zero_is_rejected() {
    let (hs, _server) = start_client();
    let r = SecureConnection::client_handshake_finish(hs, &open_frame(&server_hello(0, false)));
    assert!(matches!(r, Err(TunnelError::VersionMismatch)));
}

#[test]
fn version_two_is_rejected() {
    let (hs, _server) = start_client();
    let r = SecureConnection::client_handshake_finish(hs, &open_frame(&server_hello(2, false)));
    assert!(matches!(r, Err(TunnelError::VersionMismatch)));
}

#[test]
fn garbage_server_hello_is_a_decode_error() {
    let (hs, _server) = start_client();
    let r = SecureConnection::client_handshake_finish(hs, &[0xFF, 0x00, 0x01]);
    assert!(matches!(r, Err(TunnelError::DecodeError)));
}

#[test]
fn missing_identity_is_rejected() {
    let (hs, _server) = start_client();
    let server = Credential::from_secret_key(&SERVER_SECRET).unwrap();
    let init = InitPayload {
        version: 1,
        nonce: SERVER_NONCE.to_vec(),
        timestamp: 0,
        identity: None,
        alpn: String::new(),
        session_public_key: vec![1u8; 32],
    };
    let data = init.encode();
    let signature = server.sign(&data);
    let msg = SignedPayload { data, signature }.encode();
    let r = SecureConnection::client_handshake_finish(hs, &msg);
    assert!(matches!(r, Err(TunnelError::BadIdentity)));
}

#[test]
fn client_hello_signature_verifies_under_client_identity() {
    let client = Credential::new();
    let (_hs, frame) = SecureConnection::client_handshake_start(&client, "tcp", 42).unwrap();
    let signed = SignedPayload::decode(&open_frame(&frame)).unwrap();
    let init = InitPayload::decode(&signed.data).unwrap();
    assert_eq!(verify_signature(init.identity.as_ref().unwrap(), &signed), Ok(()));
    assert_eq!(init.timestamp, 42);
    assert_eq!(init.alpn, "tcp");
}

#[test]
fn session_keys_match_hkdf_sha256() {
    let shared = [3u8; 32];
    let cn = [1u8; 12];
    let sn = [2u8; 12];
    let (c2s, s2c) = derive_session_keys(&shared, &cn, &sn);
    let mut salt = cn.to_vec();
    salt.extend_from_slice(&sn);
    let mut expected = [0u8; 32];
    hkdf::Hkdf::<sha2::Sha256>::new(Some(&salt), &shared).expand(b"RDSEC_KEY_CLIENT", &mut expected).unwrap();
    assert_eq!(c2s, expected.to_vec());
    let mut salt = sn.to_vec();
    salt.extend_from_slice(&cn);
    hkdf::Hkdf::<sha2::Sha256>::new(Some(&salt), &shared).expand(b"RDSEC_KEY_SERVER", &mut expected).unwrap();
    assert_eq!(s2c, expected.to_vec());
    assert_ne!(c2s, s2c);
}
