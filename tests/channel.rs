use relay_tunnel::channel::SecureConnection;
use relay_tunnel::error::TunnelError;
use relay_tunnel::frame::decode_frame;
use relay_tunnel::wire::EncryptedData;

const KEY_A: [u8; 32] = [0x11; 32];
const KEY_B: [u8; 32] = [0x22; 32];

fn pair(start: [u8; 12]) -> (SecureConnection, SecureConnection) {
    let mut next = start;
    relay_tunnel::nonce::increment_nonce(&mut next);
    let a = SecureConnection::new(&KEY_A, &KEY_B, &start, &[0u8; 12]);
    let b = SecureConnection::new(&KEY_B, &KEY_A, &[0u8; 12], &next);
    (a, b)
}

fn payload_of(frame: &[u8]) -> Vec<u8> {
    decode_frame(frame).unwrap().0
}

#[test]
fn consecutive_writes_use_consecutive_nonces() {
    let (mut a, _) = pair([0, 0, 0, 0, 0, 0, 0, 0, 0, 0, 0, 0xFE]);
    let n1 = EncryptedData::decode(&payload_of(&a.write(b"x").unwrap())).unwrap().nonce;
    let n2 = EncryptedData::decode(&payload_of(&a.write(b"y").unwrap())).unwrap().nonce;
    let n3 = EncryptedData::decode(&payload_of(&a.write(b"z").unwrap())).unwrap().nonce;
    assert_eq!(n1, vec![0, 0, 0, 0, 0, 0, 0, 0, 0, 0, 0, 0xFF]);
    assert_eq!(n2, vec![0, 0, 0, 0, 0, 0, 0, 0, 0, 0, 1, 0x00]);
    assert_eq!(n3, vec![0, 0, 0, 0, 0, 0, 0, 0, 0, 0, 1, 0x01]);
    assert_eq!(a.encrypt_nonce(), n3);
}

#[test]
fn round_trip_of_largest_message() {
    let (mut a, mut b) = pair([9u8; 12]);
    let msg: Vec<u8> = (0..65536 - 16).map(|i| (i % 251) as u8).collect();
    let frame = a.write(&msg).unwrap();
    let mut buf = vec![0u8; 65536];
    let n = b.read(&payload_of(&frame), &mut buf).unwrap();
    assert_eq!(n, msg.len());
    assert_eq!(&buf[..n], &msg[..]);
}

#[test]
fn empty_message_carries_only_the_tag() {
    let (mut a, mut b) = pair([0u8; 12]);
    let frame = a.write(&[]).unwrap();
    let sent = EncryptedData::decode(&payload_of(&frame)).unwrap();
    assert_eq!(sent.payload.len(), 16);
    let mut buf = [0xAAu8; 8];
    assert_eq!(b.read(&payload_of(&frame), &mut buf), Ok(0));
    assert_eq!(buf, [0xAAu8; 8]);
}

#[test]
fn short_buffer_truncates_the_message() {
    let (mut a, mut b) = pair([0u8; 12]);
    let frame = a.write(b"abcdef").unwrap();
    let mut buf = [0u8; 4];
    assert_eq!(b.read(&payload_of(&frame), &mut buf), Ok(4));
    assert_eq!(&buf, b"abcd");
}

#[test]
fn nonce_one_below_expected_is_rejected() {
    let (mut a, mut b) = pair([0u8; 12]);
    let frame = a.write(b"m").unwrap();
    let mut sent = EncryptedData::decode(&payload_of(&frame)).unwrap();
    sent.nonce = vec![0u8; 12];
    let before = b.decrypt_nonce();
    let mut buf = [0u8; 8];
    assert_eq!(b.read(&sent.encode(), &mut buf), Err(TunnelError::NonceMismatch));
    assert_eq!(b.decrypt_nonce(), before);
}

#[test]
fn truncated_tag_is_rejected() {
    let (_, mut b) = pair([0u8; 12]);
    let msg = EncryptedData { nonce: b.decrypt_nonce(), payload: vec![1u8; 10] };
    let mut buf = [0u8; 8];
    assert_eq!(b.read(&msg.encode(), &mut buf), Err(TunnelError::DecryptFailed));
}

#[test]
fn corrupted_ciphertext_is_rejected() {
    let (mut a, mut b) = pair([0u8; 12]);
    let frame = a.write(b"secret").unwrap();
    let mut sent = EncryptedData::decode(&payload_of(&frame)).unwrap();
    sent.payload[0] ^= 0x80;
    let mut buf = [0u8; 8];
    assert_eq!(b.read(&sent.encode(), &mut buf), Err(TunnelError::DecryptFailed));
}

#[test]
fn undecodable_message_is_a_decode_error() {
    let (_, mut b) = pair([0u8; 12]);
    let mut buf = [0u8; 8];
    assert_eq!(b.read(&[0x0A, 0x05, 1], &mut buf), Err(TunnelError::DecodeError));
}

#[test]
fn exhausted_nonce_refuses_to_write() {
    let mut a = SecureConnection::new(&KEY_A, &KEY_B, &[0xFF; 12], &[0u8; 12]);
    assert_eq!(a.write(b"one more"), Err(TunnelError::NonceExhausted));
    assert_eq!(a.encrypt_nonce(), vec![0xFF; 12]);
}

#[test]
fn last_nonce_before_exhaustion_is_usable() {
    let mut start = [0xFF; 12];
    start[11] = 0xFE;
    let mut a = SecureConnection::new(&KEY_A, &KEY_B, &start, &[0u8; 12]);
    assert!(a.write(b"last").is_ok());
    assert_eq!(a.write(b"after"), Err(TunnelError::NonceExhausted));
}

#[test]
fn oversize_message_is_refused_without_moving_the_counter() {
    let mut a = SecureConnection::new(&KEY_A, &KEY_B, &[0u8; 12], &[0u8; 12]);
    let big = vec![0u8; (1 << 26) + 1];
    assert_eq!(a.write(&big), Err(TunnelError::FrameTooLarge));
    assert_eq!(a.encrypt_nonce(), vec![0u8; 12]);
}

#[test]
fn whole_frame_read_refuses_oversize_header_first() {
    let (_, mut b) = pair([0u8; 12]);
    let before = b.decrypt_nonce();
    let mut buf = [7u8; 8];
    assert_eq!(b.read_frame(&[0x04, 0x00, 0x00, 0x01], &mut buf), Err(TunnelError::FrameTooLarge));
    assert_eq!(b.read_frame(&[0x00, 0x00], &mut buf), Err(TunnelError::UnexpectedEof));
    assert_eq!(b.read_frame(&[0x00, 0x00, 0x00, 0x09, 1], &mut buf), Err(TunnelError::UnexpectedEof));
    assert_eq!(b.decrypt_nonce(), before);
    assert_eq!(buf, [7u8; 8]);
}

#[test]
fn whole_frame_read_opens_a_written_frame() {
    let (mut a, mut b) = pair([3u8; 12]);
    let frame = a.write(b"framed").unwrap();
    let mut buf = [0u8; 16];
    assert_eq!(b.read_frame(&frame, &mut buf), Ok(6));
    assert_eq!(&buf[..6], b"framed");
}

#[test]
fn error_reasons() {
    assert_eq!(TunnelError::FrameTooLarge.reason(), "packet too large");
    assert_eq!(TunnelError::NonceMismatch.reason(), "nonce mismatch - possible replay attack");
    assert_eq!(TunnelError::DecryptFailed.reason(), "decryption failed");
    assert_eq!(TunnelError::IdCollision.reason(), "tunnel id already in use");
}
