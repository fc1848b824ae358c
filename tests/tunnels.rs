use relay_tunnel::channel::SecureConnection;
use relay_tunnel::codec::{ProtocolType, ProxyPayload, ProxyRequest};
use relay_tunnel::crypto::Credential;
use relay_tunnel::error::TunnelError;
use relay_tunnel::frame::decode_frame;
use relay_tunnel::tunnel::{Tunnel, TunnelManager};

fn channel() -> SecureConnection {
    SecureConnection::new(&[1u8; 32], &[2u8; 32], &[0u8; 12], &[0u8; 12])
}

#[test]
fn test_tunnel_id_generation() {
    let credential = Credential::new();
    let manager = TunnelManager::new(credential, "ws://localhost:9001/ws".to_string());

    let id1 = manager.generate_tunnel_id();
    let id2 = manager.generate_tunnel_id();

    assert_ne!(id1, id2);
    assert_eq!(id1.len(), 32); // 16 bytes hex = 32 chars
}

#[test]
fn manager_creates_finds_and_removes_tunnels() {
    let mut m = TunnelManager::new(Credential::new(), "ws://relay".to_string());
    assert_eq!(m.server_url(), "ws://relay");
    let a = m.create_tunnel(ProtocolType::Http, channel()).unwrap();
    let b = m.create_tunnel(ProtocolType::Tcp, channel()).unwrap();
    assert_ne!(a, b);
    assert_eq!(a.len(), 32);
    assert_eq!(m.active_tunnels(), vec![a.clone(), b.clone()]);
    assert_eq!(m.get_tunnel(&b).unwrap().protocol, ProtocolType::Tcp);
    assert!(m.get_tunnel("missing").is_none());
    m.remove_tunnel(&a);
    assert!(m.get_tunnel(&a).is_none());
    assert_eq!(m.active_tunnels(), vec![b.clone()]);
    m.close_all();
    assert!(m.active_tunnels().is_empty());
}

#[test]
fn tunnel_sends_and_receives_through_its_channel() {
    let client = SecureConnection::new(&[1u8; 32], &[2u8; 32], &[0u8; 12], &[0u8; 12]);
    let mut relay = SecureConnection::new(&[2u8; 32], &[1u8; 32], &[0u8; 12], &[0, 0, 0, 0, 0, 0, 0, 0, 0, 0, 0, 1]);
    let mut t = Tunnel::new("t1".to_string(), ProtocolType::Http, client, Credential::new());
    let packet = t.request_packet(ProxyRequest::TcpClose { tunnel_id: "x".to_string() });
    assert_eq!(packet.id, "t1");
    assert!(matches!(packet.payload, ProxyPayload::Request(_)));
    let frame = t.send_request(b"{\"id\":\"t1\"}").unwrap();
    let (payload, _) = decode_frame(&frame).unwrap();
    let mut buf = [0u8; 64];
    let n = relay.read(&payload, &mut buf).unwrap();
    assert_eq!(&buf[..n], b"{\"id\":\"t1\"}");
    // the relay's first frame carries nonce 1: the relay counter starts at 0
    let reply = relay.write(b"response").unwrap();
    let (payload, _) = decode_frame(&reply).unwrap();
    assert_eq!(t.receive_response(&payload), Err(TunnelError::NonceMismatch));
}

#[test]
fn empty_response_means_closed() {
    let client = SecureConnection::new(&[1u8; 32], &[2u8; 32], &[0u8; 12], &[0, 0, 0, 0, 0, 0, 0, 0, 0, 0, 0, 1]);
    let mut relay = SecureConnection::new(&[2u8; 32], &[1u8; 32], &[0u8; 12], &[0u8; 12]);
    let mut t = Tunnel::new("t".to_string(), ProtocolType::Tcp, client, Credential::new());
    let (p, _) = decode_frame(&relay.write(&[]).unwrap()).unwrap();
    assert_eq!(t.receive_response(&p), Err(TunnelError::TransportFailed));
    let (p, _) = decode_frame(&relay.write(b"ok").unwrap()).unwrap();
    assert_eq!(t.receive_response(&p), Ok(b"ok".to_vec()));
}
