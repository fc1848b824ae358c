//! The client side of the handshake: an ephemeral X25519 exchange bound to both
//! parties' long-term Ed25519 identities, from which each direction gets its own key.
use crate::bytes::{concat, copy_bytes};
use crate::channel::{
    lemma_read_uses_current_nonce, lemma_write_uses_next_nonce, read_spec, write_spec, ChannelView,
    SecureConnection,
};
use crate::crypto::{
    derive_key, ed25519_signature_of, ephemeral_public_key, fresh_ephemeral_secret, hex_lower,
    hkdf_sha256, lemma_hex_lower_len, random_bytes, signature_check, verify_signature,
    x25519_shared_secret, Credential, KEY_SIZE,
};
use crate::error::TunnelError;
use crate::frame::{encode_frame, is_frame_of, MAX_FRAME_LEN};
use crate::nonce::{be_value, lemma_be_value_injective, NONCE_SIZE};
use crate::wire::{
    identity_wire, init_key, init_wire, lemma_field_lens, lemma_init_wire_fields, lemma_utf8_len,
    pair_bytes, timestamp_wire, Identity, IdentityView, InitPayload, InitView, SignedPayload,
};
use vstd::utf8::encode_utf8;
use vstd::prelude::*;
use x25519_dalek::EphemeralSecret;

verus! {

/// The protocol version this side speaks.
pub const PROTOCOL_VERSION: u32 = 1;

/// HKDF info for the client-to-server key: ASCII `RDSEC_KEY_CLIENT`.
pub open spec fn client_key_info() -> Seq<u8> {
    seq![0x52u8, 0x44, 0x53, 0x45, 0x43, 0x5F, 0x4B, 0x45, 0x59, 0x5F, 0x43, 0x4C, 0x49, 0x45, 0x4E, 0x54]
}

/// HKDF info for the server-to-client key: ASCII `RDSEC_KEY_SERVER`.
pub open spec fn server_key_info() -> Seq<u8> {
    seq![0x52u8, 0x44, 0x53, 0x45, 0x43, 0x5F, 0x4B, 0x45, 0x59, 0x5F, 0x53, 0x45, 0x52, 0x56, 0x45, 0x52]
}

fn client_key_info_bytes() -> (r: Vec<u8>)
    ensures
        r@ == client_key_info(),
{
    let r: Vec<u8> = vec![0x52, 0x44, 0x53, 0x45, 0x43, 0x5F, 0x4B, 0x45, 0x59, 0x5F, 0x43, 0x4C, 0x49, 0x45, 0x4E, 0x54];
    assert(r@ =~= client_key_info());
    r
}

fn server_key_info_bytes() -> (r: Vec<u8>)
    ensures
        r@ == server_key_info(),
{
    let r: Vec<u8> = vec![0x52, 0x44, 0x53, 0x45, 0x43, 0x5F, 0x4B, 0x45, 0x59, 0x5F, 0x53, 0x45, 0x52, 0x56, 0x45, 0x52];
    assert(r@ =~= server_key_info());
    r
}

/// The two directional keys from a shared secret: client-to-server salted with the
/// client nonce then the server nonce, server-to-client with the reverse.
pub fn derive_session_keys(shared: &[u8], client_nonce: &[u8], server_nonce: &[u8]) -> (r: (
    Vec<u8>,
    Vec<u8>,
))
    ensures
        r.0@ == hkdf_sha256(client_nonce@ + server_nonce@, shared@, client_key_info()),
        r.1@ == hkdf_sha256(server_nonce@ + client_nonce@, shared@, server_key_info()),
        r.0@.len() == KEY_SIZE,
        r.1@.len() == KEY_SIZE,
{
    let client_salt = concat(client_nonce, server_nonce);
    let server_salt = concat(server_nonce, client_nonce);
    let ck = client_key_info_bytes();
    let sk = server_key_info_bytes();
    let encrypt_key = derive_key(shared, client_salt.as_slice(), ck.as_slice());
    let decrypt_key = derive_key(shared, server_salt.as_slice(), sk.as_slice());
    (encrypt_key, decrypt_key)
}

/// A channel set up by the client from its nonce and the server's, over some 32-byte
/// shared secret.
pub open spec fn session_established(c: ChannelView, client_nonce: Seq<u8>, server_nonce: Seq<u8>) -> bool {
    &&& c.wf()
    &&& c.encrypt_nonce == client_nonce
    &&& c.decrypt_nonce == server_nonce
    &&& exists|shared: Seq<u8>|
        #![trigger hkdf_sha256(client_nonce + server_nonce, shared, client_key_info())]
        shared.len() == KEY_SIZE && c.encrypt_key == hkdf_sha256(
            client_nonce + server_nonce,
            shared,
            client_key_info(),
        ) && c.decrypt_key == hkdf_sha256(server_nonce + client_nonce, shared, server_key_info())
}

/// The client's opening message, before signing.
pub open spec fn client_init_view(
    public_key: Seq<u8>,
    alpn: Seq<char>,
    timestamp: i64,
    nonce: Seq<u8>,
    session_public_key: Seq<u8>,
) -> InitView {
    InitView {
        version: PROTOCOL_VERSION,
        nonce,
        timestamp,
        identity: Some(IdentityView { id: hex_lower(public_key), public_key }),
        alpn,
        session_public_key,
    }
}

/// The signed client hello that goes in the first frame.
pub open spec fn client_hello(
    credential: Credential,
    alpn: Seq<char>,
    timestamp: i64,
    nonce: Seq<u8>,
    session_public_key: Seq<u8>,
) -> Seq<u8> {
    let data = init_wire(
        client_init_view(credential.public_key_view(), alpn, timestamp, nonce, session_public_key),
    );
    pair_bytes(data, ed25519_signature_of(credential.secret(), data))
}

/// How a server hello with signed bytes `data`, signature `sig` and contents `v` is judged.
pub open spec fn server_init_check(data: Seq<u8>, sig: Seq<u8>, v: InitView) -> Result<(), TunnelError> {
    if v.version != PROTOCOL_VERSION {
        Err(TunnelError::VersionMismatch)
    } else if v.identity is None {
        Err(TunnelError::BadIdentity)
    } else if signature_check(v.identity->0.public_key, data, sig) is Err {
        signature_check(v.identity->0.public_key, data, sig)
    } else if v.session_public_key.len() != KEY_SIZE {
        Err(TunnelError::BadIdentity)
    } else if v.nonce.len() != NONCE_SIZE {
        Err(TunnelError::DecodeError)
    } else {
        Ok(())
    }
}

/// The handshake's second half: from the client's nonce and the server hello `msg`
/// (the payload of one frame) to result `r`.
pub open spec fn finish_spec(
    client_nonce: Seq<u8>,
    msg: Seq<u8>,
    r: Result<(ChannelView, IdentityView), TunnelError>,
) -> bool {
    &&& (!(exists|d: Seq<u8>, s: Seq<u8>| pair_bytes(d, s) == msg) ==> r == Err::<
        (ChannelView, IdentityView),
        TunnelError,
    >(TunnelError::DecodeError))
    &&& forall|d: Seq<u8>, s: Seq<u8>|
        #![trigger pair_bytes(d, s)]
        pair_bytes(d, s) == msg ==> {
            &&& (!(exists|v: InitView| init_wire(v) == d) ==> r == Err::<
                (ChannelView, IdentityView),
                TunnelError,
            >(TunnelError::DecodeError))
            &&& forall|v: InitView|
                #![trigger init_wire(v)]
                init_wire(v) == d ==> match server_init_check(d, s, v) {
                    Err(e) => r == Err::<(ChannelView, IdentityView), TunnelError>(e),
                    Ok(_) => r is Ok && r->Ok_0.1 == v.identity->0 && session_established(
                        r->Ok_0.0,
                        client_nonce,
                        v.nonce,
                    ),
                }
        }
}

/// The view of a finished handshake.
pub open spec fn finish_result_view(r: Result<(SecureConnection, Identity), TunnelError>) -> Result<
    (ChannelView, IdentityView),
    TunnelError,
> {
    match r {
        Ok((c, i)) => Ok((c@, i@)),
        Err(e) => Err(e),
    }
}

/// A handshake the client has opened and not yet finished: the ephemeral secret
/// (used once, by `finish`), the client nonce and the ephemeral public key.
pub struct ClientHandshake {
    secret: EphemeralSecret,
    client_nonce: Vec<u8>,
    session_public_key: Vec<u8>,
}

impl ClientHandshake {
    #[verifier::type_invariant]
    spec fn well_formed(self) -> bool {
        &&& self.client_nonce@.len() == NONCE_SIZE
        &&& self.session_public_key@.len() == KEY_SIZE
    }

    /// The client nonce sent in the hello.
    pub closed spec fn nonce_view(self) -> Seq<u8> {
        self.client_nonce@
    }

    /// The ephemeral public key sent in the hello.
    pub closed spec fn public_key_view(self) -> Seq<u8> {
        self.session_public_key@
    }

    pub fn client_nonce(&self) -> (r: Vec<u8>)
        ensures
            r@ == self.nonce_view(),
            r@.len() == NONCE_SIZE,
    {
        proof {
            use_type_invariant(self);
        }
        copy_bytes(self.client_nonce.as_slice())
    }

    pub fn session_public_key(&self) -> (r: Vec<u8>)
        ensures
            r@ == self.public_key_view(),
            r@.len() == KEY_SIZE,
    {
        proof {
            use_type_invariant(self);
        }
        copy_bytes(self.session_public_key.as_slice())
    }
}

impl SecureConnection {
    /// Opens a client handshake: draws an ephemeral X25519 key pair and a 12-byte
    /// nonce, and returns the pending handshake with the first frame to send, the
    /// signed client hello. Only a hello larger than a frame (an overlong `alpn`)
    /// is refused.
    #[verifier::rlimit(40)]
    pub fn client_handshake_start(credential: &Credential, alpn: &str, timestamp: i64) -> (r: Result<
        (ClientHandshake, Vec<u8>),
        TunnelError,
    >)
        ensures
            r matches Ok((hs, f)) ==> is_frame_of(
                f@,
                client_hello(*credential, alpn@, timestamp, hs.nonce_view(), hs.public_key_view()),
            ),
            alpn@.len() <= 1024 ==> r is Ok,
            r matches Err(e) ==> e == TunnelError::FrameTooLarge && exists|n: Seq<u8>, k: Seq<u8>|
                n.len() == NONCE_SIZE && k.len() == KEY_SIZE && client_hello(
                    *credential,
                    alpn@,
                    timestamp,
                    n,
                    k,
                ).len() > MAX_FRAME_LEN,
    {
        let secret = fresh_ephemeral_secret();
        let session_public_key = ephemeral_public_key(&secret);
        let client_nonce = random_bytes(NONCE_SIZE);
        let init = InitPayload {
            version: PROTOCOL_VERSION,
            nonce: copy_bytes(client_nonce.as_slice()),
            timestamp,
            identity: Some(credential.identity()),
            alpn: alpn.to_string(),
            session_public_key: copy_bytes(session_public_key.as_slice()),
        };
        let data = init.encode();
        let signature = credential.sign(data.as_slice());
        let ghost signature_view = signature@;
        let hello = SignedPayload { data, signature }.encode();
        proof {
            assert(init@ == client_init_view(
                credential.public_key_view(),
                alpn@,
                timestamp,
                client_nonce@,
                session_public_key@,
            ));
        }
        match encode_frame(hello.as_slice()) {
            Ok(f) => Ok((ClientHandshake { secret, client_nonce, session_public_key }, f)),
            Err(e) => {
                proof {
                    if alpn@.len() <= 1024 {
                        lemma_client_hello_fits(init@, signature_view);
                    }
                }
                assert(client_hello(*credential, alpn@, timestamp, client_nonce@, session_public_key@).len()
                    > MAX_FRAME_LEN);
                Err(e)
            },
        }
    }

    /// Completes a client handshake with the server hello `msg` (the payload of the
    /// frame that came back). The hello must decode, speak version 1, carry an
    /// identity whose key verifies the signature over the signed bytes, and hold a
    /// 32-byte ephemeral key and a 12-byte nonce. Returns the channel and the
    /// server's identity, for the caller to pin or check.
    #[verifier::rlimit(40)]
    pub fn client_handshake_finish(hs: ClientHandshake, msg: &[u8]) -> (r: Result<
        (SecureConnection, Identity),
        TunnelError,
    >)
        ensures
            finish_spec(hs.nonce_view(), msg@, finish_result_view(r)),
    {
        proof {
            use_type_invariant(&hs);
        }
        let signed = match SignedPayload::decode(msg) {
            Ok(s) => s,
            Err(e) => {
                return Err(e);
            },
        };
        let server = match InitPayload::decode(signed.data.as_slice()) {
            Ok(v) => v,
            Err(e) => {
                return Err(e);
            },
        };
        if server.version != PROTOCOL_VERSION {
            return Err(TunnelError::VersionMismatch);
        }
        let identity = match server.identity {
            Some(i) => i,
            None => {
                return Err(TunnelError::BadIdentity);
            },
        };
        match verify_signature(&identity, &signed) {
            Ok(()) => {},
            Err(e) => {
                return Err(e);
            },
        }
        if server.session_public_key.len() != KEY_SIZE {
            return Err(TunnelError::BadIdentity);
        }
        if server.nonce.len() != NONCE_SIZE {
            return Err(TunnelError::DecodeError);
        }
        let ClientHandshake { secret, client_nonce, session_public_key: _ } = hs;
        let shared = x25519_shared_secret(secret, server.session_public_key.as_slice());
        let (encrypt_key, decrypt_key) = derive_session_keys(
            shared.as_slice(),
            client_nonce.as_slice(),
            server.nonce.as_slice(),
        );
        let conn = SecureConnection::new(
            encrypt_key.as_slice(),
            decrypt_key.as_slice(),
            client_nonce.as_slice(),
            server.nonce.as_slice(),
        );
        Ok((conn, identity))
    }
}

/// A client hello with an ALPN label of at most 1024 characters fits in a frame.
proof fn lemma_client_hello_fits(v: InitView, sig: Seq<u8>)
    requires
        v.nonce.len() == NONCE_SIZE,
        v.session_public_key.len() == KEY_SIZE,
        v.identity is Some,
        v.identity->0.public_key.len() == KEY_SIZE,
        v.identity->0.id == hex_lower(v.identity->0.public_key),
        v.alpn.len() <= 1024,
        sig.len() == 64,
    ensures
        pair_bytes(init_wire(v), sig).len() <= MAX_FRAME_LEN,
{
    let i = v.identity->0;
    lemma_hex_lower_len(i.public_key);
    lemma_utf8_len(i.id);
    lemma_utf8_len(v.alpn);
    let idw = identity_wire(i);
    lemma_field_lens(0x0A, encode_utf8(i.id), 0);
    lemma_field_lens(0x12, i.public_key, 0);
    assert(idw.len() <= 400);
    lemma_init_wire_fields(v);
    lemma_field_lens(init_key(0), v.nonce, v.version as nat);
    lemma_field_lens(init_key(1), v.nonce, 0);
    lemma_field_lens(init_key(2), v.nonce, timestamp_wire(v.timestamp));
    lemma_field_lens(init_key(3), idw, 0);
    lemma_field_lens(init_key(4), encode_utf8(v.alpn), 0);
    lemma_field_lens(init_key(5), v.session_public_key, 0);
    let data = init_wire(v);
    assert(data.len() <= 6000);
    lemma_field_lens(0x0A, data, 0);
    lemma_field_lens(0x12, sig, 0);
}

// ----- laws of the handshake -----

/// A server hello whose version is not 1 (0 or 2, say) is refused with a version
/// mismatch, whatever else it holds.
pub proof fn lemma_version_mismatch_rejected(
    client_nonce: Seq<u8>,
    msg: Seq<u8>,
    r: Result<(ChannelView, IdentityView), TunnelError>,
    data: Seq<u8>,
    sig: Seq<u8>,
    v: InitView,
)
    requires
        finish_spec(client_nonce, msg, r),
        pair_bytes(data, sig) == msg,
        init_wire(v) == data,
        v.version != PROTOCOL_VERSION,
    ensures
        r == Err::<(ChannelView, IdentityView), TunnelError>(TunnelError::VersionMismatch),
{
}

/// On a channel just set up by the handshake, the first message accepted carries
/// the server's nonce from its hello, unmodified.
pub proof fn lemma_first_read_uses_server_nonce(
    c0: ChannelView,
    client_nonce: Seq<u8>,
    server_nonce: Seq<u8>,
    msg: Seq<u8>,
    old_buf: Seq<u8>,
    n: usize,
    c1: ChannelView,
    new_buf: Seq<u8>,
    nonce: Seq<u8>,
    ct: Seq<u8>,
)
    requires
        session_established(c0, client_nonce, server_nonce),
        read_spec(c0, msg, old_buf, Ok(n), c1, new_buf),
        pair_bytes(nonce, ct) == msg,
    ensures
        nonce == server_nonce,
{
    lemma_read_uses_current_nonce(c0, msg, old_buf, n, c1, new_buf, nonce, ct);
}

/// On a channel just set up by the handshake, the first message sent is sealed
/// under the client's nonce plus one.
pub proof fn lemma_first_write_uses_client_nonce_plus_one(
    c0: ChannelView,
    client_nonce: Seq<u8>,
    server_nonce: Seq<u8>,
    b: Seq<u8>,
    f: Seq<u8>,
    c1: ChannelView,
)
    requires
        session_established(c0, client_nonce, server_nonce),
        write_spec(c0, b, Ok(f), c1),
    ensures
        be_value(c1.encrypt_nonce) == be_value(client_nonce) + 1,
        is_frame_of(f, crate::channel::sealed_message(c0.encrypt_key, c1.encrypt_nonce, b)),
{
    lemma_write_uses_next_nonce(c0, b, f, c1);
}

/// After the handshake, the client's first message reaches a server that holds the
/// client-to-server key and expects the client nonce plus one: the server reads it
/// whole, and the nonce it sees is the client nonce plus one.
pub proof fn lemma_first_message_delivered(
    c0: ChannelView,
    client_nonce: Seq<u8>,
    server_nonce: Seq<u8>,
    b: Seq<u8>,
    f: Seq<u8>,
    c1: ChannelView,
    s0: ChannelView,
    old_buf: Seq<u8>,
    r: Result<usize, TunnelError>,
    s1: ChannelView,
    new_buf: Seq<u8>,
)
    requires
        session_established(c0, client_nonce, server_nonce),
        b.len() <= 65536 - 16,
        write_spec(c0, b, Ok(f), c1),
        read_spec(s0, f.subrange(4, f.len() as int), old_buf, r, s1, new_buf),
        s0.decrypt_key == c0.encrypt_key,
        s0.decrypt_nonce.len() == NONCE_SIZE,
        be_value(s0.decrypt_nonce) == be_value(client_nonce) + 1,
        b.len() <= old_buf.len(),
    ensures
        r == Ok::<usize, TunnelError>(b.len() as usize),
        new_buf.subrange(0, b.len() as int) == b,
        s0.decrypt_nonce == c1.encrypt_nonce,
{
    lemma_first_write_uses_client_nonce_plus_one(c0, client_nonce, server_nonce, b, f, c1);
    lemma_be_value_injective(s0.decrypt_nonce, c1.encrypt_nonce);
    crate::channel::lemma_round_trip(c0, b, f, c1, s0, old_buf, r, s1, new_buf);
}

} // verus!
