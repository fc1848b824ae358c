//! Cryptographic primitives the tunnel relies on, and the long-term credential.
//!
//! The primitives come from outside crates; each is reached through one small
//! trusted function below whose contract says what the crate computes. Results
//! that are a function of their inputs alone get a name; results that depend on
//! fresh randomness get only their length.
use crate::bytes::copy_bytes;
use crate::error::TunnelError;
use crate::wire::{Identity, SignedPayload};
use chacha20poly1305::aead::Aead;
use chacha20poly1305::{ChaCha20Poly1305, KeyInit};
use ed25519_dalek::{Signature, Signer, SigningKey, VerifyingKey};
use hkdf::Hkdf;
use rand_core::RngCore;
use sha2::Sha256;
use vstd::prelude::*;
use x25519_dalek::{EphemeralSecret, PublicKey};

verus! {

/// Length of an Ed25519 secret key and of a public key.
pub const KEY_SIZE: usize = 32;

/// Length of an Ed25519 signature.
pub const SIGNATURE_SIZE: usize = 64;

/// Length of the Poly1305 authentication tag.
pub const TAG_SIZE: usize = 16;

// ----- names for what the outside functions compute -----

/// The Ed25519 public key of a 32-byte secret key.
pub uninterp spec fn ed25519_public_of(secret: Seq<u8>) -> Seq<u8>;

/// The Ed25519 signature of `msg` under a 32-byte secret key (Ed25519 signing is deterministic).
pub uninterp spec fn ed25519_signature_of(secret: Seq<u8>, msg: Seq<u8>) -> Seq<u8>;

/// Whether 32 bytes decode to an Ed25519 public key.
pub uninterp spec fn ed25519_key_decodes(public_key: Seq<u8>) -> bool;

/// Whether `sig` is a valid strict Ed25519 signature of `msg` under `public_key`.
pub uninterp spec fn ed25519_verifies(public_key: Seq<u8>, msg: Seq<u8>, sig: Seq<u8>) -> bool;

/// HKDF-SHA256 with the given salt, input key material and info, 32 bytes of output.
pub uninterp spec fn hkdf_sha256(salt: Seq<u8>, ikm: Seq<u8>, info: Seq<u8>) -> Seq<u8>;

/// ChaCha20-Poly1305 encryption of `plaintext` with empty associated data: ciphertext then tag.
pub uninterp spec fn aead_seal(key: Seq<u8>, nonce: Seq<u8>, plaintext: Seq<u8>) -> Seq<u8>;

/// ChaCha20-Poly1305 decryption with empty associated data; `None` when the tag does not check.
pub uninterp spec fn aead_open(key: Seq<u8>, nonce: Seq<u8>, ciphertext: Seq<u8>) -> Option<Seq<u8>>;

/// The largest plaintext handed to the cipher; every frame stays below this.
pub const MAX_SEAL_LEN: usize = 0x400_0000;

// ----- trusted calls -----

/// Relies on `rand_core::OsRng::fill_bytes` (the operating system's generator) for
/// `len` random bytes. OsRng panics if the system generator fails, which the
/// credential and tunnel layers treat as fatal to the process.
#[verifier::external_body]
pub(crate) fn random_bytes(len: usize) -> (r: Vec<u8>)
    ensures
        r@.len() == len,
{
    let mut buf = vec![0u8; len];
    rand_core::OsRng.fill_bytes(&mut buf);
    buf
}

/// Relies on `ed25519_dalek::SigningKey::generate` with the OS generator: a fresh
/// 32-byte secret key.
#[verifier::external_body]
fn generate_secret_key() -> (r: Vec<u8>)
    ensures
        r@.len() == KEY_SIZE,
{
    SigningKey::generate(&mut rand_core::OsRng).to_bytes().to_vec()
}

/// Relies on `ed25519_dalek::SigningKey::verifying_key`: the public key of a secret key.
#[verifier::external_body]
fn ed25519_public_key(secret: &[u8]) -> (r: Vec<u8>)
    requires
        secret@.len() == KEY_SIZE,
    ensures
        r@ == ed25519_public_of(secret@),
        r@.len() == KEY_SIZE,
{
    let secret: [u8; 32] = secret.try_into().unwrap();
    SigningKey::from_bytes(&secret).verifying_key().to_bytes().to_vec()
}

/// Relies on `ed25519_dalek::SigningKey::sign`: a 64-byte signature of `msg`.
#[verifier::external_body]
fn ed25519_sign(secret: &[u8], msg: &[u8]) -> (r: Vec<u8>)
    requires
        secret@.len() == KEY_SIZE,
    ensures
        r@ == ed25519_signature_of(secret@, msg@),
        r@.len() == SIGNATURE_SIZE,
{
    let secret: [u8; 32] = secret.try_into().unwrap();
    SigningKey::from_bytes(&secret).sign(msg).to_bytes().to_vec()
}

/// Relies on `ed25519_dalek::VerifyingKey::from_bytes`: whether 32 bytes are a public key.
#[verifier::external_body]
fn ed25519_public_key_valid(public_key: &[u8]) -> (r: bool)
    requires
        public_key@.len() == KEY_SIZE,
    ensures
        r == ed25519_key_decodes(public_key@),
{
    let pk: [u8; 32] = public_key.try_into().unwrap();
    VerifyingKey::from_bytes(&pk).is_ok()
}

/// Relies on `ed25519_dalek::VerifyingKey::verify_strict`, which also rejects
/// non-canonical signatures and small-order keys.
#[verifier::external_body]
fn ed25519_verify_strict(public_key: &[u8], msg: &[u8], sig: &[u8]) -> (r: bool)
    requires
        public_key@.len() == KEY_SIZE,
        ed25519_key_decodes(public_key@),
        sig@.len() == SIGNATURE_SIZE,
    ensures
        r == ed25519_verifies(public_key@, msg@, sig@),
{
    let pk: [u8; 32] = public_key.try_into().unwrap();
    let sig: [u8; 64] = sig.try_into().unwrap();
    match VerifyingKey::from_bytes(&pk) {
        Ok(key) => key.verify_strict(msg, &Signature::from_bytes(&sig)).is_ok(),
        Err(_) => false,
    }
}

#[verifier::external_type_specification]
#[verifier::external_body]
pub struct ExEphemeralSecret(EphemeralSecret);

/// Relies on `x25519_dalek::EphemeralSecret::random_from_rng` with the OS generator.
#[verifier::external_body]
pub(crate) fn fresh_ephemeral_secret() -> (r: EphemeralSecret) {
    EphemeralSecret::random_from_rng(rand_core::OsRng)
}

/// Relies on `x25519_dalek::PublicKey::from(&EphemeralSecret)`: the 32-byte public key.
#[verifier::external_body]
pub(crate) fn ephemeral_public_key(secret: &EphemeralSecret) -> (r: Vec<u8>)
    ensures
        r@.len() == KEY_SIZE,
{
    PublicKey::from(secret).as_bytes().to_vec()
}

/// Relies on `x25519_dalek::EphemeralSecret::diffie_hellman`: the 32-byte shared secret.
/// The secret is consumed, so it serves one exchange only.
#[verifier::external_body]
pub(crate) fn x25519_shared_secret(secret: EphemeralSecret, peer_public: &[u8]) -> (r: Vec<u8>)
    requires
        peer_public@.len() == KEY_SIZE,
    ensures
        r@.len() == KEY_SIZE,
{
    let peer: [u8; 32] = peer_public.try_into().unwrap();
    secret.diffie_hellman(&PublicKey::from(peer)).as_bytes().to_vec()
}

/// Derives a 32-byte session key. Relies on `hkdf::Hkdf::<Sha256>::new` and `expand`;
/// expanding to 32 bytes cannot fail (the limit is 255 hash lengths).
#[verifier::external_body]
pub(crate) fn derive_key(shared_secret: &[u8], salt: &[u8], info: &[u8]) -> (r: Vec<u8>)
    ensures
        r@ == hkdf_sha256(salt@, shared_secret@, info@),
        r@.len() == KEY_SIZE,
{
    let hkdf = Hkdf::<Sha256>::new(Some(salt), shared_secret);
    let mut key = [0u8; 32];
    hkdf.expand(info, &mut key).expect("32 bytes is a valid HKDF output length");
    key.to_vec()
}

/// Relies on `ChaCha20Poly1305::encrypt` with empty associated data: the ciphertext is as
/// long as the plaintext, followed by the 16-byte tag. Encryption fails only past
/// 2^32 blocks of 64 bytes, far above the plaintext bound required here.
#[verifier::external_body]
pub(crate) fn seal(key: &[u8], nonce: &[u8], plaintext: &[u8]) -> (r: Vec<u8>)
    requires
        key@.len() == KEY_SIZE,
        nonce@.len() == 12,
        plaintext@.len() <= MAX_SEAL_LEN,
    ensures
        r@ == aead_seal(key@, nonce@, plaintext@),
        r@.len() == plaintext@.len() + TAG_SIZE,
{
    let cipher = ChaCha20Poly1305::new(key.into());
    cipher.encrypt(nonce.into(), plaintext).expect("plaintext within the cipher's limit")
}

/// Relies on `ChaCha20Poly1305::decrypt` with empty associated data. Input shorter than
/// a tag is refused; the ciphertext that `encrypt` made under the same key and nonce
/// opens to its plaintext.
#[verifier::external_body]
pub(crate) fn open(key: &[u8], nonce: &[u8], ciphertext: &[u8]) -> (r: Option<Vec<u8>>)
    requires
        key@.len() == KEY_SIZE,
        nonce@.len() == 12,
    ensures
        r is Some ==> aead_open(key@, nonce@, ciphertext@) == Some(r->0@),
        r is None ==> aead_open(key@, nonce@, ciphertext@) is None,
        ciphertext@.len() < TAG_SIZE ==> r is None,
        forall|p: Seq<u8>| #![trigger aead_seal(key@, nonce@, p)] p.len() <= MAX_SEAL_LEN && aead_seal(key@, nonce@, p) == ciphertext@ ==> (r is Some && r->0@ == p),
{
    let cipher = ChaCha20Poly1305::new(key.into());
    cipher.decrypt(nonce.into(), ciphertext).ok()
}

// ----- hex -----

/// The lowercase hexadecimal digit for a value below 16.
pub open spec fn hex_digit(d: u8) -> char {
    if d < 10 {
        ((d + 48) as u8) as char
    } else {
        ((d + 87) as u8) as char
    }
}

/// Lowercase hex: two digits per byte, high nibble first.
pub open spec fn hex_lower(b: Seq<u8>) -> Seq<char>
    decreases b.len(),
{
    if b.len() == 0 {
        Seq::empty()
    } else {
        seq![hex_digit(b[0] / 16), hex_digit(b[0] % 16)] + hex_lower(b.drop_first())
    }
}

/// Hex has two digits per byte.
pub proof fn lemma_hex_lower_len(b: Seq<u8>)
    ensures
        hex_lower(b).len() == 2 * b.len(),
    decreases b.len(),
{
    if b.len() > 0 {
        lemma_hex_lower_len(b.drop_first());
    }
}

/// Relies on `hex::encode`: each byte becomes two lowercase hex digits, high nibble first.
#[verifier::external_body]
pub(crate) fn hex_encode(b: &[u8]) -> (r: String)
    ensures
        r@ == hex_lower(b@),
{
    hex::encode(b)
}

// ----- credential -----

/// A long-term signing identity. Its id is the lowercase hex of its public key.
pub struct Credential {
    secret_key: Vec<u8>,
    id: String,
}

impl Credential {
    #[verifier::type_invariant]
    spec fn well_formed(self) -> bool {
        &&& self.secret_key@.len() == KEY_SIZE
        &&& self.id@ == hex_lower(ed25519_public_of(self.secret_key@))
    }

    /// The secret key (only its name appears in contracts).
    pub closed spec fn secret(self) -> Seq<u8> {
        self.secret_key@
    }

    /// The public key.
    pub open spec fn public_key_view(self) -> Seq<u8> {
        ed25519_public_of(self.secret())
    }

    /// Creates a credential with a fresh random key.
    pub fn new() -> (r: Credential)
        ensures
            r.secret().len() == KEY_SIZE,
    {
        let secret_key = generate_secret_key();
        Self::from_key_bytes(secret_key)
    }

    fn from_key_bytes(secret_key: Vec<u8>) -> (r: Credential)
        requires
            secret_key@.len() == KEY_SIZE,
        ensures
            r.secret() == secret_key@,
    {
        let public_key = ed25519_public_key(secret_key.as_slice());
        let id = hex_encode(public_key.as_slice());
        Credential { secret_key, id }
    }

    /// Loads a credential from a persisted 32-byte secret key; other lengths are refused.
    pub fn from_secret_key(secret_key: &[u8]) -> (r: Option<Credential>)
        ensures
            secret_key@.len() == KEY_SIZE <==> r is Some,
            r matches Some(c) ==> c.secret() == secret_key@,
    {
        if secret_key.len() != KEY_SIZE {
            return None;
        }
        Some(Self::from_key_bytes(copy_bytes(secret_key)))
    }

    /// The credential id: lowercase hex of the public key.
    pub fn id(&self) -> (r: &str)
        ensures
            r@ == hex_lower(self.public_key_view()),
    {
        proof {
            use_type_invariant(self);
        }
        self.id.as_str()
    }

    /// The 32-byte Ed25519 public key.
    pub fn public_key(&self) -> (r: Vec<u8>)
        ensures
            r@ == self.public_key_view(),
            r@.len() == KEY_SIZE,
    {
        proof {
            use_type_invariant(self);
        }
        ed25519_public_key(self.secret_key.as_slice())
    }

    /// Signs `data`: a 64-byte Ed25519 signature.
    pub fn sign(&self, data: &[u8]) -> (r: Vec<u8>)
        ensures
            r@ == ed25519_signature_of(self.secret(), data@),
            r@.len() == SIGNATURE_SIZE,
    {
        proof {
            use_type_invariant(self);
        }
        ed25519_sign(self.secret_key.as_slice(), data)
    }

    /// The identity descriptor: the id and the public key it is computed from.
    pub fn identity(&self) -> (r: Identity)
        ensures
            r.public_key@ == self.public_key_view(),
            r.public_key@.len() == KEY_SIZE,
            r.id@ == hex_lower(r.public_key@),
    {
        proof {
            use_type_invariant(self);
        }
        Identity { id: self.id.clone(), public_key: self.public_key() }
    }
}

impl Clone for Credential {
    fn clone(&self) -> (r: Credential)
        ensures
            r.secret() == self.secret(),
    {
        proof {
            use_type_invariant(self);
        }
        Credential { secret_key: copy_bytes(self.secret_key.as_slice()), id: self.id.clone() }
    }
}

/// Checks a signed payload against an identity's key: the key must be 32 bytes that
/// decode to a public key, and the signature 64 bytes that verify strictly.
pub fn verify_signature(identity: &Identity, signed: &SignedPayload) -> (r: Result<(), TunnelError>)
    ensures
        r == signature_check(identity.public_key@, signed.data@, signed.signature@),
{
    if identity.public_key.len() != KEY_SIZE || !ed25519_public_key_valid(identity.public_key.as_slice()) {
        return Err(TunnelError::BadIdentity);
    }
    if signed.signature.len() != SIGNATURE_SIZE {
        return Err(TunnelError::BadSignature);
    }
    if ed25519_verify_strict(identity.public_key.as_slice(), signed.data.as_slice(), signed.signature.as_slice()) {
        Ok(())
    } else {
        Err(TunnelError::BadSignature)
    }
}

/// The outcome of checking signature `sig` over `data` under `public_key`.
pub open spec fn signature_check(public_key: Seq<u8>, data: Seq<u8>, sig: Seq<u8>) -> Result<(), TunnelError> {
    if public_key.len() != KEY_SIZE || !ed25519_key_decodes(public_key) {
        Err(TunnelError::BadIdentity)
    } else if sig.len() != SIGNATURE_SIZE || !ed25519_verifies(public_key, data, sig) {
        Err(TunnelError::BadSignature)
    } else {
        Ok(())
    }
}

} // verus!
