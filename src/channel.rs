//! The secure channel: one AEAD message per frame, with a counter nonce per
//! direction that only ever moves forward.
use crate::bytes::{bytes_equal, copy_bytes};
use crate::crypto::{aead_open, aead_seal, open, seal, KEY_SIZE, MAX_SEAL_LEN, TAG_SIZE};
use crate::error::TunnelError;
use crate::frame::{announced_len, decode_frame, encode_frame, is_frame_of, MAX_FRAME_LEN};
use crate::nonce::pow256;
use crate::nonce::{
    be_value, increment_nonce, is_last_counter, lemma_be_value_all_ones, lemma_be_value_bound,
    successor_value, NONCE_SIZE,
};
use crate::wire::{pair_bytes, varint, EncryptedData};
use vstd::arithmetic::div_mod::lemma_small_mod;
use vstd::prelude::*;

verus! {

/// What a channel holds: a key and a counter for each direction.
pub struct ChannelView {
    pub encrypt_key: Seq<u8>,
    pub decrypt_key: Seq<u8>,
    pub encrypt_nonce: Seq<u8>,
    pub decrypt_nonce: Seq<u8>,
}

impl ChannelView {
    /// Keys of 32 bytes, counters of 12.
    pub open spec fn wf(self) -> bool {
        &&& self.encrypt_key.len() == KEY_SIZE
        &&& self.decrypt_key.len() == KEY_SIZE
        &&& self.encrypt_nonce.len() == NONCE_SIZE
        &&& self.decrypt_nonce.len() == NONCE_SIZE
    }
}

/// The length of the encrypted message that carries an `n`-byte plaintext.
pub open spec fn message_len(n: nat) -> nat {
    (14 + 1 + varint((n + TAG_SIZE) as nat).len() + n + TAG_SIZE) as nat
}

/// The encrypted message for `plaintext` under `key` and `nonce`.
pub open spec fn sealed_message(key: Seq<u8>, nonce: Seq<u8>, plaintext: Seq<u8>) -> Seq<u8> {
    pair_bytes(nonce, aead_seal(key, nonce, plaintext))
}

/// One write: from channel `old`, sending `buf` gives result `r` (the frame to put on
/// the transport) and channel `new`.
///
/// The next counter value is sealed under; a channel whose counter is at its largest
/// value refuses to write rather than reuse a nonce. A refused write changes nothing.
pub open spec fn write_spec(
    old: ChannelView,
    buf: Seq<u8>,
    r: Result<Seq<u8>, TunnelError>,
    new: ChannelView,
) -> bool {
    if is_last_counter(old.encrypt_nonce) {
        r == Err::<Seq<u8>, TunnelError>(TunnelError::NonceExhausted) && new == old
    } else if message_len(buf.len()) > MAX_FRAME_LEN {
        r == Err::<Seq<u8>, TunnelError>(TunnelError::FrameTooLarge) && new == old
    } else {
        &&& r is Ok
        &&& new.wf()
        &&& new.encrypt_key == old.encrypt_key
        &&& new.decrypt_key == old.decrypt_key
        &&& new.decrypt_nonce == old.decrypt_nonce
        &&& be_value(new.encrypt_nonce) == be_value(old.encrypt_nonce) + 1
        &&& aead_seal(old.encrypt_key, new.encrypt_nonce, buf).len() == buf.len() + TAG_SIZE
        &&& is_frame_of(r->Ok_0, sealed_message(old.encrypt_key, new.encrypt_nonce, buf))
    }
}

/// One read of an encrypted message `msg` whose nonce is `nonce` and ciphertext `ct`,
/// into a buffer that held `old_buf` and holds `new_buf` after.
pub open spec fn read_outcome(
    old: ChannelView,
    nonce: Seq<u8>,
    ct: Seq<u8>,
    old_buf: Seq<u8>,
    r: Result<usize, TunnelError>,
    new: ChannelView,
    new_buf: Seq<u8>,
) -> bool {
    &&& nonce == old.decrypt_nonce ==> cipher_facts(old.decrypt_key, nonce, ct)
    &&& read_result(old, nonce, ct, old_buf, r, new, new_buf)
}

/// What `read` learns of the cipher when it opens `ct`: input shorter than a tag does
/// not open, and a ciphertext made by sealing opens to what was sealed.
pub open spec fn cipher_facts(key: Seq<u8>, nonce: Seq<u8>, ct: Seq<u8>) -> bool {
    &&& ct.len() < TAG_SIZE ==> aead_open(key, nonce, ct) is None
    &&& forall|p: Seq<u8>|
        #![trigger aead_seal(key, nonce, p)]
        p.len() <= MAX_SEAL_LEN && aead_seal(key, nonce, p) == ct ==> aead_open(key, nonce, ct)
            == Some(p)
}

/// The result of a read of a message with nonce `nonce` and ciphertext `ct`.
pub open spec fn read_result(
    old: ChannelView,
    nonce: Seq<u8>,
    ct: Seq<u8>,
    old_buf: Seq<u8>,
    r: Result<usize, TunnelError>,
    new: ChannelView,
    new_buf: Seq<u8>,
) -> bool {
    if nonce != old.decrypt_nonce {
        r == Err::<usize, TunnelError>(TunnelError::NonceMismatch) && new == old && new_buf == old_buf
    } else if aead_open(old.decrypt_key, nonce, ct) is None {
        &&& r == Err::<usize, TunnelError>(TunnelError::DecryptFailed)
        &&& new == old
        &&& new_buf == old_buf
    } else {
        let pt = aead_open(old.decrypt_key, nonce, ct)->0;
        let n = if old_buf.len() < pt.len() {
            old_buf.len()
        } else {
            pt.len()
        };
        &&& r == Ok::<usize, TunnelError>(n as usize)
        &&& new.encrypt_key == old.encrypt_key
        &&& new.decrypt_key == old.decrypt_key
        &&& new.encrypt_nonce == old.encrypt_nonce
        &&& new.decrypt_nonce.len() == NONCE_SIZE
        &&& be_value(new.decrypt_nonce) == successor_value(old.decrypt_nonce)
        &&& new_buf == pt.subrange(0, n as int) + old_buf.subrange(n as int, old_buf.len() as int)
    }
}

/// One read: `msg` is the payload of one frame from the transport.
pub open spec fn read_spec(
    old: ChannelView,
    msg: Seq<u8>,
    old_buf: Seq<u8>,
    r: Result<usize, TunnelError>,
    new: ChannelView,
    new_buf: Seq<u8>,
) -> bool {
    &&& new.wf()
    &&& (!(exists|n: Seq<u8>, c: Seq<u8>| pair_bytes(n, c) == msg) ==> (r == Err::<
        usize,
        TunnelError,
    >(TunnelError::DecodeError) && new == old && new_buf == old_buf))
    &&& forall|n: Seq<u8>, c: Seq<u8>|
        #![trigger pair_bytes(n, c)]
        pair_bytes(n, c) == msg ==> read_outcome(old, n, c, old_buf, r, new, new_buf)
}

/// The view of a write's result.
pub open spec fn frame_result_view(r: Result<Vec<u8>, TunnelError>) -> Result<Seq<u8>, TunnelError> {
    match r {
        Ok(f) => Ok(f@),
        Err(e) => Err(e),
    }
}

/// An encrypted bidirectional channel. It does no I/O: `write` returns the frame to
/// send and `read` takes the payload of a frame that arrived.
pub struct SecureConnection {
    encrypt_key: Vec<u8>,
    decrypt_key: Vec<u8>,
    encrypt_nonce: Vec<u8>,
    decrypt_nonce: Vec<u8>,
}

impl View for SecureConnection {
    type V = ChannelView;

    closed spec fn view(&self) -> ChannelView {
        ChannelView {
            encrypt_key: self.encrypt_key@,
            decrypt_key: self.decrypt_key@,
            encrypt_nonce: self.encrypt_nonce@,
            decrypt_nonce: self.decrypt_nonce@,
        }
    }
}

impl SecureConnection {
    #[verifier::type_invariant]
    spec fn well_formed(self) -> bool {
        self@.wf()
    }

    /// A channel from keys and starting counters (32-byte keys, 12-byte counters).
    pub fn new(encrypt_key: &[u8], decrypt_key: &[u8], encrypt_nonce: &[u8], decrypt_nonce: &[u8]) -> (r:
        SecureConnection)
        requires
            encrypt_key@.len() == KEY_SIZE,
            decrypt_key@.len() == KEY_SIZE,
            encrypt_nonce@.len() == NONCE_SIZE,
            decrypt_nonce@.len() == NONCE_SIZE,
        ensures
            r@ == (ChannelView {
                encrypt_key: encrypt_key@,
                decrypt_key: decrypt_key@,
                encrypt_nonce: encrypt_nonce@,
                decrypt_nonce: decrypt_nonce@,
            }),
    {
        SecureConnection {
            encrypt_key: copy_bytes(encrypt_key),
            decrypt_key: copy_bytes(decrypt_key),
            encrypt_nonce: copy_bytes(encrypt_nonce),
            decrypt_nonce: copy_bytes(decrypt_nonce),
        }
    }

    /// The current encrypt counter: the nonce of the last message sent, or the
    /// initial nonce before any.
    pub fn encrypt_nonce(&self) -> (r: Vec<u8>)
        ensures
            r@ == self@.encrypt_nonce,
    {
        copy_bytes(self.encrypt_nonce.as_slice())
    }

    /// The current decrypt counter: the nonce the next incoming message must carry.
    pub fn decrypt_nonce(&self) -> (r: Vec<u8>)
        ensures
            r@ == self@.decrypt_nonce,
    {
        copy_bytes(self.decrypt_nonce.as_slice())
    }

    /// Encrypts `buf` as one message under the next encrypt nonce and returns the frame
    /// to send. The counter moves only when a frame is returned.
    #[verifier::rlimit(40)]
    pub fn write(&mut self, buf: &[u8]) -> (r: Result<Vec<u8>, TunnelError>)
        ensures
            old(self)@.wf(),
            final(self)@.wf(),
            write_spec(old(self)@, buf@, frame_result_view(r), final(self)@),
    {
        proof {
            use_type_invariant(&*self);
        }
        let mut next = copy_bytes(self.encrypt_nonce.as_slice());
        let mut k: usize = 0;
        let mut all_ones = true;
        while k < NONCE_SIZE
            invariant
                k <= NONCE_SIZE,
                next@ == self.encrypt_nonce@,
                next@.len() == NONCE_SIZE,
                all_ones == (forall|j: int| 0 <= j < k ==> next@[j] == 255),
            decreases NONCE_SIZE - k,
        {
            if next[k] != 255 {
                all_ones = false;
            }
            k = k + 1;
        }
        proof {
            lemma_be_value_all_ones(next@);
        }
        if all_ones {
            return Err(TunnelError::NonceExhausted);
        }
        if buf.len() > MAX_FRAME_LEN {
            return Err(TunnelError::FrameTooLarge);
        }
        increment_nonce(next.as_mut_slice());
        proof {
            lemma_be_value_bound(self.encrypt_nonce@);
            lemma_small_mod((be_value(self.encrypt_nonce@) + 1) as nat, crate::nonce::pow256(12));
        }
        let ct = seal(self.encrypt_key.as_slice(), next.as_slice(), buf);
        let msg = EncryptedData { nonce: copy_bytes(next.as_slice()), payload: ct }.encode();
        proof {
            assert(varint(12) =~= seq![12u8]);
            assert(msg@.len() == message_len(buf@.len()));
        }
        match encode_frame(msg.as_slice()) {
            Ok(f) => {
                self.encrypt_nonce = next;
                Ok(f)
            },
            Err(e) => Err(e),
        }
    }

    /// Opens one encrypted message `msg` (the payload of one frame) into `buf`.
    ///
    /// The message must carry exactly the expected decrypt nonce, and its tag must
    /// check; only then does the decrypt counter move. Plaintext beyond `buf` is
    /// dropped: the count of bytes copied is returned.
    #[verifier::rlimit(40)]
    pub fn read(&mut self, msg: &[u8], buf: &mut [u8]) -> (r: Result<usize, TunnelError>)
        ensures
            old(self)@.wf(),
            read_spec(old(self)@, msg@, old(buf)@, r, final(self)@, final(buf)@),
    {
        proof {
            use_type_invariant(&*self);
        }
        let ed = match EncryptedData::decode(msg) {
            Ok(m) => m,
            Err(e) => {
                return Err(e);
            },
        };
        if !bytes_equal(ed.nonce.as_slice(), self.decrypt_nonce.as_slice()) {
            return Err(TunnelError::NonceMismatch);
        }
        let pt = match open(self.decrypt_key.as_slice(), self.decrypt_nonce.as_slice(), ed.payload.as_slice()) {
            Some(p) => p,
            None => {
                return Err(TunnelError::DecryptFailed);
            },
        };
        let mut next = copy_bytes(self.decrypt_nonce.as_slice());
        increment_nonce(next.as_mut_slice());
        self.decrypt_nonce = next;
        let n = if buf.len() < pt.len() {
            buf.len()
        } else {
            pt.len()
        };
        let ghost start = buf@;
        let mut i: usize = 0;
        while i < n
            invariant
                i <= n,
                n <= pt@.len(),
                n <= start.len(),
                buf@.len() == start.len(),
                buf@ == pt@.subrange(0, i as int) + start.subrange(i as int, start.len() as int),
            decreases n - i,
        {
            buf[i] = pt[i];
            i = i + 1;
            assert(buf@ =~= pt@.subrange(0, i as int) + start.subrange(i as int, start.len() as int));
        }
        Ok(n)
    }

    /// Reads the first frame in `bytes` (length header included) into `buf`. The
    /// header is checked before anything else: a length over the limit is refused
    /// with the channel and `buf` untouched, and so is a frame cut short. A whole
    /// frame's payload is then read as by [`SecureConnection::read`].
    pub fn read_frame(&mut self, bytes: &[u8], buf: &mut [u8]) -> (r: Result<usize, TunnelError>)
        ensures
            bytes@.len() < 4 ==> r == Err::<usize, TunnelError>(TunnelError::UnexpectedEof)
                && final(self)@ == old(self)@ && final(buf)@ == old(buf)@,
            bytes@.len() >= 4 && announced_len(bytes@) > MAX_FRAME_LEN ==> r == Err::<
                usize,
                TunnelError,
            >(TunnelError::FrameTooLarge) && final(self)@ == old(self)@ && final(buf)@ == old(buf)@,
            bytes@.len() >= 4 && announced_len(bytes@) <= MAX_FRAME_LEN && bytes@.len() < 4
                + announced_len(bytes@) ==> r == Err::<usize, TunnelError>(TunnelError::UnexpectedEof)
                && final(self)@ == old(self)@ && final(buf)@ == old(buf)@,
            bytes@.len() >= 4 && announced_len(bytes@) <= MAX_FRAME_LEN && bytes@.len() >= 4
                + announced_len(bytes@) ==> read_spec(
                old(self)@,
                bytes@.subrange(4, (4 + announced_len(bytes@)) as int),
                old(buf)@,
                r,
                final(self)@,
                final(buf)@,
            ),
    {
        match decode_frame(bytes) {
            Ok((payload, _used)) => self.read(payload.as_slice(), buf),
            Err(e) => Err(e),
        }
    }
}

// ----- laws of the channel -----

/// The counter after a successful write is one more than before, with no wrap:
/// the first write of a fresh channel seals under its initial nonce plus one.
pub proof fn lemma_write_uses_next_nonce(c0: ChannelView, b: Seq<u8>, f: Seq<u8>, c1: ChannelView)
    requires
        write_spec(c0, b, Ok(f), c1),
    ensures
        be_value(c1.encrypt_nonce) == be_value(c0.encrypt_nonce) + 1,
        c1.encrypt_nonce.len() == NONCE_SIZE,
        is_frame_of(f, sealed_message(c0.encrypt_key, c1.encrypt_nonce, b)),
{
}

/// Two successful writes in a row seal under consecutive nonces, under the same key.
pub proof fn lemma_write_nonces_consecutive(
    c0: ChannelView,
    b1: Seq<u8>,
    f1: Seq<u8>,
    c1: ChannelView,
    b2: Seq<u8>,
    f2: Seq<u8>,
    c2: ChannelView,
)
    requires
        write_spec(c0, b1, Ok(f1), c1),
        write_spec(c1, b2, Ok(f2), c2),
    ensures
        is_frame_of(f1, sealed_message(c0.encrypt_key, c1.encrypt_nonce, b1)),
        is_frame_of(f2, sealed_message(c0.encrypt_key, c2.encrypt_nonce, b2)),
        be_value(c2.encrypt_nonce) == be_value(c1.encrypt_nonce) + 1,
{
}

proof fn lemma_write_counter_grows(
    states: Seq<ChannelView>,
    bufs: Seq<Seq<u8>>,
    results: Seq<Result<Seq<u8>, TunnelError>>,
    i: int,
    j: int,
)
    requires
        states.len() == bufs.len() + 1,
        results.len() == bufs.len(),
        forall|k: int| #![trigger bufs[k]] 0 <= k < bufs.len() ==> write_spec(states[k], bufs[k], results[k], states[k + 1]),
        0 <= i <= j < states.len(),
    ensures
        be_value(states[i].encrypt_nonce) <= be_value(states[j].encrypt_nonce),
        states[j].encrypt_key == states[i].encrypt_key,
    decreases j - i,
{
    if i < j {
        lemma_write_counter_grows(states, bufs, results, i, j - 1);
        assert(write_spec(states[j - 1], bufs[j - 1], results[j - 1], states[j]));
    }
}

/// Over any run of writes on one channel, successful or refused, no two messages are
/// sealed under the same key and nonce: each successful write's nonce is strictly
/// larger than every earlier one's.
pub proof fn lemma_nonce_never_reused(
    states: Seq<ChannelView>,
    bufs: Seq<Seq<u8>>,
    results: Seq<Result<Seq<u8>, TunnelError>>,
)
    requires
        states.len() == bufs.len() + 1,
        results.len() == bufs.len(),
        forall|k: int| #![trigger bufs[k]] 0 <= k < bufs.len() ==> write_spec(states[k], bufs[k], results[k], states[k + 1]),
    ensures
        forall|i: int, j: int|
            #![trigger states[i + 1], states[j + 1]]
            0 <= i < j < bufs.len() && results[i] is Ok && results[j] is Ok ==> be_value(
                states[i + 1].encrypt_nonce,
            ) < be_value(states[j + 1].encrypt_nonce) && states[i + 1].encrypt_nonce
                != states[j + 1].encrypt_nonce && states[j + 1].encrypt_key == states[i + 1].encrypt_key,
{
    assert forall|i: int, j: int|
        #![trigger states[i + 1], states[j + 1]]
        0 <= i < j < bufs.len() && results[i] is Ok && results[j] is Ok implies be_value(
            states[i + 1].encrypt_nonce,
        ) < be_value(states[j + 1].encrypt_nonce) && states[i + 1].encrypt_nonce
            != states[j + 1].encrypt_nonce && states[j + 1].encrypt_key == states[i + 1].encrypt_key by {
        lemma_write_counter_grows(states, bufs, results, i + 1, j);
        assert(write_spec(states[j], bufs[j], results[j], states[j + 1]));
    }
}

/// The first message a channel accepts carries its initial decrypt nonce (for a
/// handshake channel, the server's nonce) unmodified; in general every accepted
/// message carries the counter as it stood.
pub proof fn lemma_read_uses_current_nonce(
    c0: ChannelView,
    msg: Seq<u8>,
    old_buf: Seq<u8>,
    n: usize,
    c1: ChannelView,
    new_buf: Seq<u8>,
    nonce: Seq<u8>,
    ct: Seq<u8>,
)
    requires
        read_spec(c0, msg, old_buf, Ok(n), c1, new_buf),
        pair_bytes(nonce, ct) == msg,
    ensures
        nonce == c0.decrypt_nonce,
{
}

/// Two messages accepted in a row carry consecutive nonces (short of the largest
/// counter value, past which the count wraps).
pub proof fn lemma_read_nonces_consecutive(
    c0: ChannelView,
    m1: Seq<u8>,
    ob1: Seq<u8>,
    n1: usize,
    c1: ChannelView,
    nb1: Seq<u8>,
    m2: Seq<u8>,
    ob2: Seq<u8>,
    n2: usize,
    c2: ChannelView,
    nb2: Seq<u8>,
    x1: Seq<u8>,
    y1: Seq<u8>,
    x2: Seq<u8>,
    y2: Seq<u8>,
)
    requires
        c0.wf(),
        read_spec(c0, m1, ob1, Ok(n1), c1, nb1),
        read_spec(c1, m2, ob2, Ok(n2), c2, nb2),
        pair_bytes(x1, y1) == m1,
        pair_bytes(x2, y2) == m2,
        !is_last_counter(x1),
    ensures
        be_value(x2) == be_value(x1) + 1,
{
    assert(read_outcome(c0, x1, y1, ob1, Ok(n1), c1, nb1));
    assert(read_outcome(c1, x2, y2, ob2, Ok(n2), c2, nb2));
    lemma_be_value_bound(x1);
    lemma_small_mod((be_value(x1) + 1) as nat, pow256(x1.len()));
}

/// A message written by one channel is read back whole by a channel that holds the
/// same key for that direction and expects that nonce, into a buffer large enough.
pub proof fn lemma_round_trip(
    a0: ChannelView,
    b: Seq<u8>,
    f: Seq<u8>,
    a1: ChannelView,
    c0: ChannelView,
    old_buf: Seq<u8>,
    r: Result<usize, TunnelError>,
    c1: ChannelView,
    new_buf: Seq<u8>,
)
    requires
        b.len() <= 65536 - 16,
        write_spec(a0, b, Ok(f), a1),
        read_spec(c0, f.subrange(4, f.len() as int), old_buf, r, c1, new_buf),
        c0.decrypt_key == a0.encrypt_key,
        c0.decrypt_nonce == a1.encrypt_nonce,
        b.len() <= old_buf.len(),
    ensures
        r == Ok::<usize, TunnelError>(b.len() as usize),
        new_buf.subrange(0, b.len() as int) == b,
{
    let ct = aead_seal(a0.encrypt_key, a1.encrypt_nonce, b);
    assert(pair_bytes(a1.encrypt_nonce, ct) == f.subrange(4, f.len() as int));
    assert(read_outcome(c0, a1.encrypt_nonce, ct, old_buf, r, c1, new_buf));
    assert(aead_open(c0.decrypt_key, a1.encrypt_nonce, ct) == Some(b));
    assert(new_buf.subrange(0, b.len() as int) =~= b);
}

/// Sending zero bytes puts a 16-byte ciphertext (the tag alone) on the wire, and the
/// receiver reads zero bytes.
pub proof fn lemma_empty_message(
    a0: ChannelView,
    f: Seq<u8>,
    a1: ChannelView,
    c0: ChannelView,
    old_buf: Seq<u8>,
    r: Result<usize, TunnelError>,
    c1: ChannelView,
    new_buf: Seq<u8>,
)
    requires
        write_spec(a0, Seq::empty(), Ok(f), a1),
        read_spec(c0, f.subrange(4, f.len() as int), old_buf, r, c1, new_buf),
        c0.decrypt_key == a0.encrypt_key,
        c0.decrypt_nonce == a1.encrypt_nonce,
    ensures
        aead_seal(a0.encrypt_key, a1.encrypt_nonce, Seq::empty()).len() == TAG_SIZE,
        is_frame_of(f, pair_bytes(a1.encrypt_nonce, aead_seal(a0.encrypt_key, a1.encrypt_nonce, Seq::empty()))),
        r == Ok::<usize, TunnelError>(0),
{
    lemma_round_trip(a0, Seq::empty(), f, a1, c0, old_buf, r, c1, new_buf);
}

/// A message carrying the nonce one below the expected one (a replay of the last
/// accepted message) is refused with a nonce mismatch, and the channel is unchanged.
pub proof fn lemma_replay_rejected(
    c0: ChannelView,
    msg: Seq<u8>,
    old_buf: Seq<u8>,
    r: Result<usize, TunnelError>,
    c1: ChannelView,
    new_buf: Seq<u8>,
    nonce: Seq<u8>,
    ct: Seq<u8>,
)
    requires
        read_spec(c0, msg, old_buf, r, c1, new_buf),
        pair_bytes(nonce, ct) == msg,
        be_value(nonce) + 1 == be_value(c0.decrypt_nonce),
    ensures
        r == Err::<usize, TunnelError>(TunnelError::NonceMismatch),
        c1 == c0,
{
    assert(read_outcome(c0, nonce, ct, old_buf, r, c1, new_buf));
}

/// A message with the expected nonce whose ciphertext is shorter than a tag is refused
/// as a failed decryption, and the channel is unchanged.
pub proof fn lemma_truncated_tag_rejected(
    c0: ChannelView,
    msg: Seq<u8>,
    old_buf: Seq<u8>,
    r: Result<usize, TunnelError>,
    c1: ChannelView,
    new_buf: Seq<u8>,
    ct: Seq<u8>,
)
    requires
        read_spec(c0, msg, old_buf, r, c1, new_buf),
        pair_bytes(c0.decrypt_nonce, ct) == msg,
        ct.len() < TAG_SIZE,
    ensures
        r == Err::<usize, TunnelError>(TunnelError::DecryptFailed),
        c1 == c0,
{
    assert(read_outcome(c0, c0.decrypt_nonce, ct, old_buf, r, c1, new_buf));
}

} // verus!
