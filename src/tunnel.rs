//! Tunnels (one secure channel bound to an id and a protocol) and the manager that
//! owns the live ones.
use crate::channel::{frame_result_view, read_spec, write_spec, ChannelView, SecureConnection};
use crate::codec::{str_eq, ProtocolType, ProxyPacket, ProxyPayload, ProxyRequest};
use crate::crypto::{hex_encode, hex_lower, random_bytes, Credential};
use crate::error::TunnelError;
use vstd::prelude::*;

verus! {

/// How many times a fresh tunnel id is drawn before giving up on a collision.
pub const ID_DRAW_ATTEMPTS: usize = 8;

/// Size of the buffer one response is read into.
pub const RESPONSE_BUFFER_SIZE: usize = 65536;

/// What a tunnel is: its id, protocol and channel.
pub struct TunnelView {
    pub id: Seq<char>,
    pub protocol: ProtocolType,
    pub channel: ChannelView,
}

/// One encrypted tunnel. Access to its channel goes through `&mut`, which serialises
/// requests and responses on it.
pub struct Tunnel {
    pub id: String,
    pub protocol: ProtocolType,
    pub connection: SecureConnection,
    pub credential: Credential,
}

impl View for Tunnel {
    type V = TunnelView;

    open spec fn view(&self) -> TunnelView {
        TunnelView { id: self.id@, protocol: self.protocol, channel: self.connection@ }
    }
}

/// How a response read ends: a read of `n` bytes into buffer `buf` gives `r`.
pub open spec fn response_of(n: Result<usize, TunnelError>, buf: Seq<u8>, r: Result<Seq<u8>, TunnelError>) -> bool {
    match n {
        Err(e) => r == Err::<Seq<u8>, TunnelError>(e),
        Ok(k) => if k == 0 {
            r == Err::<Seq<u8>, TunnelError>(TunnelError::TransportFailed)
        } else {
            r == Ok::<Seq<u8>, TunnelError>(buf.subrange(0, k as int))
        },
    }
}

/// One response read: the payload of a frame `msg`, opened by channel `old` (which
/// becomes `new`) into a zeroed 64 KiB buffer, gives `r`.
#[verifier::opaque]
pub open spec fn receive_spec(
    old: ChannelView,
    msg: Seq<u8>,
    r: Result<Seq<u8>, TunnelError>,
    new: ChannelView,
) -> bool {
    exists|n: Result<usize, TunnelError>, buf: Seq<u8>|
        read_spec(old, msg, Seq::new(RESPONSE_BUFFER_SIZE as nat, |i: int| 0u8), n, new, buf)
            && response_of(n, buf, r)
}

impl Tunnel {
    pub fn new(id: String, protocol: ProtocolType, connection: SecureConnection, credential: Credential) -> (r:
        Tunnel)
        ensures
            r.id == id,
            r.protocol == protocol,
            r.connection == connection,
            r.credential == credential,
    {
        Tunnel { id, protocol, connection, credential }
    }

    /// The packet that carries `request` on this tunnel: it bears the tunnel id.
    pub fn request_packet(&self, request: ProxyRequest) -> (r: ProxyPacket)
        ensures
            r.id@ == self.id@,
            r.version == 1,
            r.payload == ProxyPayload::Request(request),
    {
        ProxyPacket::new_request(self.id.clone(), request)
    }

    /// Sends one encoded packet: returns the frame to put on the transport.
    pub fn send_request(&mut self, packet: &[u8]) -> (r: Result<Vec<u8>, TunnelError>)
        ensures
            final(self).id == old(self).id,
            final(self).protocol == old(self).protocol,
            write_spec(old(self).connection@, packet@, frame_result_view(r), final(self).connection@),
    {
        self.connection.write(packet)
    }

    /// Receives one response: opens the payload of one frame into a 64 KiB buffer and
    /// returns the bytes read. An empty message means the tunnel was closed.
    pub fn receive_response(&mut self, msg: &[u8]) -> (r: Result<Vec<u8>, TunnelError>)
        ensures
            final(self).id == old(self).id,
            final(self).protocol == old(self).protocol,
            receive_spec(old(self).connection@, msg@, bytes_result_view(r), final(self).connection@),
    {
        let mut buf: Vec<u8> = vec![0u8; RESPONSE_BUFFER_SIZE];
        assert(buf@ =~= Seq::new(RESPONSE_BUFFER_SIZE as nat, |i: int| 0u8));
        let n = self.connection.read(msg, buf.as_mut_slice());
        let ghost filled = buf@;
        let result = match n {
            Err(e) => Err(e),
            Ok(k) => {
                if k == 0 {
                    Err(TunnelError::TransportFailed)
                } else {
                    buf.truncate(k);
                    assert(buf@ =~= filled.subrange(0, k as int));
                    Ok(buf)
                }
            },
        };
        assert(read_spec(
            old(self).connection@,
            msg@,
            Seq::new(RESPONSE_BUFFER_SIZE as nat, |i: int| 0u8),
            n,
            self.connection@,
            filled,
        ) && response_of(n, filled, bytes_result_view(result)));
        proof {
            reveal(receive_spec);
        }
        result
    }
}

/// The view of a byte result.
pub open spec fn bytes_result_view(r: Result<Vec<u8>, TunnelError>) -> Result<Seq<u8>, TunnelError> {
    match r {
        Ok(v) => Ok(v@),
        Err(e) => Err(e),
    }
}

/// The tunnels of `s` other than those with id `id`, in order.
pub open spec fn without_id(s: Seq<TunnelView>, id: Seq<char>) -> Seq<TunnelView>
    decreases s.len(),
{
    if s.len() == 0 {
        Seq::empty()
    } else if s[0].id == id {
        without_id(s.drop_first(), id)
    } else {
        seq![s[0]] + without_id(s.drop_first(), id)
    }
}

/// The live tunnels, keyed by id.
pub struct TunnelManager {
    tunnels: Vec<Tunnel>,
    credential: Credential,
    server_url: String,
}

impl TunnelManager {
    /// The tunnels, in the order they were created.
    pub closed spec fn tunnels_view(&self) -> Seq<TunnelView> {
        self.tunnels@.map_values(|t: Tunnel| t@)
    }

    /// The secret key of the manager's credential.
    pub closed spec fn credential_secret(&self) -> Seq<u8> {
        self.credential.secret()
    }

    /// The relay URL new tunnels connect to.
    pub closed spec fn server_url_view(&self) -> Seq<char> {
        self.server_url@
    }

    /// An empty manager for `credential`, creating tunnels to `server_url`.
    pub fn new(credential: Credential, server_url: String) -> (r: TunnelManager)
        ensures
            r.tunnels_view() == Seq::<TunnelView>::empty(),
            r.server_url_view() == server_url@,
    {
        let r = TunnelManager { tunnels: Vec::new(), credential, server_url };
        assert(r.tunnels_view() =~= Seq::<TunnelView>::empty());
        r
    }

    /// The relay URL.
    pub fn server_url(&self) -> (r: &str)
        ensures
            r@ == self.server_url_view(),
    {
        self.server_url.as_str()
    }

    /// The credential tunnels authenticate with.
    pub fn credential(&self) -> (r: &Credential)
        ensures
            r.secret() == self.credential_secret(),
    {
        &self.credential
    }

    /// A fresh tunnel id: 16 random bytes in lowercase hex (32 characters).
    pub fn generate_tunnel_id(&self) -> (r: String)
        ensures
            exists|b: Seq<u8>| b.len() == 16 && r@ == hex_lower(b),
    {
        let bytes = random_bytes(16);
        hex_encode(bytes.as_slice())
    }

    /// Registers a tunnel for an established channel under a fresh id and returns the id.
    /// The id is drawn again while it names a live tunnel, up to
    /// [`ID_DRAW_ATTEMPTS`] draws; should every draw collide, nothing is registered
    /// and the channel is dropped. A manager with no tunnels always succeeds.
    pub fn create_tunnel(&mut self, protocol: ProtocolType, connection: SecureConnection) -> (r: Result<
        String,
        TunnelError,
    >)
        ensures
            old(self).tunnels_view().len() == 0 ==> r is Ok,
            r matches Ok(id) ==> {
                &&& exists|b: Seq<u8>| b.len() == 16 && id@ == hex_lower(b)
                &&& forall|k: int|
                    0 <= k < old(self).tunnels_view().len() ==> old(self).tunnels_view()[k].id != id@
                &&& final(self).tunnels_view() == old(self).tunnels_view().push(
                    TunnelView { id: id@, protocol, channel: connection@ },
                )
            },
            r matches Err(e) ==> e == TunnelError::IdCollision && final(self).tunnels_view() == old(
                self,
            ).tunnels_view(),
            final(self).server_url_view() == old(self).server_url_view(),
    {
        let ghost channel = connection@;
        let mut attempts: usize = 0;
        let mut pending = Some(connection);
        while attempts < ID_DRAW_ATTEMPTS
            invariant
                self.tunnels_view() == old(self).tunnels_view(),
                self.server_url@ == old(self).server_url@,
                old(self).tunnels_view().len() == 0 ==> attempts == 0,
                pending is Some && pending->0@ == channel,
                channel == connection@,
            decreases ID_DRAW_ATTEMPTS - attempts,
        {
            let id = self.generate_tunnel_id();
            let conn = pending.take().unwrap();
            match self.insert_tunnel(id.clone(), protocol, conn) {
                Ok(()) => {
                    return Ok(id);
                },
                Err(returned) => {
                    pending = Some(returned);
                },
            }
            attempts = attempts + 1;
        }
        Err(TunnelError::IdCollision)
    }

    /// Registers a tunnel under `id` if no live tunnel has that id; otherwise hands
    /// the channel back and changes nothing.
    pub fn insert_tunnel(&mut self, id: String, protocol: ProtocolType, connection: SecureConnection) -> (r:
        Result<(), SecureConnection>)
        ensures
            (r is Ok) == (forall|k: int|
                0 <= k < old(self).tunnels_view().len() ==> old(self).tunnels_view()[k].id != id@),
            r is Ok ==> final(self).tunnels_view() == old(self).tunnels_view().push(
                TunnelView { id: id@, protocol, channel: connection@ },
            ),
            r matches Err(c) ==> c == connection && final(self).tunnels_view() == old(self).tunnels_view(),
            final(self).server_url_view() == old(self).server_url_view(),
    {
        if self.index_of(id.as_str()).is_some() {
            return Err(connection);
        }
        let ghost idv = id@;
        let ghost cv = connection@;
        let tunnel = Tunnel::new(id, protocol, connection, self.credential.clone());
        let ghost before = self.tunnels@;
        self.tunnels.push(tunnel);
        assert(self.tunnels@.map_values(|t: Tunnel| t@) =~= before.map_values(|t: Tunnel| t@).push(
            TunnelView { id: idv, protocol, channel: cv },
        ));
        Ok(())
    }

    /// The first tunnel with id `id`, if any.
    pub fn get_tunnel(&self, id: &str) -> (r: Option<&Tunnel>)
        ensures
            r is None <==> forall|k: int| 0 <= k < self.tunnels_view().len() ==> self.tunnels_view()[k].id != id@,
            r matches Some(t) ==> t.id@ == id@ && exists|k: int|
                0 <= k < self.tunnels_view().len() && self.tunnels_view()[k] == t@,
    {
        match self.index_of(id) {
            Some(k) => {
                assert(self.tunnels_view()[k as int] == self.tunnels@[k as int]@);
                Some(&self.tunnels[k])
            },
            None => None,
        }
    }

    fn index_of(&self, id: &str) -> (r: Option<usize>)
        ensures
            r is None <==> forall|k: int| 0 <= k < self.tunnels_view().len() ==> self.tunnels_view()[k].id != id@,
            r matches Some(k) ==> k < self.tunnels@.len() && self.tunnels@[k as int].id@ == id@ && self.tunnels_view()[k as int].id == id@
                && forall|j: int| 0 <= j < k ==> self.tunnels_view()[j].id != id@,
    {
        let mut k: usize = 0;
        while k < self.tunnels.len()
            invariant
                k <= self.tunnels@.len(),
                forall|j: int| 0 <= j < k ==> self.tunnels_view()[j].id != id@,
            decreases self.tunnels@.len() - k,
        {
            if str_eq(self.tunnels[k].id.as_str(), id) {
                assert(self.tunnels_view()[k as int] == self.tunnels@[k as int]@);
                return Some(k);
            }
            assert(self.tunnels_view()[k as int] == self.tunnels@[k as int]@);
            k = k + 1;
        }
        None
    }

    /// Drops every tunnel with id `id`; the channel goes with it.
    #[verifier::rlimit(40)]
    pub fn remove_tunnel(&mut self, id: &str)
        ensures
            final(self).tunnels_view() == without_id(old(self).tunnels_view(), id@),
            final(self).server_url_view() == old(self).server_url_view(),
    {
        let ghost orig = self.tunnels_view();
        let mut k: usize = 0;
        proof {
            assert(orig.subrange(0, 0) + without_id(orig.subrange(0, orig.len() as int), id@) =~= without_id(orig, id@)) by {
                assert(orig.subrange(0, orig.len() as int) =~= orig);
            }
        }
        while k < self.tunnels.len()
            invariant
                k <= self.tunnels@.len(),
                self.server_url@ == old(self).server_url@,
                self.tunnels_view().subrange(0, k as int) + without_id(
                    self.tunnels_view().subrange(k as int, self.tunnels_view().len() as int),
                    id@,
                ) == without_id(orig, id@),
                orig == old(self).tunnels_view(),
            decreases self.tunnels@.len() - k,
        {
            let ghost v = self.tunnels_view();
            let ghost rest = v.subrange(k as int, v.len() as int);
            proof {
                assert(rest.drop_first() =~= v.subrange(k + 1, v.len() as int));
                assert(rest[0] == v[k as int]);
            }
            if str_eq(self.tunnels[k].id.as_str(), id) {
                let _gone = self.tunnels.remove(k);
                proof {
                    let w = self.tunnels_view();
                    assert(w.subrange(0, k as int) =~= v.subrange(0, k as int));
                    assert(w.subrange(k as int, w.len() as int) =~= v.subrange(k + 1, v.len() as int));
                }
            } else {
                k = k + 1;
                proof {
                    assert(v.subrange(0, k as int) =~= v.subrange(0, k - 1) + seq![v[k - 1]]);
                }
            }
        }
        proof {
            let w = self.tunnels_view();
            assert(w.subrange(0, k as int) =~= w);
            assert(w.subrange(k as int, w.len() as int) =~= Seq::<TunnelView>::empty());
        }
    }

    /// The ids of the live tunnels, in order.
    pub fn active_tunnels(&self) -> (r: Vec<String>)
        ensures
            r@.len() == self.tunnels_view().len(),
            forall|k: int| 0 <= k < r@.len() ==> r@[k]@ == self.tunnels_view()[k].id,
    {
        let mut out: Vec<String> = Vec::new();
        let mut k: usize = 0;
        while k < self.tunnels.len()
            invariant
                k <= self.tunnels@.len(),
                out@.len() == k,
                forall|j: int| 0 <= j < k ==> out@[j]@ == self.tunnels_view()[j].id,
            decreases self.tunnels@.len() - k,
        {
            out.push(self.tunnels[k].id.clone());
            k = k + 1;
        }
        out
    }

    /// Drops every tunnel.
    pub fn close_all(&mut self)
        ensures
            final(self).tunnels_view() == Seq::<TunnelView>::empty(),
            final(self).server_url_view() == old(self).server_url_view(),
    {
        self.tunnels.clear();
        assert(self.tunnels_view() =~= Seq::<TunnelView>::empty());
    }

    /// Sends an encoded packet on the first tunnel with id `id`: `None` if there is
    /// none, else the frame to put on that tunnel's transport (or why not).
    #[verifier::rlimit(40)]
    pub fn send_request(&mut self, id: &str, packet: &[u8]) -> (r: Option<Result<Vec<u8>, TunnelError>>)
        ensures
            r is None <==> forall|k: int| 0 <= k < old(self).tunnels_view().len() ==> old(self).tunnels_view()[k].id != id@,
            r is None ==> final(self).tunnels_view() == old(self).tunnels_view(),
            r matches Some(res) ==> exists|k: int|
                0 <= k < old(self).tunnels_view().len() && old(self).tunnels_view()[k].id == id@ && (forall|j: int|
                    0 <= j < k ==> old(self).tunnels_view()[j].id != id@) && write_spec(
                    old(self).tunnels_view()[k].channel,
                    packet@,
                    frame_result_view(res),
                    final(self).tunnels_view()[k].channel,
                ) && final(self).tunnels_view() == old(self).tunnels_view().update(
                    k,
                    TunnelView {
                        id: old(self).tunnels_view()[k].id,
                        protocol: old(self).tunnels_view()[k].protocol,
                        channel: final(self).tunnels_view()[k].channel,
                    },
                ),
            final(self).server_url_view() == old(self).server_url_view(),
    {
        match self.index_of(id) {
            None => None,
            Some(k) => {
                let ghost before = self.tunnels@;
                let res = self.tunnels[k].send_request(packet);
                proof {
                    assert(self.tunnels_view() =~= before.map_values(|t: Tunnel| t@).update(
                        k as int,
                        TunnelView {
                            id: before[k as int].id@,
                            protocol: before[k as int].protocol,
                            channel: self.tunnels@[k as int].connection@,
                        },
                    ));
                }
                Some(res)
            },
        }
    }

    /// Receives one response on the first tunnel with id `id`: `None` if there is
    /// none, else what [`Tunnel::receive_response`] gives.
    #[verifier::rlimit(40)]
    pub fn receive_response(&mut self, id: &str, msg: &[u8]) -> (r: Option<Result<Vec<u8>, TunnelError>>)
        ensures
            r is None <==> forall|k: int| 0 <= k < old(self).tunnels_view().len() ==> old(self).tunnels_view()[k].id != id@,
            r is None ==> final(self).tunnels_view() == old(self).tunnels_view(),
            r matches Some(res) ==> exists|k: int|
                0 <= k < old(self).tunnels_view().len() && old(self).tunnels_view()[k].id == id@ && (forall|j: int|
                    0 <= j < k ==> old(self).tunnels_view()[j].id != id@) && receive_spec(
                    old(self).tunnels_view()[k].channel,
                    msg@,
                    bytes_result_view(res),
                    final(self).tunnels_view()[k].channel,
                ) && final(self).tunnels_view()
                    == old(self).tunnels_view().update(
                    k,
                    TunnelView {
                        id: old(self).tunnels_view()[k].id,
                        protocol: old(self).tunnels_view()[k].protocol,
                        channel: final(self).tunnels_view()[k].channel,
                    },
                ),
            final(self).server_url_view() == old(self).server_url_view(),
    {
        match self.index_of(id) {
            None => None,
            Some(k) => {
                let ghost before = self.tunnels@;
                let res = self.tunnels[k].receive_response(msg);
                proof {
                    assert(self.tunnels_view() =~= before.map_values(|t: Tunnel| t@).update(
                        k as int,
                        TunnelView {
                            id: before[k as int].id@,
                            protocol: before[k as int].protocol,
                            channel: self.tunnels@[k as int].connection@,
                        },
                    ));
                }
                Some(res)
            },
        }
    }
}

} // verus!
