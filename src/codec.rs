//! The application packets carried through a tunnel, and checks on what a browser
//! hands in (method, URL, address). The JSON form of a packet is made outside the
//! library; here are the packet values and the rules on them.
use crate::crypto::{hex_encode, hex_lower, random_bytes};
use vstd::prelude::*;
use vstd::string::{StrSliceExecFns, StringExecFns};

verus! {

/// Protocols a tunnel can carry.
#[derive(Debug, Clone, Copy, PartialEq, Eq, Structural)]
pub enum ProtocolType {
    Http,
    WebSocket,
    Tcp,
}

/// The ALPN label for a protocol.
pub open spec fn alpn_of(p: ProtocolType) -> Seq<char> {
    match p {
        ProtocolType::Http => "http"@,
        ProtocolType::WebSocket => "websocket"@,
        ProtocolType::Tcp => "tcp"@,
    }
}

impl ProtocolType {
    /// The label sent in the handshake to select the upstream handler.
    pub fn alpn(&self) -> (r: &'static str)
        ensures
            r@ == alpn_of(*self),
    {
        match self {
            ProtocolType::Http => "http",
            ProtocolType::WebSocket => "websocket",
            ProtocolType::Tcp => "tcp",
        }
    }
}

/// A WebSocket message body.
#[derive(Debug, Clone, PartialEq, Eq)]
pub enum WsData {
    Text { content: String },
    Binary { content: Vec<u8> },
}

/// A request from the browser to be proxied.
#[derive(Debug, Clone, PartialEq, Eq)]
pub enum ProxyRequest {
    HttpRequest {
        method: String,
        url: String,
        headers: Vec<(String, String)>,
        body: Option<Vec<u8>>,
    },
    WebSocketOpen { url: String, protocols: Vec<String> },
    WebSocketMessage { tunnel_id: String, data: WsData },
    WebSocketClose { tunnel_id: String, code: u16, reason: String },
    TcpConnect { host: String, port: u16 },
    TcpData { tunnel_id: String, data: Vec<u8> },
    TcpClose { tunnel_id: String },
}

/// A response from the relay back to the browser.
#[derive(Debug, Clone, PartialEq, Eq)]
pub enum ProxyResponse {
    HttpResponse {
        status: u16,
        status_text: String,
        headers: Vec<(String, String)>,
        body: Vec<u8>,
    },
    WebSocketOpened { tunnel_id: String, protocol: Option<String> },
    WebSocketMessage { tunnel_id: String, data: WsData },
    WebSocketClosed { tunnel_id: String, code: u16, reason: String },
    TcpConnected { tunnel_id: String },
    TcpData { tunnel_id: String, data: Vec<u8> },
    TcpClosed { tunnel_id: String },
    Error { request_id: String, error: String },
}

/// Either side of an exchange.
#[derive(Debug, Clone, PartialEq, Eq)]
pub enum ProxyPayload {
    Request(ProxyRequest),
    Response(ProxyResponse),
}

/// The envelope sent through a tunnel.
#[derive(Debug, Clone, PartialEq, Eq)]
pub struct ProxyPacket {
    pub id: String,
    pub version: u8,
    pub payload: ProxyPayload,
}

/// The envelope version.
pub const PACKET_VERSION: u8 = 1;

impl ProxyPacket {
    /// A request packet.
    pub fn new_request(id: String, request: ProxyRequest) -> (r: ProxyPacket)
        ensures
            r.id == id,
            r.version == PACKET_VERSION,
            r.payload == ProxyPayload::Request(request),
    {
        ProxyPacket { id, version: PACKET_VERSION, payload: ProxyPayload::Request(request) }
    }

    /// A response packet.
    pub fn new_response(id: String, response: ProxyResponse) -> (r: ProxyPacket)
        ensures
            r.id == id,
            r.version == PACKET_VERSION,
            r.payload == ProxyPayload::Response(response),
    {
        ProxyPacket { id, version: PACKET_VERSION, payload: ProxyPayload::Response(response) }
    }

    /// The response a packet carries; a request in its place is refused.
    pub fn into_response(self) -> (r: Result<ProxyResponse, String>)
        ensures
            self.payload matches ProxyPayload::Response(resp) ==> r == Ok::<ProxyResponse, String>(resp),
            self.payload is Request ==> (r matches Err(e) && e@ == "unexpected packet type"@),
    {
        match self.payload {
            ProxyPayload::Response(resp) => Ok(resp),
            ProxyPayload::Request(_) => Err(String::from_str("unexpected packet type")),
        }
    }
}

// ----- string helpers -----

/// Uppercase mapping of a string, as Rust's Unicode tables define it.
pub uninterp spec fn upper_of(s: Seq<char>) -> Seq<char>;

/// Relies on `str::to_uppercase`: the result depends on the characters alone.
#[verifier::external_body]
fn to_uppercase(s: &str) -> (r: String)
    ensures
        r@ == upper_of(s@),
{
    s.to_uppercase()
}

/// `p` is a prefix of `s`.
pub open spec fn has_prefix(s: Seq<char>, p: Seq<char>) -> bool {
    p.len() <= s.len() && s.subrange(0, p.len() as int) == p
}

/// Whether `prefix` begins `s`.
fn starts_with(s: &str, prefix: &str) -> (r: bool)
    ensures
        r == has_prefix(s@, prefix@),
{
    let n = s.unicode_len();
    let p = prefix.unicode_len();
    if p > n {
        return false;
    }
    str_eq(s.substring_char(0, p), prefix)
}

pub(crate) fn str_eq(a: &str, b: &str) -> (r: bool)
    ensures
        r == (a@ == b@),
{
    let x = String::from_str(a);
    let y = String::from_str(b);
    x == y
}

fn message_with(prefix: &str, detail: &str) -> (r: String)
    ensures
        r@ == prefix@ + detail@,
{
    let mut s = String::from_str(prefix);
    s.append(detail);
    s
}

/// The HTTP methods a tunnel carries, in upper case.
pub open spec fn is_supported_method(m: Seq<char>) -> bool {
    ||| m == "GET"@
    ||| m == "POST"@
    ||| m == "PUT"@
    ||| m == "DELETE"@
    ||| m == "PATCH"@
    ||| m == "HEAD"@
    ||| m == "OPTIONS"@
}

/// HTTP request checks.
pub struct HttpCodec;

impl HttpCodec {
    /// Normalises an HTTP method: its upper-case form if it is a supported method.
    pub fn parse_method(method: &str) -> (r: Result<String, String>)
        ensures
            is_supported_method(upper_of(method@)) ==> (r matches Ok(s) && s@ == upper_of(method@)),
            !is_supported_method(upper_of(method@)) ==> (r matches Err(e) && e@ == "unsupported HTTP method: "@
                + method@),
    {
        let upper = to_uppercase(method);
        Self::check_method(upper, method)
    }

    /// Accepts an already upper-cased method `upper` (of `method`) if it is supported.
    pub fn check_method(upper: String, method: &str) -> (r: Result<String, String>)
        ensures
            is_supported_method(upper@) ==> (r matches Ok(s) && s@ == upper@),
            !is_supported_method(upper@) ==> (r matches Err(e) && e@ == "unsupported HTTP method: "@ + method@),
    {
        let u = upper.as_str();
        if str_eq(u, "GET") || str_eq(u, "POST") || str_eq(u, "PUT") || str_eq(u, "DELETE") || str_eq(
            u,
            "PATCH",
        ) || str_eq(u, "HEAD") || str_eq(u, "OPTIONS") {
            Ok(upper)
        } else {
            Err(message_with("unsupported HTTP method: ", method))
        }
    }

    /// Accepts `http://` and `https://` URLs.
    pub fn validate_url(url: &str) -> (r: Result<(), String>)
        ensures
            has_prefix(url@, "http://"@) || has_prefix(url@, "https://"@) ==> r is Ok,
            !(has_prefix(url@, "http://"@) || has_prefix(url@, "https://"@)) ==> (r matches Err(e) && e@
                == "invalid HTTP URL: "@ + url@),
    {
        if starts_with(url, "http://") || starts_with(url, "https://") {
            Ok(())
        } else {
            Err(message_with("invalid HTTP URL: ", url))
        }
    }

    /// Collects header pairs into a header map: one entry per name, holding the value
    /// of the name's last occurrence, names in order of first occurrence.
    #[verifier::rlimit(40)]
    pub fn parse_headers(headers: Vec<(String, String)>) -> (r: Vec<(String, String)>)
        ensures
            names_unique(r@),
            header_map(r@) == header_map(headers@),
    {
        let mut out: Vec<(String, String)> = Vec::new();
        let mut i: usize = 0;
        while i < headers.len()
            invariant
                i <= headers@.len(),
                names_unique(out@),
                header_map(out@) == header_map(headers@.subrange(0, i as int)),
            decreases headers@.len() - i,
        {
            let name = headers[i].0.clone();
            let value = headers[i].1.clone();
            proof {
                assert(headers@.subrange(0, i + 1).drop_last() =~= headers@.subrange(0, i as int));
                assert(name@ == headers@[i as int].0@ && value@ == headers@[i as int].1@);
            }
            let mut j: usize = 0;
            let mut pos: Option<usize> = None;
            while j < out.len()
                invariant
                    j <= out@.len(),
                    pos matches Some(p) ==> p < out@.len() && out@[p as int].0@ == name@,
                    pos is None ==> forall|k: int| 0 <= k < j ==> out@[k].0@ != name@,
                decreases out@.len() - j,
            {
                if pos.is_none() && out[j].0 == name {
                    pos = Some(j);
                }
                j = j + 1;
            }
            match pos {
                Some(p) => {
                    let ghost before = out@;
                    proof {
                        lemma_header_map_update(before, p as int, name, value);
                    }
                    out.set(p, (name, value));
                    assert(out@ =~= before.update(p as int, (name, value)));
                    assert forall|a: int, b: int| 0 <= a < b < out@.len() implies out@[a].0@ != out@[b].0@ by {
                        assert(before[a].0@ != before[b].0@);
                    }
                },
                None => {
                    let ghost before = out@;
                    out.push((name, value));
                    proof {
                        assert(out@.drop_last() =~= before);
                        assert forall|a: int, b: int| 0 <= a < b < out@.len() implies out@[a].0@ != out@[b].0@ by {
                            if b < before.len() {
                                assert(before[a].0@ != before[b].0@);
                            }
                        }
                    }
                },
            }
            i = i + 1;
        }
        assert(headers@.subrange(0, i as int) =~= headers@);
        out
    }
}

/// Header names in `h` are pairwise distinct.
pub open spec fn names_unique(h: Seq<(String, String)>) -> bool {
    forall|a: int, b: int| 0 <= a < b < h.len() ==> h[a].0@ != h[b].0@
}

/// The map from header names to values that a list of pairs gives, later pairs
/// overriding earlier ones.
pub open spec fn header_map(h: Seq<(String, String)>) -> Map<Seq<char>, Seq<char>>
    decreases h.len(),
{
    if h.len() == 0 {
        Map::empty()
    } else {
        header_map(h.drop_last()).insert(h.last().0@, h.last().1@)
    }
}

proof fn lemma_header_map_update(h: Seq<(String, String)>, j: int, name: String, value: String)
    requires
        names_unique(h),
        0 <= j < h.len(),
        h[j].0@ == name@,
    ensures
        header_map(h.update(j, (name, value))) == header_map(h).insert(name@, value@),
    decreases h.len(),
{
    let h2 = h.update(j, (name, value));
    if j == h.len() - 1 {
        assert(h2.drop_last() =~= h.drop_last());
        assert(header_map(h2) =~= header_map(h).insert(name@, value@));
    } else {
        assert(h2.drop_last() =~= h.drop_last().update(j, (name, value)));
        lemma_header_map_update(h.drop_last(), j, name, value);
        assert(h.last().0@ != name@);
        assert(header_map(h2) =~= header_map(h).insert(name@, value@));
    }
}

/// WebSocket request checks.
pub struct WebSocketCodec;

impl WebSocketCodec {
    /// Accepts `ws://` and `wss://` URLs.
    pub fn validate_url(url: &str) -> (r: Result<(), String>)
        ensures
            has_prefix(url@, "ws://"@) || has_prefix(url@, "wss://"@) ==> r is Ok,
            !(has_prefix(url@, "ws://"@) || has_prefix(url@, "wss://"@)) ==> (r matches Err(e) && e@
                == "invalid WebSocket URL: "@ + url@),
    {
        if starts_with(url, "ws://") || starts_with(url, "wss://") {
            Ok(())
        } else {
            Err(message_with("invalid WebSocket URL: ", url))
        }
    }

    /// A fresh tunnel id: 16 random bytes in lowercase hex.
    pub fn generate_tunnel_id() -> (r: String)
        ensures
            exists|b: Seq<u8>| b.len() == 16 && r@ == hex_lower(b),
    {
        let bytes = random_bytes(16);
        hex_encode(bytes.as_slice())
    }
}

/// TCP request checks.
pub struct TcpCodec;

impl TcpCodec {
    /// Accepts a non-empty host and a non-zero port.
    pub fn validate_address(host: &str, port: u16) -> (r: Result<(), String>)
        ensures
            host@.len() == 0 ==> (r matches Err(e) && e@ == "empty host"@),
            host@.len() > 0 && port == 0 ==> (r matches Err(e) && e@ == "invalid port"@),
            host@.len() > 0 && port != 0 ==> r is Ok,
    {
        if host.unicode_len() == 0 {
            return Err(String::from_str("empty host"));
        }
        if port == 0 {
            return Err(String::from_str("invalid port"));
        }
        Ok(())
    }
}

} // verus!
