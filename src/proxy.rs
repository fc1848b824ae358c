//! Which browser requests go through a tunnel, and the small binary packets a page
//! exchanges with the relay (a type byte, three reserved bytes, then the body).
use crate::bytes::{copy_range, utf8_decode};
use crate::codec::has_prefix;
use vstd::prelude::*;
use vstd::string::{StrSliceExecFns, StringExecFns};
use vstd::utf8::{decode_utf8, valid_utf8};

verus! {

/// `pat` occurs somewhere in `s`.
pub open spec fn has_substring(s: Seq<char>, pat: Seq<char>) -> bool {
    exists|i: int| 0 <= i && i + pat.len() <= s.len() && #[trigger] s.subrange(i, i + pat.len()) == pat
}

/// Whether `pat` occurs in `s`.
fn contains(s: &str, pat: &str) -> (r: bool)
    ensures
        r == has_substring(s@, pat@),
{
    let n = s.unicode_len();
    let p = pat.unicode_len();
    if p == 0 {
        assert(s@.subrange(0, 0 + pat@.len() as int) =~= pat@);
        return true;
    }
    if p > n {
        return false;
    }
    let mut i: usize = 0;
    while i <= n - p
        invariant
            n == s@.len(),
            p == pat@.len(),
            1 <= p <= n,
            i <= n - p + 1,
            forall|j: int| 0 <= j < i ==> #[trigger] s@.subrange(j, j + p) != pat@,
        decreases n - p + 1 - i,
    {
        if crate::codec::str_eq(s.substring_char(i, i + p), pat) {
            return true;
        }
        i = i + 1;
    }
    false
}

/// Proxy settings.
pub struct ProxyConfig {
    pub server_url: String,
    pub enabled: bool,
    pub intercept_patterns: Vec<String>,
    pub bypass_patterns: Vec<String>,
}

impl Default for ProxyConfig {
    fn default() -> (r: ProxyConfig)
        ensures
            r.server_url@ == "ws://localhost:9001/ws"@,
            r.enabled,
            r.intercept_patterns@.len() == 1 && r.intercept_patterns@[0]@ == "*"@,
            r.bypass_patterns@.len() == 0,
    {
        ProxyConfig {
            server_url: String::from_str("ws://localhost:9001/ws"),
            enabled: true,
            intercept_patterns: vec![String::from_str("*")],
            bypass_patterns: Vec::new(),
        }
    }
}

/// Whether a proxy with these patterns takes `url`: never the page's own server,
/// never a URL matching a bypass pattern; then any URL if `*` is an intercept
/// pattern, else a URL matching an intercept pattern.
pub open spec fn intercepts(intercept: Seq<Seq<char>>, bypass: Seq<Seq<char>>, url: Seq<char>) -> bool {
    if has_substring(url, "localhost:8000"@) || has_substring(url, "relaydns_wasm"@) {
        false
    } else if exists|k: int| 0 <= k < bypass.len() && has_substring(url, #[trigger] bypass[k]) {
        false
    } else if exists|k: int| 0 <= k < intercept.len() && #[trigger] intercept[k] == "*"@ {
        true
    } else {
        exists|k: int| 0 <= k < intercept.len() && has_substring(url, #[trigger] intercept[k])
    }
}

/// The views of a list of strings.
pub open spec fn views(v: Seq<String>) -> Seq<Seq<char>> {
    v.map_values(|s: String| s@)
}

impl ProxyConfig {
    /// Whether a request to `url` should go through a tunnel.
    #[verifier::rlimit(40)]
    pub fn should_intercept(&self, url: &str) -> (r: bool)
        ensures
            r == intercepts(views(self.intercept_patterns@), views(self.bypass_patterns@), url@),
    {
        let ghost ic = views(self.intercept_patterns@);
        let ghost bp = views(self.bypass_patterns@);
        if contains(url, "localhost:8000") || contains(url, "relaydns_wasm") {
            return false;
        }
        let mut k: usize = 0;
        while k < self.bypass_patterns.len()
            invariant
                k <= self.bypass_patterns@.len(),
                bp == views(self.bypass_patterns@),
                forall|j: int| 0 <= j < k ==> !has_substring(url@, #[trigger] bp[j]),
            decreases self.bypass_patterns@.len() - k,
        {
            if contains(url, self.bypass_patterns[k].as_str()) {
                assert(bp[k as int] == self.bypass_patterns@[k as int]@);
                return false;
            }
            assert(bp[k as int] == self.bypass_patterns@[k as int]@);
            k = k + 1;
        }
        let mut k: usize = 0;
        while k < self.intercept_patterns.len()
            invariant
                k <= self.intercept_patterns@.len(),
                ic == views(self.intercept_patterns@),
                bp == views(self.bypass_patterns@),
                !has_substring(url@, "localhost:8000"@) && !has_substring(url@, "relaydns_wasm"@),
                forall|j: int| 0 <= j < bp.len() ==> !has_substring(url@, #[trigger] bp[j]),
                forall|j: int| 0 <= j < k ==> #[trigger] ic[j] != "*"@,
            decreases self.intercept_patterns@.len() - k,
        {
            if crate::codec::str_eq(self.intercept_patterns[k].as_str(), "*") {
                assert(ic[k as int] == self.intercept_patterns@[k as int]@);
                return true;
            }
            assert(ic[k as int] == self.intercept_patterns@[k as int]@);
            k = k + 1;
        }
        let mut k: usize = 0;
        while k < self.intercept_patterns.len()
            invariant
                k <= self.intercept_patterns@.len(),
                ic == views(self.intercept_patterns@),
                bp == views(self.bypass_patterns@),
                !has_substring(url@, "localhost:8000"@) && !has_substring(url@, "relaydns_wasm"@),
                forall|j: int| 0 <= j < bp.len() ==> !has_substring(url@, #[trigger] bp[j]),
                forall|j: int| 0 <= j < ic.len() ==> #[trigger] ic[j] != "*"@,
                forall|j: int| 0 <= j < k ==> !has_substring(url@, #[trigger] ic[j]),
            decreases self.intercept_patterns@.len() - k,
        {
            if contains(url, self.intercept_patterns[k].as_str()) {
                assert(ic[k as int] == self.intercept_patterns@[k as int]@);
                return true;
            }
            assert(ic[k as int] == self.intercept_patterns@[k as int]@);
            k = k + 1;
        }
        false
    }
}

/// A message between a page and the relay.
#[derive(Debug, Clone, PartialEq, Eq)]
pub enum Message {
    Text { data: String },
    Binary { data: Vec<u8> },
    File { name: String, size: usize, mime_type: String, data: Vec<u8> },
    Api { endpoint: String, method: String, headers: Vec<(String, String)>, body: Option<Vec<u8>> },
}

/// The type byte of a packet.
pub open spec fn packet_type(m: Message) -> u8 {
    match m {
        Message::Text { .. } => 1,
        Message::Binary { .. } => 2,
        Message::File { .. } => 3,
        Message::Api { .. } => 4,
    }
}

/// The body a packet carries for a message.
pub open spec fn packet_body(m: Message) -> Seq<u8> {
    match m {
        Message::Text { data } => vstd::utf8::encode_utf8(data@),
        Message::Binary { data } => data@,
        Message::File { data, .. } => data@,
        Message::Api { body, .. } => match body {
            Some(b) => b@,
            None => Seq::empty(),
        },
    }
}

/// Decimal digits of a byte, without leading zeros.
pub open spec fn decimal(n: u8) -> Seq<char> {
    if n < 10 {
        seq![digit(n)]
    } else if n < 100 {
        seq![digit(n / 10), digit(n % 10)]
    } else {
        seq![digit(n / 100), digit((n / 10) % 10), digit(n % 10)]
    }
}

/// The character of a decimal digit.
pub open spec fn digit(d: u8) -> char {
    ((d + 48) as u8) as char
}

fn digit_char(d: u8) -> (r: char)
    requires
        d < 10,
    ensures
        r == digit(d),
{
    ((d + 48) as u8) as char
}

fn decimal_string(n: u8) -> (r: String)
    ensures
        r@ == decimal(n),
{
    let mut s = String::new();
    if n >= 100 {
        push_char(&mut s, digit_char(n / 100));
    }
    if n >= 10 {
        push_char(&mut s, digit_char((n / 10) % 10));
    }
    push_char(&mut s, digit_char(n % 10));
    proof {
        if n < 10 {
            assert(s@ =~= decimal(n));
        } else if n < 100 {
            assert(s@ =~= decimal(n));
        } else {
            assert(s@ =~= decimal(n));
        }
    }
    s
}

/// Relies on `String::push`: appends one character.
#[verifier::external_body]
fn push_char(s: &mut String, c: char)
    ensures
        final(s)@ == old(s)@.push(c),
{
    s.push(c)
}

/// Turns relay packets into page messages and back.
pub struct DataInterpreter;

impl DataInterpreter {
    /// Reads a packet: under four bytes is too short; type 1 is UTF-8 text, type 2
    /// binary, each from the fifth byte on; any other type is unknown.
    pub fn parse_packet(data: Vec<u8>) -> (r: Result<Message, String>)
        ensures
            data@.len() < 4 ==> (r matches Err(e) && e@ == "packet too short"@),
            data@.len() >= 4 && data@[0] == 1 && valid_utf8(data@.subrange(4, data@.len() as int))
                ==> (r matches Ok(Message::Text { data: t }) && t@ == decode_utf8(
                data@.subrange(4, data@.len() as int),
            )),
            data@.len() >= 4 && data@[0] == 1 && !valid_utf8(data@.subrange(4, data@.len() as int))
                ==> (r matches Err(e) && has_prefix(e@, "utf8 error: "@)),
            data@.len() >= 4 && data@[0] == 2 ==> (r matches Ok(Message::Binary { data: b }) && b@
                == data@.subrange(4, data@.len() as int)),
            data@.len() >= 4 && data@[0] != 1 && data@[0] != 2 ==> (r matches Err(e) && e@
                == "unknown packet type: "@ + decimal(data@[0])),
    {
        if data.len() < 4 {
            return Err(String::from_str("packet too short"));
        }
        let packet_type = data[0];
        if packet_type == 1 {
            match utf8_decode(copy_range(data.as_slice(), 4, data.len())) {
                Ok(text) => Ok(Message::Text { data: text }),
                Err(e) => {
                    let mut msg = String::from_str("utf8 error: ");
                    msg.append(e.as_str());
                    proof {
                        reveal_strlit("utf8 error: ");
                        assert(msg@.subrange(0, 12) =~= "utf8 error: "@);
                    }
                    Err(msg)
                },
            }
        } else if packet_type == 2 {
            Ok(Message::Binary { data: copy_range(data.as_slice(), 4, data.len()) })
        } else {
            let mut msg = String::from_str("unknown packet type: ");
            let num = decimal_string(packet_type);
            msg.append(num.as_str());
            Err(msg)
        }
    }

    /// Writes a packet: the type byte, three zero bytes, then the body (the text's
    /// UTF-8, the bytes, the file's data, or the API call's body if any).
    pub fn create_packet(msg: Message) -> (r: Vec<u8>)
        ensures
            r@ == seq![packet_type(msg), 0u8, 0u8, 0u8] + packet_body(msg),
    {
        let mut packet: Vec<u8> = Vec::new();
        let ghost m = msg;
        match msg {
            Message::Text { data } => {
                packet.push(1);
                packet.push(0);
                packet.push(0);
                packet.push(0);
                packet.extend_from_slice(data.as_str().as_bytes());
            },
            Message::Binary { data } => {
                packet.push(2);
                packet.push(0);
                packet.push(0);
                packet.push(0);
                packet.extend_from_slice(data.as_slice());
            },
            Message::File { data, .. } => {
                packet.push(3);
                packet.push(0);
                packet.push(0);
                packet.push(0);
                packet.extend_from_slice(data.as_slice());
            },
            Message::Api { body, .. } => {
                packet.push(4);
                packet.push(0);
                packet.push(0);
                packet.push(0);
                match body {
                    Some(b) => {
                        packet.extend_from_slice(b.as_slice());
                    },
                    None => {},
                }
            },
        }
        assert(packet@ =~= seq![packet_type(m), 0u8, 0u8, 0u8] + packet_body(m));
        packet
    }
}

} // verus!
