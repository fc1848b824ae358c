//! The handshake and data messages on the wire, in protocol-buffer shape.
//!
//! Each message is its fields in field-number order, a field being a one-byte key
//! (field number and wire type), then a varint or a varint length and that many
//! bytes. As in proto3, a field that holds its default value (zero, empty) is
//! left out. Decoding accepts exactly the encodings that `encode_*` produces, so
//! a decoded message always re-encodes to the bytes it came from.
use vstd::arithmetic::div_mod::{lemma_fundamental_div_mod, lemma_fundamental_div_mod_converse};
use crate::bytes::{copy_range, utf8_decode};
use crate::error::TunnelError;
use vstd::prelude::*;
use vstd::utf8::{decode_utf8, encode_utf8, valid_utf8, encode_utf8_decode_utf8, encode_utf8_valid_utf8, decode_utf8_encode_utf8};
use vstd::string::StringSliceAdditionalSpecFns;

verus! {

/// Base-128 little-endian varint, high bit set on every byte but the last.
pub open spec fn varint(n: nat) -> Seq<u8>
    decreases n,
{
    if n < 128 {
        seq![n as u8]
    } else {
        seq![(n % 128 + 128) as u8] + varint(n / 128)
    }
}

/// A varint of a value at or above 128 spelled out in its first byte and the rest.
proof fn lemma_varint_step(low: nat, rest: nat)
    requires
        low < 128,
        rest >= 1,
    ensures
        varint(low + 128 * rest) == seq![(low + 128) as u8] + varint(rest),
{
    let n = low + 128 * rest;
    lemma_fundamental_div_mod_converse(n as int, 128, rest as int, low as int);
}

proof fn lemma_varint_len(n: nat)
    ensures
        varint(n).len() >= 1,
        varint(n)[0] < 128 <==> n < 128,
        varint(n).len() == 1 <==> n < 128,
    decreases n,
{
    if n >= 128 {
        lemma_varint_len(n / 128);
    }
}

/// A varint at `pos` whose first byte has the continuation bit set: its value is the
/// low seven bits plus 128 times the varint that follows.
proof fn lemma_varint_split(b: Seq<u8>, pos: int, n: nat)
    requires
        0 <= pos,
        pos + varint(n).len() <= b.len(),
        b.subrange(pos, pos + varint(n).len()) == varint(n),
        b[pos] >= 128,
    ensures
        n >= 128,
        b[pos] == (n % 128 + 128) as u8,
        n == n % 128 + 128 * (n / 128),
        varint(n).len() == 1 + varint(n / 128).len(),
        b.subrange(pos + 1, pos + 1 + varint(n / 128).len()) == varint(n / 128),
{
    lemma_varint_len(n);
    let s = b.subrange(pos, pos + varint(n).len());
    assert(s[0] == b[pos]);
    let m = n / 128;
    assert(varint(n) == seq![(n % 128 + 128) as u8] + varint(m));
    assert(b.subrange(pos + 1, pos + 1 + varint(m).len()) =~= s.subrange(1, s.len() as int));
    assert(varint(m) =~= varint(n).subrange(1, varint(n).len() as int));
    lemma_fundamental_div_mod(n as int, 128);
}

/// Appends the varint of `n`.
pub fn put_varint(out: &mut Vec<u8>, n: u64)
    ensures
        final(out)@ == old(out)@ + varint(n as nat),
{
    let ghost start = out@;
    let mut m = n;
    while m >= 128
        invariant
            out@ + varint(m as nat) == start + varint(n as nat),
        decreases m,
    {
        let ghost before = out@;
        out.push((m % 128 + 128) as u8);
        proof {
            assert(varint(m as nat) == seq![(m % 128 + 128) as u8] + varint((m / 128) as nat));
            assert(before + varint(m as nat) =~= out@ + varint((m / 128) as nat));
        }
        m = m / 128;
    }
    out.push(m as u8);
    assert(out@ =~= start + varint(n as nat));
}

/// Reads a varint at `pos`, refusing a non-canonical one (a needless trailing zero byte,
/// or `nonzero` and a value of zero) and one that does not fit in 64 bits.
#[verifier::rlimit(40)]
fn take_varint_from(b: &[u8], pos: usize, nonzero: bool) -> (r: Option<(u64, usize)>)
    ensures
        r matches Some((n, e)) ==> pos < e <= b@.len() && b@.subrange(pos as int, e as int)
            == varint(n as nat) && (nonzero ==> n >= 1),
        forall|n: nat|
            #![trigger varint(n)]
            n <= u64::MAX && (nonzero ==> n >= 1) && pos + varint(n).len() <= b@.len()
                && b@.subrange(pos as int, pos + varint(n).len()) == varint(n) ==> r == Some::<
                (u64, usize),
            >((n as u64, (pos + varint(n).len()) as usize)),
    decreases b@.len() - pos,
{
    if pos >= b.len() {
        proof {
            assert forall|n: nat|
                #![trigger varint(n)]
                n <= u64::MAX && (nonzero ==> n >= 1) && pos + varint(n).len() <= b@.len()
                    && b@.subrange(pos as int, pos + varint(n).len()) == varint(n) implies false by {
                lemma_varint_len(n);
            }
        }
        return None;
    }
    let x = b[pos];
    if x < 128 {
        if nonzero && x == 0 {
            proof {
                assert forall|n: nat|
                    #![trigger varint(n)]
                    n <= u64::MAX && (nonzero ==> n >= 1) && pos + varint(n).len() <= b@.len()
                        && b@.subrange(pos as int, pos + varint(n).len()) == varint(n) implies false by {
                    lemma_varint_len(n);
                    assert(b@.subrange(pos as int, pos + varint(n).len())[0] == x);
                }
            }
            return None;
        }
        proof {
            assert(b@.subrange(pos as int, pos + 1) =~= varint(x as nat));
            assert forall|n: nat|
                #![trigger varint(n)]
                n <= u64::MAX && (nonzero ==> n >= 1) && pos + varint(n).len() <= b@.len()
                    && b@.subrange(pos as int, pos + varint(n).len()) == varint(n) implies n == x
                as nat by {
                lemma_varint_len(n);
                assert(b@.subrange(pos as int, pos + varint(n).len())[0] == x);
            }
        }
        return Some((x as u64, pos + 1));
    }
    let inner = take_varint_from(b, pos + 1, true);
    match inner {
        None => {
            proof {
                assert forall|n: nat|
                    #![trigger varint(n)]
                    n <= u64::MAX && (nonzero ==> n >= 1) && pos + varint(n).len() <= b@.len()
                        && b@.subrange(pos as int, pos + varint(n).len()) == varint(n) implies false by {
                    lemma_varint_split(b@, pos as int, n);
                }
            }
            None
        },
        Some((rest, e)) => {
            if rest > 0x01FF_FFFF_FFFF_FFFF {
                proof {
                    assert forall|n: nat|
                        #![trigger varint(n)]
                        n <= u64::MAX && (nonzero ==> n >= 1) && pos + varint(n).len() <= b@.len()
                            && b@.subrange(pos as int, pos + varint(n).len()) == varint(n) implies false by {
                        lemma_varint_split(b@, pos as int, n);
                    }
                }
                return None;
            }
            let low = (x - 128) as u64;
            let value = low + 128 * rest;
            proof {
                lemma_varint_step(low as nat, rest as nat);
                assert(b@.subrange(pos as int, e as int) =~= seq![x] + b@.subrange(pos + 1, e as int));
                assert forall|n: nat|
                    #![trigger varint(n)]
                    n <= u64::MAX && (nonzero ==> n >= 1) && pos + varint(n).len() <= b@.len()
                        && b@.subrange(pos as int, pos + varint(n).len()) == varint(n) implies n
                    == value && pos + varint(n).len() == e by {
                    lemma_varint_split(b@, pos as int, n);
                }
            }
            Some((value, e))
        },
    }
}

/// A length-delimited field; left out when `v` is empty.
pub open spec fn bytes_field(key: u8, v: Seq<u8>) -> Seq<u8> {
    if v.len() == 0 {
        Seq::empty()
    } else {
        seq![key] + varint(v.len()) + v
    }
}

/// A varint field; left out when `n` is zero.
pub open spec fn varint_field(key: u8, n: nat) -> Seq<u8> {
    if n == 0 {
        Seq::empty()
    } else {
        seq![key] + varint(n)
    }
}

/// A nested-message field; present exactly when there is a message, even an empty one.
pub open spec fn message_field(key: u8, m: Option<Seq<u8>>) -> Seq<u8> {
    match m {
        None => Seq::empty(),
        Some(v) => seq![key] + varint(v.len()) + v,
    }
}

/// What follows a field does not start with that field's key again.
pub open spec fn not_led_by(rest: Seq<u8>, key: u8) -> bool {
    rest.len() == 0 || rest[0] != key
}

fn put_bytes(out: &mut Vec<u8>, v: &[u8])
    ensures
        final(out)@ == old(out)@ + v@,
{
    out.extend_from_slice(v);
}

/// Appends a length-delimited field.
pub fn put_bytes_field(out: &mut Vec<u8>, key: u8, v: &[u8])
    ensures
        final(out)@ == old(out)@ + bytes_field(key, v@),
{
    if v.len() == 0 {
        assert(out@ =~= out@ + bytes_field(key, v@));
        return;
    }
    let ghost start = out@;
    out.push(key);
    put_varint(out, v.len() as u64);
    put_bytes(out, v);
    assert(out@ =~= start + bytes_field(key, v@));
}

/// Appends a varint field.
pub fn put_varint_field(out: &mut Vec<u8>, key: u8, n: u64)
    ensures
        final(out)@ == old(out)@ + varint_field(key, n as nat),
{
    if n == 0 {
        assert(out@ =~= out@ + varint_field(key, n as nat));
        return;
    }
    let ghost start = out@;
    out.push(key);
    put_varint(out, n);
    assert(out@ =~= start + varint_field(key, n as nat));
}

/// Appends a nested-message field holding the encoded message `m`.
pub fn put_message_field(out: &mut Vec<u8>, key: u8, m: &[u8])
    ensures
        final(out)@ == old(out)@ + message_field(key, Some(m@)),
{
    let ghost start = out@;
    out.push(key);
    put_varint(out, m.len() as u64);
    put_bytes(out, m);
    assert(out@ =~= start + message_field(key, Some(m@)));
}

/// Reads a varint length at `pos` and the bytes it announces.
#[verifier::rlimit(40)]
fn take_counted(b: &[u8], pos: usize, nonempty: bool) -> (r: Option<(Vec<u8>, usize)>)
    ensures
        r matches Some((v, e)) ==> pos < e <= b@.len() && b@.subrange(pos as int, e as int)
            == varint(v@.len()) + v@ && (nonempty ==> v@.len() >= 1),
        forall|v: Seq<u8>|
            #![trigger varint(v.len()) + v]
            (nonempty ==> v.len() >= 1) && pos + (varint(v.len()) + v).len() <= b@.len()
                && b@.subrange(pos as int, pos + (varint(v.len()) + v).len()) == varint(v.len())
                + v ==> (r matches Some((w, e)) && w@ == v && e == pos + (varint(v.len())
                + v).len()),
{
    let blen = b.len();
    let lenr = take_varint_from(b, pos, nonempty);
    match lenr {
        None => {
            proof {
                assert forall|v: Seq<u8>|
                    #![trigger varint(v.len()) + v]
                    (nonempty ==> v.len() >= 1) && pos + (varint(v.len()) + v).len() <= b@.len()
                        && b@.subrange(pos as int, pos + (varint(v.len()) + v).len())
                        == varint(v.len()) + v implies false by {
                    let k = varint(v.len()).len();
                    assert(b@.subrange(pos as int, pos + k) =~= (varint(v.len()) + v).subrange(0, k as int));
                    assert(varint(v.len()) =~= (varint(v.len()) + v).subrange(0, k as int));
                    assert(v.len() <= b@.len());
                    assert(b@.len() <= usize::MAX);
                    assert(pos + k <= b@.len());
                }
            }
            None
        },
        Some((n, e)) => {
            if n > (blen - e) as u64 {
                proof {
                    assert forall|v: Seq<u8>|
                        #![trigger varint(v.len()) + v]
                        (nonempty ==> v.len() >= 1) && pos + (varint(v.len()) + v).len() <= b@.len()
                            && b@.subrange(pos as int, pos + (varint(v.len()) + v).len())
                            == varint(v.len()) + v implies false by {
                        let k = varint(v.len()).len();
                        assert(b@.subrange(pos as int, pos + k) =~= (varint(v.len()) + v).subrange(0, k as int));
                        assert(varint(v.len()) =~= (varint(v.len()) + v).subrange(0, k as int));
                        assert(v.len() <= b@.len());
                        assert(b@.len() <= usize::MAX);
                        assert(n == v.len() && e == pos + k);
                        assert((varint(v.len()) + v).len() == k + v.len());
                        assert(n > b@.len() - e);
                    }
                }
                return None;
            }
            let end = e + n as usize;
            let v = copy_range(b, e, end);
            proof {
                assert(b@.subrange(pos as int, end as int) =~= b@.subrange(pos as int, e as int) + v@);
                assert forall|w: Seq<u8>|
                    #![trigger varint(w.len()) + w]
                    (nonempty ==> w.len() >= 1) && pos + (varint(w.len()) + w).len() <= b@.len()
                        && b@.subrange(pos as int, pos + (varint(w.len()) + w).len())
                        == varint(w.len()) + w implies v@ == w && end == pos + (varint(w.len())
                    + w).len() by {
                    let k = varint(w.len()).len();
                    assert(b@.subrange(pos as int, pos + k) =~= (varint(w.len()) + w).subrange(0, k as int));
                    assert(varint(w.len()) =~= (varint(w.len()) + w).subrange(0, k as int));
                    assert(w =~= (varint(w.len()) + w).subrange(k as int, (varint(w.len()) + w).len() as int));
                    assert(v@ =~= b@.subrange(pos + k, pos + k + w.len()));
                }
            }
            Some((v, end))
        },
    }
}

/// `f` is empty or begins with `key`.
pub open spec fn led_by_or_empty(f: Seq<u8>, key: u8) -> bool {
    f.len() == 0 || f[0] == key
}

proof fn lemma_fields_lead(key: u8, v: Seq<u8>, n: nat, m: Option<Seq<u8>>)
    ensures
        led_by_or_empty(bytes_field(key, v), key),
        led_by_or_empty(varint_field(key, n), key),
        led_by_or_empty(message_field(key, m), key),
        message_field(key, m).len() == 0 <==> m is None,
{
}

proof fn lemma_not_led_by_concat(x: Seq<u8>, xkey: u8, y: Seq<u8>, key: u8)
    requires
        led_by_or_empty(x, xkey),
        xkey != key,
        not_led_by(y, key),
    ensures
        not_led_by(x + y, key),
{
    if x.len() > 0 {
        assert((x + y)[0] == x[0]);
    } else {
        assert(x + y =~= y);
    }
}

/// Splitting the bytes from `p` on into a field and what follows it.
proof fn lemma_split_at(b: Seq<u8>, p: int, f: Seq<u8>, rest: Seq<u8>)
    requires
        0 <= p <= b.len(),
        b.subrange(p, b.len() as int) == f + rest,
    ensures
        p + f.len() <= b.len(),
        b.subrange(p, p + f.len()) == f,
        b.subrange(p + f.len(), b.len() as int) == rest,
{
    assert(b.subrange(p, p + f.len()) =~= (f + rest).subrange(0, f.len() as int));
    assert(b.subrange(p + f.len(), b.len() as int) =~= (f + rest).subrange(
        f.len() as int,
        (f + rest).len() as int,
    ));
}

/// Reads the length-delimited field `key` at `pos`, or nothing if another field comes first.
#[verifier::rlimit(40)]
fn take_bytes_field(b: &[u8], pos: usize, key: u8) -> (r: Option<(Vec<u8>, usize)>)
    requires
        pos <= b@.len(),
    ensures
        r matches Some((v, e)) ==> pos <= e <= b@.len() && b@.subrange(pos as int, e as int)
            == bytes_field(key, v@),
        forall|v: Seq<u8>|
            #![trigger bytes_field(key, v)]
            pos + bytes_field(key, v).len() <= b@.len() && b@.subrange(
                pos as int,
                pos + bytes_field(key, v).len(),
            ) == bytes_field(key, v) && not_led_by(
                b@.subrange(pos + bytes_field(key, v).len(), b@.len() as int),
                key,
            ) ==> (r matches Some((w, e)) && w@ == v && e == pos + bytes_field(key, v).len()),
{
    if pos < b.len() && b[pos] == key {
        match take_counted(b, pos + 1, true) {
            None => {
                proof {
                    assert forall|v: Seq<u8>|
                        #![trigger bytes_field(key, v)]
                        pos + bytes_field(key, v).len() <= b@.len() && b@.subrange(
                            pos as int,
                            pos + bytes_field(key, v).len(),
                        ) == bytes_field(key, v) && not_led_by(
                            b@.subrange(pos + bytes_field(key, v).len(), b@.len() as int),
                            key,
                        ) implies false by {
                        if v.len() == 0 {
                            assert(b@.subrange(pos as int, b@.len() as int)[0] == key);
                        } else {
                            assert(bytes_field(key, v) =~= seq![key] + (varint(v.len()) + v));
                            assert(b@.subrange(pos + 1, pos + 1 + (varint(v.len()) + v).len())
                                =~= b@.subrange(pos as int, pos + bytes_field(key, v).len()).subrange(1, bytes_field(key, v).len() as int));
                            assert((varint(v.len()) + v) =~= bytes_field(key, v).subrange(1, bytes_field(key, v).len() as int));
                        }
                    }
                }
                None
            },
            Some((v, e)) => {
                proof {
                    assert(b@.subrange(pos as int, e as int) =~= seq![key] + b@.subrange(pos + 1, e as int));
                    assert(bytes_field(key, v@) =~= seq![key] + (varint(v@.len()) + v@));
                    assert forall|w: Seq<u8>|
                        #![trigger bytes_field(key, w)]
                        pos + bytes_field(key, w).len() <= b@.len() && b@.subrange(
                            pos as int,
                            pos + bytes_field(key, w).len(),
                        ) == bytes_field(key, w) && not_led_by(
                            b@.subrange(pos + bytes_field(key, w).len(), b@.len() as int),
                            key,
                        ) implies v@ == w && e == pos + bytes_field(key, w).len() by {
                        if w.len() == 0 {
                            assert(b@.subrange(pos as int, b@.len() as int)[0] == key);
                        } else {
                            assert(bytes_field(key, w) =~= seq![key] + (varint(w.len()) + w));
                            assert(b@.subrange(pos + 1, pos + 1 + (varint(w.len()) + w).len())
                                =~= b@.subrange(pos as int, pos + bytes_field(key, w).len()).subrange(1, bytes_field(key, w).len() as int));
                            assert((varint(w.len()) + w) =~= bytes_field(key, w).subrange(1, bytes_field(key, w).len() as int));
                        }
                    }
                }
                Some((v, e))
            },
        }
    } else {
        proof {
            assert(b@.subrange(pos as int, pos as int) =~= bytes_field(key, Seq::<u8>::empty()));
            assert forall|w: Seq<u8>|
                #![trigger bytes_field(key, w)]
                pos + bytes_field(key, w).len() <= b@.len() && b@.subrange(
                    pos as int,
                    pos + bytes_field(key, w).len(),
                ) == bytes_field(key, w) && not_led_by(
                    b@.subrange(pos + bytes_field(key, w).len(), b@.len() as int),
                    key,
                ) implies w =~= Seq::<u8>::empty() by {
                if w.len() > 0 {
                    assert(b@.subrange(pos as int, pos + bytes_field(key, w).len())[0] == key);
                }
            }
        }
        Some((Vec::new(), pos))
    }
}

/// Reads the varint field `key` at `pos`, or zero if another field comes first.
#[verifier::rlimit(40)]
fn take_varint_field(b: &[u8], pos: usize, key: u8) -> (r: Option<(u64, usize)>)
    requires
        pos <= b@.len(),
    ensures
        r matches Some((n, e)) ==> pos <= e <= b@.len() && b@.subrange(pos as int, e as int)
            == varint_field(key, n as nat),
        forall|n: nat|
            #![trigger varint_field(key, n)]
            n <= u64::MAX && pos + varint_field(key, n).len() <= b@.len() && b@.subrange(
                pos as int,
                pos + varint_field(key, n).len(),
            ) == varint_field(key, n) && not_led_by(
                b@.subrange(pos + varint_field(key, n).len(), b@.len() as int),
                key,
            ) ==> r == Some::<(u64, usize)>((n as u64, (pos + varint_field(key, n).len()) as usize)),
{
    if pos < b.len() && b[pos] == key {
        let inner = take_varint_from(b, pos + 1, true);
        proof {
            assert forall|n: nat|
                #![trigger varint_field(key, n)]
                n <= u64::MAX && pos + varint_field(key, n).len() <= b@.len() && b@.subrange(
                    pos as int,
                    pos + varint_field(key, n).len(),
                ) == varint_field(key, n) && not_led_by(
                    b@.subrange(pos + varint_field(key, n).len(), b@.len() as int),
                    key,
                ) implies n >= 1 && inner == Some::<(u64, usize)>(
                    (n as u64, (pos + 1 + varint(n).len()) as usize),
                ) by {
                if n == 0 {
                    assert(b@.subrange(pos as int, b@.len() as int)[0] == key);
                } else {
                    assert(varint_field(key, n) =~= seq![key] + varint(n));
                    assert(b@.subrange(pos + 1, pos + 1 + varint(n).len())
                        =~= b@.subrange(pos as int, pos + varint_field(key, n).len()).subrange(1, varint_field(key, n).len() as int));
                    assert(varint(n) =~= varint_field(key, n).subrange(1, varint_field(key, n).len() as int));
                }
            }
        }
        match inner {
            None => None,
            Some((n, e)) => {
                assert(b@.subrange(pos as int, e as int) =~= seq![key] + b@.subrange(pos + 1, e as int));
                assert(varint_field(key, n as nat) =~= seq![key] + varint(n as nat));
                Some((n, e))
            },
        }
    } else {
        proof {
            assert(b@.subrange(pos as int, pos as int) =~= varint_field(key, 0));
            assert forall|n: nat|
                #![trigger varint_field(key, n)]
                n <= u64::MAX && pos + varint_field(key, n).len() <= b@.len() && b@.subrange(
                    pos as int,
                    pos + varint_field(key, n).len(),
                ) == varint_field(key, n) && not_led_by(
                    b@.subrange(pos + varint_field(key, n).len(), b@.len() as int),
                    key,
                ) implies n == 0 by {
                if n > 0 {
                    assert(b@.subrange(pos as int, pos + varint_field(key, n).len())[0] == key);
                }
            }
        }
        Some((0, pos))
    }
}

/// Reads the nested-message field `key` at `pos`, or nothing if another field comes first.
#[verifier::rlimit(40)]
fn take_message_field(b: &[u8], pos: usize, key: u8) -> (r: Option<(Option<Vec<u8>>, usize)>)
    requires
        pos <= b@.len(),
    ensures
        r matches Some((m, e)) ==> pos <= e <= b@.len() && b@.subrange(pos as int, e as int)
            == message_field(key, opt_view(m)),
        forall|m: Option<Seq<u8>>|
            #![trigger message_field(key, m)]
            pos + message_field(key, m).len() <= b@.len() && b@.subrange(
                pos as int,
                pos + message_field(key, m).len(),
            ) == message_field(key, m) && not_led_by(
                b@.subrange(pos + message_field(key, m).len(), b@.len() as int),
                key,
            ) ==> (r matches Some((w, e)) && opt_view(w) == m && e == pos + message_field(key, m).len()),
{
    if pos < b.len() && b[pos] == key {
        let inner = take_counted(b, pos + 1, false);
        proof {
            assert forall|m: Option<Seq<u8>>|
                #![trigger message_field(key, m)]
                pos + message_field(key, m).len() <= b@.len() && b@.subrange(
                    pos as int,
                    pos + message_field(key, m).len(),
                ) == message_field(key, m) && not_led_by(
                    b@.subrange(pos + message_field(key, m).len(), b@.len() as int),
                    key,
                ) implies m is Some && (inner matches Some((w, e)) && w@ == m->0 && e == pos + 1 + (
                varint(m->0.len()) + m->0).len()) by {
                if m is None {
                    assert(b@.subrange(pos as int, b@.len() as int)[0] == key);
                } else {
                    let v = m->0;
                    assert(message_field(key, m) =~= seq![key] + (varint(v.len()) + v));
                    assert(b@.subrange(pos + 1, pos + 1 + (varint(v.len()) + v).len())
                        =~= b@.subrange(pos as int, pos + message_field(key, m).len()).subrange(1, message_field(key, m).len() as int));
                    assert((varint(v.len()) + v) =~= message_field(key, m).subrange(1, message_field(key, m).len() as int));
                }
            }
        }
        match inner {
            None => None,
            Some((v, e)) => {
                assert(b@.subrange(pos as int, e as int) =~= seq![key] + b@.subrange(pos + 1, e as int));
                assert(message_field(key, Some(v@)) =~= seq![key] + (varint(v@.len()) + v@));
                Some((Some(v), e))
            },
        }
    } else {
        proof {
            assert(b@.subrange(pos as int, pos as int) =~= message_field(key, None));
            assert forall|m: Option<Seq<u8>>|
                #![trigger message_field(key, m)]
                pos + message_field(key, m).len() <= b@.len() && b@.subrange(
                    pos as int,
                    pos + message_field(key, m).len(),
                ) == message_field(key, m) && not_led_by(
                    b@.subrange(pos + message_field(key, m).len(), b@.len() as int),
                    key,
                ) implies m is None by {
                if m is Some {
                    assert(b@.subrange(pos as int, pos + message_field(key, m).len())[0] == key);
                }
            }
        }
        Some((None, pos))
    }
}

/// The view of an optional byte vector.
pub open spec fn opt_view(m: Option<Vec<u8>>) -> Option<Seq<u8>> {
    match m {
        None => None,
        Some(v) => Some(v@),
    }
}

/// Two length-delimited fields, numbers 1 and 2: the shape of an identity, a signed
/// payload and an encrypted frame.
pub open spec fn pair_bytes(a: Seq<u8>, c: Seq<u8>) -> Seq<u8> {
    bytes_field(0x0A, a) + bytes_field(0x12, c)
}

fn encode_pair(a: &[u8], c: &[u8]) -> (r: Vec<u8>)
    ensures
        r@ == pair_bytes(a@, c@),
{
    let mut out: Vec<u8> = Vec::new();
    put_bytes_field(&mut out, 0x0A, a);
    put_bytes_field(&mut out, 0x12, c);
    assert(out@ =~= pair_bytes(a@, c@));
    out
}

#[verifier::rlimit(40)]
fn decode_pair(b: &[u8]) -> (r: Option<(Vec<u8>, Vec<u8>)>)
    ensures
        r matches Some((a, c)) ==> pair_bytes(a@, c@) == b@,
        forall|a: Seq<u8>, c: Seq<u8>|
            #![trigger pair_bytes(a, c)]
            pair_bytes(a, c) == b@ ==> (r matches Some((x, y)) && x@ == a && y@ == c),
{
    let blen = b.len();
    proof {
        assert forall|a: Seq<u8>, c: Seq<u8>|
            #![trigger pair_bytes(a, c)]
            pair_bytes(a, c) == b@ implies b@.subrange(0, bytes_field(0x0A, a).len() as int)
            == bytes_field(0x0A, a) && not_led_by(
            b@.subrange(bytes_field(0x0A, a).len() as int, b@.len() as int),
            0x0A,
        ) && b@.subrange(
            bytes_field(0x0A, a).len() as int,
            (bytes_field(0x0A, a).len() + bytes_field(0x12, c).len()) as int,
        ) == bytes_field(0x12, c) && not_led_by(
            b@.subrange((bytes_field(0x0A, a).len() + bytes_field(0x12, c).len()) as int, b@.len() as int),
            0x12,
        ) && bytes_field(0x0A, a).len() + bytes_field(0x12, c).len() == b@.len() by {
            assert(b@.subrange(0, b@.len() as int) =~= b@);
            lemma_fields_lead(0x12, c, 0, None);
            lemma_not_led_by_concat(bytes_field(0x12, c), 0x12, Seq::empty(), 0x0A);
            assert(bytes_field(0x12, c) + Seq::<u8>::empty() =~= bytes_field(0x12, c));
            lemma_split_at(b@, 0, bytes_field(0x0A, a), bytes_field(0x12, c));
            lemma_split_at(
                b@,
                bytes_field(0x0A, a).len() as int,
                bytes_field(0x12, c),
                Seq::empty(),
            );
            assert(bytes_field(0x12, c) + Seq::<u8>::empty() =~= bytes_field(0x12, c));
        }
    }
    let (a, end1) = match take_bytes_field(b, 0, 0x0A) {
        Some(x) => x,
        None => {
            return None;
        },
    };
    let (c, end2) = match take_bytes_field(b, end1, 0x12) {
        Some(x) => x,
        None => {
            return None;
        },
    };
    if end2 != blen {
        return None;
    }
    proof {
        assert(b@ =~= b@.subrange(0, end1 as int) + b@.subrange(end1 as int, end2 as int));
    }
    Some((a, c))
}

fn utf8_bytes(s: &String) -> (r: &[u8])
    ensures
        r@ == encode_utf8(s@),
{
    s.as_str().as_bytes()
}

fn string_of_bytes(v: Vec<u8>) -> (r: Option<String>)
    ensures
        r matches Some(s) ==> encode_utf8(s@) == v@,
        forall|c: Seq<char>| #[trigger] encode_utf8(c) == v@ ==> (r matches Some(s) && s@ == c),
{
    proof {
        broadcast use encode_utf8_valid_utf8, encode_utf8_decode_utf8;
    }
    let r = match utf8_decode(v) {
        Ok(s) => Some(s),
        Err(_) => None,
    };
    proof {
        if r is Some {
            decode_utf8_encode_utf8(v@);
        }
    }
    r
}

/// A signer's identity: its id string and its Ed25519 public key.
#[derive(Clone, Debug, PartialEq, Eq)]
pub struct Identity {
    pub id: String,
    pub public_key: Vec<u8>,
}

/// The contents of an [`Identity`].
pub struct IdentityView {
    pub id: Seq<char>,
    pub public_key: Seq<u8>,
}

impl View for Identity {
    type V = IdentityView;

    open spec fn view(&self) -> IdentityView {
        IdentityView { id: self.id@, public_key: self.public_key@ }
    }
}

/// The wire form of an identity.
pub open spec fn identity_wire(v: IdentityView) -> Seq<u8> {
    pair_bytes(encode_utf8(v.id), v.public_key)
}

impl Identity {
    pub fn encode(&self) -> (r: Vec<u8>)
        ensures
            r@ == identity_wire(self@),
    {
        encode_pair(utf8_bytes(&self.id), self.public_key.as_slice())
    }

    /// Decodes an identity; a decoded identity re-encodes to exactly `b`.
    #[verifier::rlimit(40)]
    pub fn decode(b: &[u8]) -> (r: Result<Identity, TunnelError>)
        ensures
            r matches Ok(m) ==> identity_wire(m@) == b@,
            r matches Err(e) ==> e == TunnelError::DecodeError,
            forall|v: IdentityView| #[trigger] identity_wire(v) == b@ ==> (r matches Ok(m) && m@ == v),
    {
        let (idb, pk) = match decode_pair(b) {
            Some(x) => x,
            None => {
                return Err(TunnelError::DecodeError);
            },
        };
        match string_of_bytes(idb) {
            Some(id) => Ok(Identity { id, public_key: pk }),
            None => Err(TunnelError::DecodeError),
        }
    }
}

/// A payload and an Ed25519 signature over it.
#[derive(Clone, Debug, PartialEq, Eq)]
pub struct SignedPayload {
    pub data: Vec<u8>,
    pub signature: Vec<u8>,
}

impl SignedPayload {
    pub open spec fn wire(&self) -> Seq<u8> {
        pair_bytes(self.data@, self.signature@)
    }

    pub fn encode(&self) -> (r: Vec<u8>)
        ensures
            r@ == self.wire(),
    {
        encode_pair(self.data.as_slice(), self.signature.as_slice())
    }

    /// Decodes a signed payload; a decoded one re-encodes to exactly `b`.
    pub fn decode(b: &[u8]) -> (r: Result<SignedPayload, TunnelError>)
        ensures
            r matches Ok(m) ==> m.wire() == b@,
            r matches Err(e) ==> e == TunnelError::DecodeError,
            forall|d: Seq<u8>, s: Seq<u8>| #[trigger] pair_bytes(d, s) == b@ ==> (r matches Ok(m) && m.data@ == d && m.signature@ == s),
    {
        match decode_pair(b) {
            Some((data, signature)) => Ok(SignedPayload { data, signature }),
            None => Err(TunnelError::DecodeError),
        }
    }
}

/// One sealed message: the nonce it was sealed under and the ciphertext with its tag.
#[derive(Clone, Debug, PartialEq, Eq)]
pub struct EncryptedData {
    pub nonce: Vec<u8>,
    pub payload: Vec<u8>,
}

impl EncryptedData {
    pub open spec fn wire(&self) -> Seq<u8> {
        pair_bytes(self.nonce@, self.payload@)
    }

    pub fn encode(&self) -> (r: Vec<u8>)
        ensures
            r@ == self.wire(),
    {
        encode_pair(self.nonce.as_slice(), self.payload.as_slice())
    }

    /// Decodes an encrypted frame; a decoded one re-encodes to exactly `b`.
    pub fn decode(b: &[u8]) -> (r: Result<EncryptedData, TunnelError>)
        ensures
            r matches Ok(m) ==> m.wire() == b@,
            r matches Err(e) ==> e == TunnelError::DecodeError,
            forall|n: Seq<u8>, p: Seq<u8>| #[trigger] pair_bytes(n, p) == b@ ==> (r matches Ok(m) && m.nonce@ == n && m.payload@ == p),
    {
        match decode_pair(b) {
            Some((nonce, payload)) => Ok(EncryptedData { nonce, payload }),
            None => Err(TunnelError::DecodeError),
        }
    }
}

/// The handshake's opening message, sent by each side (same shape both ways).
#[derive(Clone, Debug, PartialEq, Eq)]
pub struct InitPayload {
    pub version: u32,
    pub nonce: Vec<u8>,
    pub timestamp: i64,
    pub identity: Option<Identity>,
    pub alpn: String,
    pub session_public_key: Vec<u8>,
}

/// The contents of an [`InitPayload`].
pub struct InitView {
    pub version: u32,
    pub nonce: Seq<u8>,
    pub timestamp: i64,
    pub identity: Option<IdentityView>,
    pub alpn: Seq<char>,
    pub session_public_key: Seq<u8>,
}

impl View for InitPayload {
    type V = InitView;

    open spec fn view(&self) -> InitView {
        InitView {
            version: self.version,
            nonce: self.nonce@,
            timestamp: self.timestamp,
            identity: match self.identity {
                None => None,
                Some(i) => Some(i@),
            },
            alpn: self.alpn@,
            session_public_key: self.session_public_key@,
        }
    }
}

/// A signed 64-bit value as the varint carries it: its two's-complement bits.
pub open spec fn timestamp_wire(t: i64) -> nat {
    if t >= 0 {
        t as nat
    } else {
        (t + 0x1_0000_0000_0000_0000) as nat
    }
}

fn timestamp_to_wire(t: i64) -> (r: u64)
    ensures
        r as nat == timestamp_wire(t),
{
    if t >= 0 {
        t as u64
    } else {
        0xFFFF_FFFF_FFFF_FFFF - ((-(t + 1)) as u64)
    }
}

fn timestamp_from_wire(n: u64) -> (r: i64)
    ensures
        timestamp_wire(r) == n as nat,
{
    if n <= 0x7FFF_FFFF_FFFF_FFFF {
        n as i64
    } else {
        -((0xFFFF_FFFF_FFFF_FFFF - n) as i64) - 1
    }
}

/// The wire form of an identity that may be absent.
pub open spec fn opt_identity_wire(i: Option<IdentityView>) -> Option<Seq<u8>> {
    match i {
        None => None,
        Some(v) => Some(identity_wire(v)),
    }
}

/// The six fields of an init message, numbers 1 to 6, from a given field on.
pub open spec fn init_fields_from(v: InitView, k: nat) -> Seq<u8>
    decreases 6 - k,
{
    if k >= 6 {
        Seq::empty()
    } else {
        init_field(v, k) + init_fields_from(v, k + 1)
    }
}

/// The key byte of the `k`-th field (counting from zero) of an init message.
pub open spec fn init_key(k: nat) -> u8 {
    (((k + 1) * 8) + if k == 0 || k == 2 { 0nat } else { 2nat }) as u8
}

/// The `k`-th field (counting from zero) of an init message.
pub open spec fn init_field(v: InitView, k: nat) -> Seq<u8> {
    if k == 0 {
        varint_field(init_key(0), v.version as nat)
    } else if k == 1 {
        bytes_field(init_key(1), v.nonce)
    } else if k == 2 {
        varint_field(init_key(2), timestamp_wire(v.timestamp))
    } else if k == 3 {
        message_field(init_key(3), opt_identity_wire(v.identity))
    } else if k == 4 {
        bytes_field(init_key(4), encode_utf8(v.alpn))
    } else {
        bytes_field(init_key(5), v.session_public_key)
    }
}

/// The wire form of an init message.
pub open spec fn init_wire(v: InitView) -> Seq<u8> {
    init_fields_from(v, 0)
}

proof fn lemma_init_rest(v: InitView, k: nat, j: nat)
    requires
        j < k <= 6,
    ensures
        not_led_by(init_fields_from(v, k), init_key(j)),
    decreases 6 - k,
{
    if k < 6 {
        lemma_init_rest(v, k + 1, j);
        let o = match v.identity {
            None => None,
            Some(i) => Some(identity_wire(i)),
        };
        lemma_fields_lead(init_key(k), v.nonce, v.version as nat, o);
        lemma_fields_lead(init_key(k), v.session_public_key, timestamp_wire(v.timestamp), o);
        lemma_fields_lead(init_key(k), encode_utf8(v.alpn), 0, o);
        assert(led_by_or_empty(init_field(v, k), init_key(k)));
        lemma_not_led_by_concat(init_field(v, k), init_key(k), init_fields_from(v, k + 1), init_key(j));
    }
}

/// Where the `k`-th field of an init message sits in its wire form.
proof fn lemma_init_layout(v: InitView, b: Seq<u8>, p: int, k: nat)
    requires
        k < 6,
        b == init_wire(v),
        0 <= p <= b.len(),
        b.subrange(p, b.len() as int) == init_fields_from(v, k),
    ensures
        p + init_field(v, k).len() <= b.len(),
        b.subrange(p, p + init_field(v, k).len()) == init_field(v, k),
        b.subrange(p + init_field(v, k).len(), b.len() as int) == init_fields_from(v, k + 1),
        not_led_by(b.subrange(p + init_field(v, k).len(), b.len() as int), init_key(k)),
{
    lemma_split_at(b, p, init_field(v, k), init_fields_from(v, k + 1));
    lemma_init_rest(v, k + 1, k);
}

/// An init message's wire form is its six fields one after the other.
pub proof fn lemma_init_wire_fields(v: InitView)
    ensures
        init_wire(v) == init_field(v, 0) + init_field(v, 1) + init_field(v, 2) + init_field(v, 3)
            + init_field(v, 4) + init_field(v, 5),
{
    assert(init_fields_from(v, 6) == Seq::<u8>::empty());
    assert(init_fields_from(v, 5) == init_field(v, 5) + init_fields_from(v, 6));
    assert(init_fields_from(v, 4) == init_field(v, 4) + init_fields_from(v, 5));
    assert(init_fields_from(v, 3) == init_field(v, 3) + init_fields_from(v, 4));
    assert(init_fields_from(v, 2) == init_field(v, 2) + init_fields_from(v, 3));
    assert(init_fields_from(v, 1) == init_field(v, 1) + init_fields_from(v, 2));
    assert(init_fields_from(v, 0) == init_field(v, 0) + init_fields_from(v, 1));
    assert(init_wire(v) =~= init_field(v, 0) + init_field(v, 1) + init_field(v, 2) + init_field(v, 3)
        + init_field(v, 4) + init_field(v, 5));
}

impl InitPayload {
    pub fn encode(&self) -> (r: Vec<u8>)
        ensures
            r@ == init_wire(self@),
    {
        let ghost v = self@;
        let mut out: Vec<u8> = Vec::new();
        put_varint_field(&mut out, 0x08, self.version as u64);
        assert(out@ =~= init_field(v, 0));
        put_bytes_field(&mut out, 0x12, self.nonce.as_slice());
        assert(out@ == init_field(v, 0) + init_field(v, 1));
        put_varint_field(&mut out, 0x18, timestamp_to_wire(self.timestamp));
        assert(out@ == init_field(v, 0) + init_field(v, 1) + init_field(v, 2));
        match &self.identity {
            None => {},
            Some(i) => {
                let enc = i.encode();
                put_message_field(&mut out, 0x22, enc.as_slice());
            },
        }
        assert(out@ == init_field(v, 0) + init_field(v, 1) + init_field(v, 2) + init_field(v, 3));
        put_bytes_field(&mut out, 0x2A, utf8_bytes(&self.alpn));
        put_bytes_field(&mut out, 0x32, self.session_public_key.as_slice());
        proof {
            lemma_init_wire_fields(self@);
        }
        out
    }
}

/// Where the `k`-th field of an init message begins in its wire form.
pub open spec fn init_offset(v: InitView, k: nat) -> nat
    decreases k,
{
    if k == 0 {
        0
    } else {
        init_offset(v, (k - 1) as nat) + init_field(v, (k - 1) as nat).len()
    }
}

proof fn lemma_init_at(v: InitView, b: Seq<u8>, k: nat)
    requires
        b == init_wire(v),
        k <= 6,
    ensures
        init_offset(v, k) <= b.len(),
        b.subrange(init_offset(v, k) as int, b.len() as int) == init_fields_from(v, k),
        k < 6 ==> init_offset(v, k + 1) <= b.len(),
        k < 6 ==> b.subrange(init_offset(v, k) as int, init_offset(v, k + 1) as int) == init_field(v, k),
        k < 6 ==> not_led_by(b.subrange(init_offset(v, k + 1) as int, b.len() as int), init_key(k)),
        k == 6 ==> init_offset(v, k) == b.len(),
    decreases k,
{
    if k == 0 {
        assert(b.subrange(0, b.len() as int) =~= b);
    } else {
        lemma_init_at(v, b, (k - 1) as nat);
        lemma_init_layout(v, b, init_offset(v, (k - 1) as nat) as int, (k - 1) as nat);
    }
    if k < 6 {
        lemma_init_layout(v, b, init_offset(v, k) as int, k);
    } else {
        assert(init_fields_from(v, 6).len() == 0);
    }
}

proof fn lemma_init_parts(v: InitView, b: Seq<u8>, end1: int, end2: int, end3: int, end4: int, end5: int)
    requires
        0 <= end1 <= end2 <= end3 <= end4 <= end5 <= b.len(),
        b.subrange(0, end1) == init_field(v, 0),
        b.subrange(end1, end2) == init_field(v, 1),
        b.subrange(end2, end3) == init_field(v, 2),
        b.subrange(end3, end4) == init_field(v, 3),
        b.subrange(end4, end5) == init_field(v, 4),
        b.subrange(end5, b.len() as int) == init_field(v, 5),
    ensures
        b == init_wire(v),
{
    lemma_init_wire_fields(v);
    assert(b =~= b.subrange(0, end1) + b.subrange(end1, end2) + b.subrange(end2, end3) + b.subrange(end3, end4)
        + b.subrange(end4, end5) + b.subrange(end5, b.len() as int));
    assert(b =~= init_wire(v));
}

impl InitPayload {
    /// Decodes an init message; a decoded one re-encodes to exactly `b`.
    #[verifier::rlimit(50)]
    pub fn decode(b: &[u8]) -> (r: Result<InitPayload, TunnelError>)
        ensures
            r matches Ok(m) ==> init_wire(m@) == b@,
            r matches Err(e) ==> e == TunnelError::DecodeError,
            forall|v: InitView| #[trigger] init_wire(v) == b@ ==> (r matches Ok(m) && m@ == v),
    {
        let blen = b.len();
        let r1 = take_varint_field(b, 0, 0x08);
        proof {
            assert forall|v: InitView| #[trigger] init_wire(v) == b@ implies (r1 matches Some((n, e))
                && n == v.version && e == init_offset(v, 1)) by {
                lemma_init_at(v, b@, 0);
            }
        }
        let (version, end1) = match r1 {
            Some(x) => x,
            None => {
                return Err(TunnelError::DecodeError);
            },
        };
        if version > 0xFFFF_FFFF {
            return Err(TunnelError::DecodeError);
        }
        let r2 = take_bytes_field(b, end1, 0x12);
        proof {
            assert forall|v: InitView| #[trigger] init_wire(v) == b@ implies (r2 matches Some((w, e))
                && w@ == v.nonce && e == init_offset(v, 2)) by {
                lemma_init_at(v, b@, 1);
            }
        }
        let (nonce, end2) = match r2 {
            Some(x) => x,
            None => {
                return Err(TunnelError::DecodeError);
            },
        };
        let r3 = take_varint_field(b, end2, 0x18);
        proof {
            assert forall|v: InitView| #[trigger] init_wire(v) == b@ implies (r3 matches Some((n, e))
                && n as nat == timestamp_wire(v.timestamp) && e == init_offset(v, 3)) by {
                lemma_init_at(v, b@, 2);
                assert(init_key(2) == 0x18);
                assert(timestamp_wire(v.timestamp) <= u64::MAX);
                assert(init_field(v, 2) == varint_field(0x18, timestamp_wire(v.timestamp)));
            }
        }
        let (ts, end3) = match r3 {
            Some(x) => x,
            None => {
                return Err(TunnelError::DecodeError);
            },
        };
        let r4 = take_message_field(b, end3, 0x22);
        proof {
            assert forall|v: InitView| #[trigger] init_wire(v) == b@ implies (r4 matches Some((w, e))
                && opt_view(w) == opt_identity_wire(v.identity) && e == init_offset(v, 4)) by {
                lemma_init_at(v, b@, 3);
            }
        }
        let (ident, end4) = match r4 {
            Some(x) => x,
            None => {
                return Err(TunnelError::DecodeError);
            },
        };
        let identity = match ident {
            None => None,
            Some(ib) => {
                match Identity::decode(ib.as_slice()) {
                    Ok(i) => Some(i),
                    Err(e) => {
                        return Err(e);
                    },
                }
            },
        };
        let r5 = take_bytes_field(b, end4, 0x2A);
        proof {
            assert forall|v: InitView| #[trigger] init_wire(v) == b@ implies (r5 matches Some((w, e))
                && w@ == encode_utf8(v.alpn) && e == init_offset(v, 5)) by {
                lemma_init_at(v, b@, 4);
                assert(init_key(4) == 0x2A);
                assert(init_field(v, 4) == bytes_field(0x2A, encode_utf8(v.alpn)));
            }
        }
        let (alpn_bytes, end5) = match r5 {
            Some(x) => x,
            None => {
                return Err(TunnelError::DecodeError);
            },
        };
        let alpn = match string_of_bytes(alpn_bytes) {
            Some(a) => a,
            None => {
                return Err(TunnelError::DecodeError);
            },
        };
        let r6 = take_bytes_field(b, end5, 0x32);
        proof {
            assert forall|v: InitView| #[trigger] init_wire(v) == b@ implies (r6 matches Some((w, e))
                && w@ == v.session_public_key && e == init_offset(v, 6) && e == b@.len()) by {
                lemma_init_at(v, b@, 5);
                lemma_init_at(v, b@, 6);
            }
        }
        let (session_public_key, end6) = match r6 {
            Some(x) => x,
            None => {
                return Err(TunnelError::DecodeError);
            },
        };
        if end6 != blen {
            return Err(TunnelError::DecodeError);
        }
        let m = InitPayload {
            version: version as u32,
            nonce,
            timestamp: timestamp_from_wire(ts),
            identity,
            alpn,
            session_public_key,
        };
        proof {
            lemma_init_parts(m@, b@, end1 as int, end2 as int, end3 as int, end4 as int, end5 as int);
        }
        Ok(m)
    }
}

// ----- length bounds -----

/// 128 raised to the power `n`.
pub open spec fn pow128(n: nat) -> nat
    decreases n,
{
    if n == 0 {
        1
    } else {
        128 * pow128((n - 1) as nat)
    }
}

proof fn lemma_varint_len_pow(n: nat, j: nat)
    requires
        n < pow128(j),
        j >= 1,
    ensures
        varint(n).len() <= j,
    decreases j,
{
    if n >= 128 {
        let p = pow128((j - 1) as nat);
        assert(pow128(j) == 128 * p);
        lemma_fundamental_div_mod(n as int, 128);
        assert((n / 128) < p) by (nonlinear_arith)
            requires
                n < 128 * p,
                n == 128 * (n / 128) + n % 128,
                n % 128 >= 0,
        ;
        if j == 1 {
            assert(pow128(0) == 1);
            assert(false);
        }
        lemma_varint_len_pow(n / 128, (j - 1) as nat);
    }
}

/// A 64-bit value takes at most ten varint bytes.
pub proof fn lemma_varint_len_le_10(n: nat)
    requires
        n <= u64::MAX,
    ensures
        varint(n).len() <= 10,
{
    reveal_with_fuel(pow128, 11);
    assert(pow128(10) == 1180591620717411303424nat);
    lemma_varint_len_pow(n, 10);
}

/// Bounds on the length of each kind of field.
pub proof fn lemma_field_lens(key: u8, v: Seq<u8>, n: nat)
    requires
        v.len() <= u64::MAX,
        n <= u64::MAX,
    ensures
        bytes_field(key, v).len() <= v.len() + 11,
        varint_field(key, n).len() <= 11,
        message_field(key, Some(v)).len() <= v.len() + 11,
{
    lemma_varint_len_le_10(v.len());
    lemma_varint_len_le_10(n);
}

/// UTF-8 takes at most four bytes per character.
pub proof fn lemma_utf8_len(c: Seq<char>)
    ensures
        encode_utf8(c).len() <= 4 * c.len(),
    decreases c.len(),
{
    if c.len() > 0 {
        lemma_utf8_len(c.drop_first());
    }
}

} // verus!
