//! Length-prefixed framing: a 4-byte big-endian length, then that many bytes.
use crate::error::TunnelError;
use crate::nonce::be_value;
use vstd::arithmetic::div_mod::lemma_fundamental_div_mod;
use vstd::prelude::*;

verus! {

/// The largest frame payload, 2^26 bytes (64 MiB).
pub const MAX_FRAME_LEN: usize = 0x400_0000;

/// `f` is the frame that carries `data`: its length, big-endian in four bytes, then `data`.
pub open spec fn is_frame_of(f: Seq<u8>, data: Seq<u8>) -> bool {
    &&& f.len() == data.len() + 4
    &&& be_value(f.subrange(0, 4)) == data.len()
    &&& f.subrange(4, f.len() as int) == data
}

/// The length field that a frame's first four bytes announce.
pub open spec fn announced_len(buf: Seq<u8>) -> nat {
    be_value(buf.subrange(0, 4))
}

/// Four bytes read big-endian, spelled out.
pub proof fn lemma_be_value_four(s: Seq<u8>)
    requires
        s.len() == 4,
    ensures
        be_value(s) == ((s[0] as nat * 256 + s[1] as nat) * 256 + s[2] as nat) * 256 + s[3] as nat,
{
    let s3 = s.drop_last();
    let s2 = s3.drop_last();
    let s1 = s2.drop_last();
    let s0 = s1.drop_last();
    assert(s0.len() == 0);
    assert(be_value(s0) == 0);
    assert(s1.last() == s[0]);
    assert(s2.last() == s[1]);
    assert(s3.last() == s[2]);
    assert(be_value(s1) == s[0] as nat);
    assert(be_value(s2) == s[0] as nat * 256 + s[1] as nat);
    assert(be_value(s3) == (s[0] as nat * 256 + s[1] as nat) * 256 + s[2] as nat);
}

/// Builds the frame for `data`; a payload over the limit is refused.
pub fn encode_frame(data: &[u8]) -> (r: Result<Vec<u8>, TunnelError>)
    ensures
        data@.len() <= MAX_FRAME_LEN ==> (r matches Ok(f) && is_frame_of(f@, data@)),
        data@.len() > MAX_FRAME_LEN ==> r == Err::<Vec<u8>, TunnelError>(TunnelError::FrameTooLarge),
{
    let n = data.len();
    if n > MAX_FRAME_LEN {
        return Err(TunnelError::FrameTooLarge);
    }
    let q1 = n / 256;
    let q2 = q1 / 256;
    let q3 = q2 / 256;
    let mut out: Vec<u8> = Vec::with_capacity(n + 4);
    out.push(q3 as u8);
    out.push((q2 % 256) as u8);
    out.push((q1 % 256) as u8);
    out.push((n % 256) as u8);
    proof {
        lemma_be_value_four(out@);
        assert(out@.subrange(0, 4) =~= out@);
        lemma_fundamental_div_mod(n as int, 256);
        lemma_fundamental_div_mod(q1 as int, 256);
        lemma_fundamental_div_mod(q2 as int, 256);
        assert(q3 < 256);
        assert(be_value(out@) == n);
    }
    let ghost header = out@;
    out.extend_from_slice(data);
    proof {
        assert(out@.subrange(0, 4) =~= header);
        assert(out@.subrange(4, out@.len() as int) =~= data@);
    }
    Ok(out)
}

/// Reads the length field of a frame header; a length over the limit is refused.
pub fn frame_length(header: &[u8]) -> (r: Result<usize, TunnelError>)
    requires
        header@.len() == 4,
    ensures
        be_value(header@) <= MAX_FRAME_LEN ==> r == Ok::<usize, TunnelError>(be_value(header@) as usize),
        be_value(header@) > MAX_FRAME_LEN ==> r == Err::<usize, TunnelError>(TunnelError::FrameTooLarge),
{
    proof {
        lemma_be_value_four(header@);
    }
    let len: u64 = ((header[0] as u64 * 256 + header[1] as u64) * 256 + header[2] as u64) * 256
        + header[3] as u64;
    if len > MAX_FRAME_LEN as u64 {
        Err(TunnelError::FrameTooLarge)
    } else {
        Ok(len as usize)
    }
}

/// Takes one frame off the front of `buf`: its payload and the number of bytes it spans.
/// The length is checked against the limit before the payload is looked at.
pub fn decode_frame(buf: &[u8]) -> (r: Result<(Vec<u8>, usize), TunnelError>)
    ensures
        buf@.len() < 4 ==> r == Err::<(Vec<u8>, usize), TunnelError>(TunnelError::UnexpectedEof),
        buf@.len() >= 4 && announced_len(buf@) > MAX_FRAME_LEN ==> r == Err::<(Vec<u8>, usize), TunnelError>(
            TunnelError::FrameTooLarge,
        ),
        buf@.len() >= 4 && announced_len(buf@) <= MAX_FRAME_LEN && buf@.len() < 4
            + announced_len(buf@) ==> r == Err::<(Vec<u8>, usize), TunnelError>(
            TunnelError::UnexpectedEof,
        ),
        buf@.len() >= 4 && announced_len(buf@) <= MAX_FRAME_LEN && buf@.len() >= 4
            + announced_len(buf@) ==> (r matches Ok((payload, used)) && used == 4 + announced_len(
            buf@,
        ) && payload@ == buf@.subrange(4, used as int)),
{
    if buf.len() < 4 {
        return Err(TunnelError::UnexpectedEof);
    }
    let header = slice_prefix(buf, 4);
    let len = match frame_length(header) {
        Ok(len) => len,
        Err(e) => {
            return Err(e);
        },
    };
    if buf.len() - 4 < len {
        return Err(TunnelError::UnexpectedEof);
    }
    let mut payload: Vec<u8> = Vec::with_capacity(len);
    let total = buf.len();
    let mut i: usize = 0;
    while i < len
        invariant
            i <= len,
            total == buf@.len(),
            4 + len <= buf@.len(),
            payload@ == buf@.subrange(4, 4 + i as int),
        decreases len - i,
    {
        payload.push(buf[4 + i]);
        i = i + 1;
        assert(payload@ =~= buf@.subrange(4, 4 + i as int));
    }
    Ok((payload, 4 + len))
}

fn slice_prefix(buf: &[u8], n: usize) -> (r: &[u8])
    requires
        n <= buf@.len(),
    ensures
        r@ == buf@.subrange(0, n as int),
{
    let (head, _) = buf.split_at(n);
    head
}

} // verus!
