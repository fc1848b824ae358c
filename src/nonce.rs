//! The 12-byte message counter: a big-endian integer whose last byte moves first.
use vstd::arithmetic::div_mod::{lemma_mod_self_0, lemma_small_mod};
use vstd::prelude::*;

verus! {

/// Length in bytes of an AEAD nonce.
pub const NONCE_SIZE: usize = 12;

/// 256 raised to the power `n`.
pub open spec fn pow256(n: nat) -> nat
    decreases n,
{
    if n == 0 {
        1
    } else {
        256 * pow256((n - 1) as nat)
    }
}

/// The bytes read as a big-endian unsigned integer (the last byte is least significant).
pub open spec fn be_value(s: Seq<u8>) -> nat
    decreases s.len(),
{
    if s.len() == 0 {
        0
    } else {
        be_value(s.drop_last()) * 256 + s.last() as nat
    }
}

/// The value of the counter that follows `s`: one more, wrapping to zero past the largest.
pub open spec fn successor_value(s: Seq<u8>) -> nat {
    (be_value(s) + 1) % pow256(s.len())
}

/// `s` is the largest counter of its length (every byte is 0xFF).
pub open spec fn is_last_counter(s: Seq<u8>) -> bool {
    be_value(s) + 1 == pow256(s.len())
}

pub proof fn lemma_pow256_positive(n: nat)
    ensures
        pow256(n) >= 1,
    decreases n,
{
    if n > 0 {
        lemma_pow256_positive((n - 1) as nat);
    }
}

/// A counter of `n` bytes is below 256^n.
pub proof fn lemma_be_value_bound(s: Seq<u8>)
    ensures
        be_value(s) < pow256(s.len()),
    decreases s.len(),
{
    if s.len() > 0 {
        lemma_be_value_bound(s.drop_last());
        let p = pow256((s.len() - 1) as nat);
        let v = be_value(s.drop_last());
        assert(v * 256 + (s.last() as nat) < p * 256) by (nonlinear_arith)
            requires
                v < p,
                s.last() < 256,
        ;
    }
}

/// Reading two byte strings one after the other.
pub proof fn lemma_be_value_concat(a: Seq<u8>, b: Seq<u8>)
    ensures
        be_value(a + b) == be_value(a) * pow256(b.len()) + be_value(b),
    decreases b.len(),
{
    if b.len() == 0 {
        assert(a + b =~= a);
        assert(pow256(0) == 1);
        assert(be_value(a) * 1 == be_value(a));
    } else {
        assert((a + b).drop_last() =~= a + b.drop_last());
        assert((a + b).last() == b.last());
        lemma_be_value_concat(a, b.drop_last());
        let x = be_value(a);
        let p = pow256((b.len() - 1) as nat);
        let y = be_value(b.drop_last());
        let l = b.last() as nat;
        assert(be_value(a + b) == be_value(a + b.drop_last()) * 256 + l);
        assert(be_value(b) == y * 256 + l);
        assert(pow256(b.len()) == 256 * p);
        assert((x * p + y) * 256 + l == x * (256 * p) + (y * 256 + l)) by (nonlinear_arith);
    }
}

/// Zero bytes have value zero.
pub proof fn lemma_be_value_zeros(n: nat)
    ensures
        be_value(Seq::new(n, |k: int| 0u8)) == 0,
    decreases n,
{
    if n > 0 {
        assert(Seq::new(n, |k: int| 0u8).drop_last() =~= Seq::new((n - 1) as nat, |k: int| 0u8));
        lemma_be_value_zeros((n - 1) as nat);
    }
}

/// All-ones bytes are the largest value, and only they are.
pub proof fn lemma_be_value_all_ones(s: Seq<u8>)
    ensures
        is_last_counter(s) <==> (forall|k: int| 0 <= k < s.len() ==> s[k] == 255),
    decreases s.len(),
{
    if s.len() > 0 {
        let init = s.drop_last();
        lemma_be_value_all_ones(init);
        lemma_be_value_bound(init);
        let p = pow256(init.len());
        let v = be_value(init);
        let l = s.last() as nat;
        if forall|k: int| 0 <= k < s.len() ==> s[k] == 255 {
            assert forall|k: int| 0 <= k < init.len() implies init[k] == 255 by {
                assert(init[k] == s[k]);
            }
            assert(s[s.len() - 1] == 255);
        } else {
            let k = choose|k: int| 0 <= k < s.len() && s[k] != 255;
            if k == s.len() - 1 {
                assert(v * 256 + l + 1 < p * 256) by (nonlinear_arith)
                    requires
                        v < p,
                        l < 255,
                ;
            } else {
                assert(init[k] == s[k]);
                assert(v * 256 + l + 1 < p * 256) by (nonlinear_arith)
                    requires
                        v + 1 < p,
                        l <= 255,
                ;
            }
        }
    }
}

/// Two counters of one length with one value are the same bytes.
pub proof fn lemma_be_value_injective(a: Seq<u8>, b: Seq<u8>)
    requires
        a.len() == b.len(),
        be_value(a) == be_value(b),
    ensures
        a == b,
    decreases a.len(),
{
    if a.len() > 0 {
        let x = be_value(a.drop_last());
        let y = be_value(b.drop_last());
        let la = a.last() as int;
        let lb = b.last() as int;
        assert(x == y && la == lb) by (nonlinear_arith)
            requires
                x * 256 + la == y * 256 + lb,
                0 <= la < 256,
                0 <= lb < 256,
                x >= 0,
                y >= 0,
        ;
        lemma_be_value_injective(a.drop_last(), b.drop_last());
        assert(a =~= a.drop_last().push(a.last()));
        assert(b =~= b.drop_last().push(b.last()));
    } else {
        assert(a =~= b);
    }
}

/// Advances a counter by one, carrying from the last byte toward the first;
/// the largest counter wraps to all zeros.
pub fn increment_nonce(nonce: &mut [u8])
    ensures
        final(nonce)@.len() == old(nonce)@.len(),
        be_value(final(nonce)@) == successor_value(old(nonce)@),
{
    let ghost orig = nonce@;
    let n = nonce.len();
    let mut i: usize = n;
    while i > 0
        invariant
            i <= n,
            n == orig.len(),
            orig == old(nonce)@,
            nonce@ == orig.subrange(0, i as int) + Seq::new((n - i) as nat, |k: int| 0u8),
            forall|k: int| i <= k < n ==> orig[k] == 255,
        decreases i,
    {
        i = i - 1;
        let byte = nonce[i];
        if byte < 255 {
            nonce[i] = byte + 1;
            proof {
                let head = orig.subrange(0, i as int);
                let ones = orig.subrange(i + 1, n as int);
                let zeros = Seq::new((n - i - 1) as nat, |k: int| 0u8);
                let m = (n - i - 1) as nat;
                assert(nonce@ =~= head + (seq![(byte + 1) as u8] + zeros));
                assert(orig =~= head + (seq![byte] + ones));
                assert forall|k: int| 0 <= k < ones.len() implies ones[k] == 255 by {
                    assert(ones[k] == orig[i + 1 + k]);
                }
                lemma_be_value_all_ones(ones);
                lemma_be_value_zeros(m);
                lemma_be_value_concat(head, seq![(byte + 1) as u8] + zeros);
                lemma_be_value_concat(head, seq![byte] + ones);
                lemma_be_value_concat(seq![(byte + 1) as u8], zeros);
                lemma_be_value_concat(seq![byte], ones);
                assert(seq![byte].drop_last() =~= Seq::<u8>::empty());
                assert(seq![(byte + 1) as u8].drop_last() =~= Seq::<u8>::empty());
                let pm = pow256(m);
                let h = be_value(head);
                assert(be_value(Seq::<u8>::empty()) == 0);
                assert(seq![byte][0] == byte);
                assert(seq![(byte + 1) as u8][0] == byte + 1);
                assert(be_value(seq![byte]) == byte);
                assert(be_value(seq![(byte + 1) as u8]) == byte + 1);
                assert(pow256(m + 1) == 256 * pm);
                assert((n - i) as nat == m + 1);
                lemma_pow256_positive(m);
                assert(be_value(nonce@) == be_value(orig) + 1) by (nonlinear_arith)
                    requires
                        be_value(nonce@) == h * (256 * pm) + (byte + 1) * pm,
                        be_value(orig) == h * (256 * pm) + (byte * pm + (pm - 1)),
                        pm >= 1,
                {
                }
                lemma_be_value_bound(nonce@);
                lemma_small_mod((be_value(orig) + 1) as nat, pow256(n as nat));
            }
            assert(nonce@.len() == orig.len());
            return;
        }
        nonce[i] = 0;
        assert(nonce@ =~= orig.subrange(0, i as int) + Seq::new((n - i) as nat, |k: int| 0u8));
    }
    proof {
        assert(nonce@ =~= Seq::new(n as nat, |k: int| 0u8));
        lemma_be_value_zeros(n as nat);
        lemma_be_value_all_ones(orig);
        lemma_pow256_positive(n as nat);
        lemma_mod_self_0(pow256(n as nat) as int);
    }
}

} // verus!
