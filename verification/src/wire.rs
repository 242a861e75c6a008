//! The byte layouts of the stored header and of the encrypted envelope:
//! fixed-width little-endian integers, and runs of bytes behind their length.

use vstd::prelude::*;

verus! {

/// The `n` low bytes of `v`, least significant first.
pub open spec fn le_bytes(v: nat, n: nat) -> Seq<u8>
    decreases n,
{
    if n == 0 {
        Seq::empty()
    } else {
        seq![(v % 256) as u8] + le_bytes(v / 256, (n - 1) as nat)
    }
}

/// 256 to the power `n`.
pub open spec fn pow256(n: nat) -> nat
    decreases n,
{
    if n == 0 {
        1
    } else {
        256 * pow256((n - 1) as nat)
    }
}

/// A 64-bit signed integer as the unsigned number with the same bits.
pub open spec fn twos_complement(v: i64) -> nat {
    if v >= 0 {
        v as nat
    } else {
        (v + 0x1_0000_0000_0000_0000) as nat
    }
}

/// A run of bytes behind its length, the length in eight bytes.
pub open spec fn framed(d: Seq<u8>) -> Seq<u8> {
    le_bytes(d.len(), 8) + d
}

/// A number in `n` bytes takes `n` bytes.
pub proof fn lemma_le_bytes_len(v: nat, n: nat)
    ensures
        le_bytes(v, n).len() == n,
    decreases n,
{
    if n > 0 {
        lemma_le_bytes_len(v / 256, (n - 1) as nat);
    }
}

/// Numbers that fit in `n` bytes and have the same `n` bytes are the same.
pub proof fn lemma_le_bytes_injective(a: nat, b: nat, n: nat)
    requires
        a < pow256(n),
        b < pow256(n),
        le_bytes(a, n) == le_bytes(b, n),
    ensures
        a == b,
    decreases n,
{
    if n > 0 {
        let m = (n - 1) as nat;
        let ta = le_bytes(a / 256, m);
        let tb = le_bytes(b / 256, m);
        assert(le_bytes(a, n)[0] == (a % 256) as u8);
        assert(le_bytes(b, n)[0] == (b % 256) as u8);
        assert(ta =~= le_bytes(a, n).skip(1));
        assert(tb =~= le_bytes(b, n).skip(1));
        lemma_le_bytes_injective(a / 256, b / 256, m);
    }
}

/// Eight bytes hold the numbers below 2 to the power 64, two bytes those
/// below 2 to the power 16.
pub proof fn lemma_pow256_8()
    ensures
        pow256(8) == 0x1_0000_0000_0000_0000,
        pow256(2) == 0x1_0000,
{
    reveal_with_fuel(pow256, 9);
}

/// Two framed runs that begin the same text are the same run.
pub proof fn lemma_framed_unique(a: Seq<u8>, b: Seq<u8>, data: Seq<u8>)
    requires
        framed(a).is_prefix_of(data),
        framed(b).is_prefix_of(data),
        a.len() <= u64::MAX,
        b.len() <= u64::MAX,
    ensures
        a == b,
{
    lemma_le_bytes_len(a.len(), 8);
    lemma_le_bytes_len(b.len(), 8);
    lemma_pow256_8();
    let la = le_bytes(a.len(), 8);
    let lb = le_bytes(b.len(), 8);
    assert(la =~= data.subrange(0, 8)) by {
        assert forall|i: int| 0 <= i < 8 implies la[i] == data[i] by {
            assert(framed(a)[i] == la[i]);
        }
    }
    assert(lb =~= data.subrange(0, 8)) by {
        assert forall|i: int| 0 <= i < 8 implies lb[i] == data[i] by {
            assert(framed(b)[i] == lb[i]);
        }
    }
    lemma_le_bytes_injective(a.len(), b.len(), 8);
    assert(a =~= b) by {
        assert forall|i: int| 0 <= i < a.len() implies a[i] == b[i] by {
            assert(framed(a)[8 + i] == a[i]);
            assert(framed(b)[8 + i] == b[i]);
        }
    }
}

/// The stored form of a header: the window start in eight bytes, the attempt
/// count in two, then the digest behind its length.
pub open spec fn header_bytes(window_start: i64, attempt_count: u16, digest: Seq<u8>) -> Seq<u8> {
    le_bytes(twos_complement(window_start), 8) + le_bytes(attempt_count as nat, 2) + framed(digest)
}

/// The stored form of an envelope: salt, nonce and ciphertext, each behind
/// its length.
pub open spec fn envelope_bytes(salt: Seq<u8>, nonce: Seq<u8>, ciphertext: Seq<u8>) -> Seq<u8> {
    framed(salt) + framed(nonce) + framed(ciphertext)
}

/// Two headers whose stored forms begin the same text are the same header.
pub proof fn lemma_header_bytes_unique(
    t1: i64,
    c1: u16,
    d1: Seq<u8>,
    t2: i64,
    c2: u16,
    d2: Seq<u8>,
    data: Seq<u8>,
)
    requires
        header_bytes(t1, c1, d1).is_prefix_of(data),
        header_bytes(t2, c2, d2).is_prefix_of(data),
        d1.len() <= u64::MAX,
        d2.len() <= u64::MAX,
    ensures
        t1 == t2,
        c1 == c2,
        d1 == d2,
{
    lemma_pow256_8();
    let a1 = le_bytes(twos_complement(t1), 8);
    let a2 = le_bytes(twos_complement(t2), 8);
    let b1 = le_bytes(c1 as nat, 2);
    let b2 = le_bytes(c2 as nat, 2);
    lemma_le_bytes_len(twos_complement(t1), 8);
    lemma_le_bytes_len(twos_complement(t2), 8);
    lemma_le_bytes_len(c1 as nat, 2);
    lemma_le_bytes_len(c2 as nat, 2);
    let h1 = header_bytes(t1, c1, d1);
    let h2 = header_bytes(t2, c2, d2);
    assert(a1 =~= a2) by {
        assert forall|i: int| 0 <= i < 8 implies a1[i] == a2[i] by {
            assert(h1[i] == a1[i] && h2[i] == a2[i]);
            assert(h1[i] == data[i] && h2[i] == data[i]);
        }
    }
    lemma_le_bytes_injective(twos_complement(t1), twos_complement(t2), 8);
    assert(b1 =~= b2) by {
        assert forall|i: int| 0 <= i < 2 implies b1[i] == b2[i] by {
            assert(h1[8 + i] == b1[i] && h2[8 + i] == b2[i]);
            assert(h1[8 + i] == data[8 + i] && h2[8 + i] == data[8 + i]);
        }
    }
    lemma_le_bytes_injective(c1 as nat, c2 as nat, 2);
    let rest = data.skip(10);
    assert(framed(d1).is_prefix_of(rest)) by {
        assert(framed(d1) =~= h1.skip(10));
        assert(h1.skip(10) =~= rest.subrange(0, h1.len() - 10));
    }
    assert(framed(d2).is_prefix_of(rest)) by {
        assert(framed(d2) =~= h2.skip(10));
        assert(h2.skip(10) =~= rest.subrange(0, h2.len() - 10));
    }
    lemma_framed_unique(d1, d2, rest);
}

/// Two envelopes whose stored forms begin the same text are the same
/// envelope.
pub proof fn lemma_envelope_bytes_unique(
    s1: Seq<u8>,
    n1: Seq<u8>,
    d1: Seq<u8>,
    s2: Seq<u8>,
    n2: Seq<u8>,
    d2: Seq<u8>,
    data: Seq<u8>,
)
    requires
        envelope_bytes(s1, n1, d1).is_prefix_of(data),
        envelope_bytes(s2, n2, d2).is_prefix_of(data),
        s1.len() <= u64::MAX && n1.len() <= u64::MAX && d1.len() <= u64::MAX,
        s2.len() <= u64::MAX && n2.len() <= u64::MAX && d2.len() <= u64::MAX,
    ensures
        s1 == s2,
        n1 == n2,
        d1 == d2,
{
    let e1 = envelope_bytes(s1, n1, d1);
    let e2 = envelope_bytes(s2, n2, d2);
    lemma_le_bytes_len(s1.len(), 8);
    lemma_le_bytes_len(s2.len(), 8);
    lemma_le_bytes_len(n1.len(), 8);
    lemma_le_bytes_len(n2.len(), 8);
    assert(framed(s1).is_prefix_of(data)) by {
        assert(framed(s1) =~= e1.subrange(0, framed(s1).len() as int));
        assert(framed(s1) =~= data.subrange(0, framed(s1).len() as int));
    }
    assert(framed(s2).is_prefix_of(data)) by {
        assert(framed(s2) =~= e2.subrange(0, framed(s2).len() as int));
        assert(framed(s2) =~= data.subrange(0, framed(s2).len() as int));
    }
    lemma_framed_unique(s1, s2, data);
    let k = framed(s1).len() as int;
    let rest = data.skip(k);
    let f1 = framed(n1) + framed(d1);
    let f2 = framed(n2) + framed(d2);
    assert(f1 =~= e1.skip(k));
    assert(f2 =~= e2.skip(k));
    assert(e1.skip(k) =~= rest.subrange(0, e1.len() - k));
    assert(e2.skip(k) =~= rest.subrange(0, e2.len() - k));
    assert(framed(n1).is_prefix_of(rest)) by {
        assert(framed(n1) =~= f1.subrange(0, framed(n1).len() as int));
        assert(framed(n1) =~= rest.subrange(0, framed(n1).len() as int));
    }
    assert(framed(n2).is_prefix_of(rest)) by {
        assert(framed(n2) =~= f2.subrange(0, framed(n2).len() as int));
        assert(framed(n2) =~= rest.subrange(0, framed(n2).len() as int));
    }
    lemma_framed_unique(n1, n2, rest);
    let k2 = framed(n1).len() as int;
    let rest2 = rest.skip(k2);
    assert(framed(d1).is_prefix_of(rest2)) by {
        assert(framed(d1) =~= f1.skip(k2));
        assert(f1.skip(k2) =~= rest2.subrange(0, f1.len() - k2));
    }
    assert(framed(d2).is_prefix_of(rest2)) by {
        assert(framed(d2) =~= f2.skip(k2));
        assert(f2.skip(k2) =~= rest2.subrange(0, f2.len() - k2));
    }
    lemma_framed_unique(d1, d2, rest2);
}

} // verus!
