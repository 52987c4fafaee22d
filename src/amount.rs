//! Token amounts held in cell data as 16 little-endian bytes.

use vstd::prelude::*;

verus! {

pub open spec fn pow256(n: nat) -> nat
    decreases n,
{
    if n == 0 {
        1
    } else {
        256 * pow256((n - 1) as nat)
    }
}

/// The number that a little-endian byte string stands for.
pub open spec fn le_value(s: Seq<u8>) -> nat
    decreases s.len(),
{
    if s.len() == 0 {
        0
    } else {
        s[0] as nat + 256 * le_value(s.drop_first())
    }
}

pub proof fn lemma_pow256_16()
    ensures
        pow256(16) == u128::MAX as nat + 1,
{
    reveal_with_fuel(pow256, 17);
}

pub proof fn lemma_le_value_bound(s: Seq<u8>)
    ensures
        le_value(s) < pow256(s.len()),
    decreases s.len(),
{
    if s.len() > 0 {
        lemma_le_value_bound(s.drop_first());
        let a = s[0] as nat;
        let b = le_value(s.drop_first());
        let p = pow256(s.drop_first().len());
        assert(a + 256 * b < 256 * p) by (nonlinear_arith)
            requires a < 256, b < p;
    }
}

pub proof fn lemma_le_value_push(s: Seq<u8>, x: u8)
    ensures
        le_value(s.push(x)) == le_value(s) + pow256(s.len()) * x,
    decreases s.len(),
{
    if s.len() == 0 {
        assert(s.push(x).drop_first() =~= Seq::<u8>::empty());
        assert(le_value(Seq::<u8>::empty()) == 0);
        assert(pow256(0) == 1);
    } else {
        assert(s.push(x).drop_first() =~= s.drop_first().push(x));
        lemma_le_value_push(s.drop_first(), x);
        let p = pow256(s.drop_first().len());
        assert(pow256(s.len()) == 256 * p);
        assert(256 * (le_value(s.drop_first()) + p * x) == 256 * le_value(s.drop_first()) + (256 * p) * x)
            by (nonlinear_arith);
    }
}

/// Reads a 16-byte little-endian amount.
pub fn decode_amount(b: &[u8]) -> (r: u128)
    requires
        b@.len() == 16,
    ensures
        r as nat == le_value(b@),
{
    let mut acc: u128 = 0;
    let mut i: usize = 16;
    proof {
        assert(b@.subrange(16, 16) =~= Seq::<u8>::empty());
        lemma_pow256_16();
    }
    while i > 0
        invariant
            b@.len() == 16,
            i <= 16,
            acc as nat == le_value(b@.subrange(i as int, 16)),
            pow256(16) == u128::MAX as nat + 1,
        decreases i,
    {
        let ghost prev = b@.subrange(i as int, 16);
        let ghost cur = b@.subrange(i - 1, 16);
        proof {
            assert(cur.drop_first() =~= prev);
            lemma_le_value_bound(prev);
            lemma_le_value_bound(cur);
        }
        assert(le_value(cur) == b@[i - 1] as nat + 256 * (acc as nat));
        i = i - 1;
        proof {
            assert(pow256(cur.len()) <= pow256(16)) by {
                lemma_pow256_mono(cur.len(), 16);
            }
        }
        acc = b[i] as u128 + 256 * acc;
    }
    assert(b@.subrange(0, 16) =~= b@);
    acc
}

pub proof fn lemma_pow256_mono(a: nat, b: nat)
    requires
        a <= b,
    ensures
        pow256(a) <= pow256(b),
    decreases b,
{
    if a < b {
        lemma_pow256_mono(a, (b - 1) as nat);
    }
}

/// Writes an amount as 16 little-endian bytes.
pub fn encode_amount(v: u128) -> (r: Vec<u8>)
    ensures
        r@.len() == 16,
        le_value(r@) == v as nat,
{
    let mut out: Vec<u8> = Vec::new();
    let mut rest: u128 = v;
    let mut i: usize = 0;
    assert(le_value(out@) == 0);
    assert(pow256(0) == 1);
    while i < 16
        invariant
            i <= 16,
            out@.len() == i,
            v as nat == le_value(out@) + pow256(i as nat) * (rest as nat),
        decreases 16 - i,
    {
        let byte: u8 = (rest % 256) as u8;
        proof {
            lemma_le_value_push(out@, byte);
            let p = pow256(i as nat);
            let q = rest as nat;
            assert(p * q == p * (q % 256) + (256 * p) * (q / 256)) by (nonlinear_arith);
            assert(pow256((i + 1) as nat) == 256 * p);
        }
        out.push(byte);
        rest = rest / 256;
        i = i + 1;
    }
    proof {
        lemma_pow256_16();
        if rest > 0 {
            assert(pow256(16) * (rest as nat) >= pow256(16)) by (nonlinear_arith)
                requires rest as nat >= 1;
        }
    }
    out
}

} // verus!
