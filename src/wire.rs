//! Little-endian integers on the wire.

use vstd::prelude::*;

verus! {

/// `256` to the power `n`.
pub open spec fn pow256(n: nat) -> nat
    decreases n,
{
    if n == 0 {
        1
    } else {
        256 * pow256((n - 1) as nat)
    }
}

/// The unsigned value of `s` read as a little-endian number.
pub open spec fn le_value(s: Seq<u8>) -> nat
    decreases s.len(),
{
    if s.len() == 0 {
        0
    } else {
        s[0] as nat + 256 * le_value(s.drop_first())
    }
}

/// The `n` little-endian bytes of `v` (the low `n` bytes, least significant first).
pub open spec fn le_bytes(v: nat, n: nat) -> Seq<u8>
    decreases n,
{
    if n == 0 {
        seq![]
    } else {
        seq![(v % 256) as u8] + le_bytes(v / 256, (n - 1) as nat)
    }
}

pub proof fn lemma_pow256_mono(a: nat, b: nat)
    requires
        a <= b,
    ensures
        1 <= pow256(a) <= pow256(b),
    decreases b,
{
    if b > a {
        lemma_pow256_mono(a, (b - 1) as nat);
    } else if a > 0 {
        lemma_pow256_mono((a - 1) as nat, (a - 1) as nat);
    }
}

pub proof fn lemma_pow256_small()
    ensures
        pow256(2) == 0x1_0000,
        pow256(8) == 0x1_0000_0000_0000_0000,
{
    reveal_with_fuel(pow256, 9);
}

pub proof fn lemma_le_bytes_len(v: nat, n: nat)
    ensures
        le_bytes(v, n).len() == n,
    decreases n,
{
    if n > 0 {
        lemma_le_bytes_len(v / 256, (n - 1) as nat);
    }
}

/// Reading back the bytes written for a value that fits gives the value.
pub proof fn lemma_le_round_trip(v: nat, n: nat)
    requires
        v < pow256(n),
    ensures
        le_value(le_bytes(v, n)) == v,
    decreases n,
{
    if n > 0 {
        let s = le_bytes(v, n);
        lemma_le_bytes_len(v, n);
        assert(s.drop_first() =~= le_bytes(v / 256, (n - 1) as nat));
        assert(v / 256 < pow256((n - 1) as nat)) by (nonlinear_arith)
            requires
                v < 256 * pow256((n - 1) as nat),
        ;
        lemma_le_round_trip(v / 256, (n - 1) as nat);
    }
}

pub proof fn lemma_le_value_bound(s: Seq<u8>)
    ensures
        le_value(s) < pow256(s.len()),
    decreases s.len(),
{
    if s.len() > 0 {
        lemma_le_value_bound(s.drop_first());
        let r = le_value(s.drop_first());
        let p = pow256((s.len() - 1) as nat);
        assert(s[0] as nat + 256 * r < 256 * p) by (nonlinear_arith)
            requires
                r < p,
                s[0] < 256,
        ;
    }
}

/// Reads the `n`-byte little-endian number that starts at `start`.
pub fn read_le(b: &[u8], start: usize, n: usize) -> (r: u64)
    requires
        n <= 8,
        start + n <= b@.len(),
    ensures
        r as nat == le_value(b@.subrange(start as int, start + n)),
{
    let len = b.len();
    let mut acc: u64 = 0;
    let mut j: usize = n;
    proof {
        lemma_pow256_small();
    }
    while j > 0
        invariant
            j <= n <= 8,
            start + n <= b@.len(),
            len == b@.len(),
            acc as nat == le_value(b@.subrange(start + j, start + n)),
            acc < pow256((n - j) as nat),
            pow256(8) == 0x1_0000_0000_0000_0000,
        decreases j,
    {
        j = j - 1;
        let ghost k = (n - j) as nat;
        proof {
            assert(b@.subrange(start + j, start + n).drop_first() =~= b@.subrange(
                start + j + 1,
                start + n,
            ));
            lemma_pow256_mono(k, 8);
            let p = pow256((k - 1) as nat);
            assert(acc * 256 + 255 < 256 * p) by (nonlinear_arith)
                requires
                    acc < p,
            ;
        }
        acc = acc * 256 + b[start + j] as u64;
    }
    acc
}

/// Appends the `n` little-endian bytes of `v`.
pub fn write_le(out: &mut Vec<u8>, v: u64, n: usize)
    requires
        n <= 8,
        v < pow256(n as nat),
    ensures
        final(out)@ == old(out)@ + le_bytes(v as nat, n as nat),
{
    let ghost init = out@;
    let mut cur: u64 = v;
    let mut i: usize = 0;
    while i < n
        invariant
            i <= n,
            out@ + le_bytes(cur as nat, (n - i) as nat) == init + le_bytes(v as nat, n as nat),
        decreases n - i,
    {
        let ghost rest = le_bytes(cur as nat, (n - i) as nat);
        out.push((cur % 256) as u8);
        proof {
            assert(rest == seq![(cur % 256) as u8] + le_bytes(cur as nat / 256, (n - i - 1) as nat));
        }
        cur = cur / 256;
        i = i + 1;
        proof {
            assert(out@ + le_bytes(cur as nat, (n - i) as nat) =~= init + le_bytes(v as nat, n as nat));
        }
    }
    proof {
        assert(le_bytes(cur as nat, 0) =~= seq![]);
        assert(out@ =~= out@ + le_bytes(cur as nat, 0));
    }
}

} // verus!
