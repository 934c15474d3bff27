//! Little-endian encodings of natural numbers as byte strings.
//!
//! Every multi-byte quantity the ciphers read or write is little-endian. The
//! model here is the mathematical one: a byte string denotes the number
//! `s[0] + 256 * s[1] + 256^2 * s[2] + ...`.

use vstd::prelude::*;

verus! {

/// `256^n`.
pub open spec fn pow256(n: nat) -> nat
    decreases n,
{
    if n == 0 {
        1
    } else {
        256 * pow256((n - 1) as nat)
    }
}

/// The number that the byte string `s` denotes, least significant byte first.
pub open spec fn le_nat(s: Seq<u8>) -> nat
    decreases s.len(),
{
    if s.len() == 0 {
        0
    } else {
        s[0] as nat + 256 * le_nat(s.drop_first())
    }
}

/// The `len` least significant bytes of `n`, least significant byte first.
pub open spec fn le_bytes(n: nat, len: nat) -> Seq<u8>
    decreases len,
{
    if len == 0 {
        Seq::empty()
    } else {
        seq![(n % 256) as u8] + le_bytes(n / 256, (len - 1) as nat)
    }
}

/// `2^64`.
pub open spec fn two_64() -> nat {
    0x1_0000_0000_0000_0000
}

/// `2^128`.
pub open spec fn two_128() -> nat {
    0x1_0000_0000_0000_0000_0000_0000_0000_0000nat
}

/// Values of `pow256` at the widths this crate uses, and a bound for every
/// width up to sixteen bytes.
pub proof fn lemma_pow256_values()
    ensures
        pow256(0) == 1,
        pow256(4) == 0x1_0000_0000,
        pow256(8) == two_64(),
        pow256(16) == two_128(),
        forall|n: nat| n <= 16 ==> 0 < #[trigger] pow256(n) <= two_128(),
{
    reveal_with_fuel(pow256, 17);
    assert forall|n: nat| n <= 16 implies 0 < #[trigger] pow256(n) <= two_128() by {
        lemma_pow256_bound(n);
    }
}

proof fn lemma_pow256_bound(n: nat)
    requires
        n <= 16,
    ensures
        0 < pow256(n) <= two_128(),
        n < 16 ==> 256 * pow256(n) <= two_128(),
{
    reveal_with_fuel(pow256, 17);
}

/// The length of `le_bytes(n, len)` is `len`.
pub proof fn lemma_le_bytes_len(n: nat, len: nat)
    ensures
        le_bytes(n, len).len() == len,
    decreases len,
{
    if len > 0 {
        lemma_le_bytes_len(n / 256, (len - 1) as nat);
    }
}

/// A byte string denotes a number below `256^len`.
pub proof fn lemma_le_nat_bound(s: Seq<u8>)
    ensures
        le_nat(s) < pow256(s.len()),
    decreases s.len(),
{
    if s.len() > 0 {
        lemma_le_nat_bound(s.drop_first());
    }
}

/// Peeling the first byte off a window of `s`.
pub proof fn lemma_le_nat_window(s: Seq<u8>, from: int, to: int)
    requires
        0 <= from < to <= s.len(),
    ensures
        le_nat(s.subrange(from, to)) == s[from] as nat + 256 * le_nat(s.subrange(from + 1, to)),
{
    assert(s.subrange(from, to).drop_first() =~= s.subrange(from + 1, to));
}

/// Reads the sixteen bytes of `bytes` that start at `at` as one number.
pub fn load_u128_le(bytes: &[u8], at: usize) -> (v: u128)
    requires
        at + 16 <= bytes@.len(),
    ensures
        v == le_nat(bytes@.subrange(at as int, at + 16)),
{
    let total = bytes.len();
    let mut v: u128 = 0;
    let mut k: usize = 16;
    assert(bytes@.subrange(at + 16, at + 16) =~= Seq::<u8>::empty());
    while k > 0
        invariant
            k <= 16,
            at + 16 <= total == bytes@.len(),
            v == le_nat(bytes@.subrange(at + k, at + 16)),
        decreases k,
    {
        proof {
            lemma_le_nat_window(bytes@, at + k - 1, at + 16);
            lemma_le_nat_bound(bytes@.subrange(at + k, at + 16));
            lemma_pow256_bound((16 - k) as nat);
        }
        k = k - 1;
        v = v * 256 + bytes[at + k] as u128;
    }
    v
}

/// Appends the `len` least significant bytes of `n` to `out`, least
/// significant byte first.
pub fn store_le(out: &mut Vec<u8>, n: u128, len: usize)
    ensures
        final(out)@ == old(out)@ + le_bytes(n as nat, len as nat),
{
    let mut rest: u128 = n;
    let mut i: usize = 0;
    while i < len
        invariant
            i <= len,
            out@ + le_bytes(rest as nat, (len - i) as nat) == old(out)@ + le_bytes(
                n as nat,
                len as nat,
            ),
        decreases len - i,
    {
        let ghost before = out@;
        out.push((rest % 256) as u8);
        proof {
            let tail = le_bytes((rest / 256) as nat, (len - i - 1) as nat);
            assert(le_bytes(rest as nat, (len - i) as nat) == seq![(rest % 256) as u8] + tail);
            assert(out@ + tail =~= before + (seq![(rest % 256) as u8] + tail));
        }
        rest = rest / 256;
        i = i + 1;
    }
    assert(le_bytes(rest as nat, 0) =~= Seq::<u8>::empty());
    assert(out@ + Seq::<u8>::empty() =~= out@);
}

} // verus!
