//! The Poly1305 one-time authenticator of RFC 8439.
//!
//! The tag of a message under a 32-byte one-time key is a polynomial in the
//! secret multiplier `r`, evaluated modulo the prime `2^130 - 5`, to which the
//! secret pad `s` is added modulo `2^128`. The model below is that arithmetic
//! over the naturals; the code keeps the accumulator in five limbs of 26 bits.

use crate::bytes::{le_bytes, le_nat, load_u128_le, pow256, store_le, two_128};
use crate::bytes::lemma_pow256_values;
use vstd::arithmetic::div_mod::{
    lemma_add_mod_noop, lemma_mod_multiples_vanish, lemma_mul_mod_noop_left, lemma_small_mod,
};
use vstd::prelude::*;

verus! {

/// The prime `2^130 - 5`.
pub open spec fn prime() -> int {
    0x3_ffff_ffff_ffff_ffff_ffff_ffff_ffff_fffbint
}

/// The bits of the multiplier that a key may set.
pub const CLAMP: u128 = 0x0ffffffc_0ffffffc_0ffffffc_0fffffff;

/// The multiplier that the first half of a one-time key denotes.
pub open spec fn multiplier_of(key: Seq<u8>) -> nat {
    ((le_nat(key.subrange(0, 16)) as u128) & CLAMP) as nat
}

/// The pad that the second half of a one-time key denotes.
pub open spec fn pad_of(key: Seq<u8>) -> nat {
    le_nat(key.subrange(16, 32))
}

/// The number a block of at most sixteen bytes stands for: its bytes, with
/// one more bit set above them.
pub open spec fn block_value(block: Seq<u8>) -> nat {
    le_nat(block) + pow256(block.len())
}

/// One step of the evaluation: add the block, multiply by `r`, reduce.
pub open spec fn absorb_step(acc: nat, r: nat, block: Seq<u8>) -> nat {
    ((((acc + block_value(block)) * r) as int) % prime()) as nat
}

/// The accumulator after `msg` has been absorbed sixteen bytes at a time; a
/// shorter last block is absorbed as it is.
pub open spec fn absorb(acc: nat, r: nat, msg: Seq<u8>) -> nat
    decreases msg.len(),
{
    if msg.len() == 0 {
        acc
    } else {
        let n: int = if msg.len() < 16 {
            msg.len() as int
        } else {
            16
        };
        absorb(absorb_step(acc, r, msg.subrange(0, n)), r, msg.subrange(n, msg.len() as int))
    }
}

/// The sixteen tag bytes for an accumulator and a pad.
pub open spec fn tag_bytes(acc: nat, pad: nat) -> Seq<u8> {
    le_bytes(((acc + pad) % two_128()) as nat, 16)
}

/// The Poly1305 tag of `msg` under the one-time key `key`.
pub open spec fn tag_of(key: Seq<u8>, msg: Seq<u8>) -> Seq<u8> {
    tag_bytes(absorb(0, multiplier_of(key), msg), pad_of(key))
}

/// `s` followed by as few zero bytes as bring its length to a multiple of 16.
pub open spec fn zero_pad16(s: Seq<u8>) -> Seq<u8> {
    s + Seq::new(((16 - s.len() % 16) % 16) as nat, |i: int| 0u8)
}

/// Absorbing `a + b` is absorbing `a`, then `b`, when `a` ends on a block
/// boundary.
pub proof fn lemma_absorb_concat(acc: nat, r: nat, a: Seq<u8>, b: Seq<u8>)
    requires
        a.len() % 16 == 0,
    ensures
        absorb(acc, r, a + b) == absorb(absorb(acc, r, a), r, b),
    decreases a.len(),
{
    if a.len() == 0 {
        assert(a + b =~= b);
    } else {
        let whole = a + b;
        assert(whole.subrange(0, 16) =~= a.subrange(0, 16));
        assert(whole.subrange(16, whole.len() as int) =~= a.subrange(16, a.len() as int) + b);
        lemma_absorb_concat(
            absorb_step(acc, r, a.subrange(0, 16)),
            r,
            a.subrange(16, a.len() as int),
            b,
        );
    }
}

/// A message of at most sixteen bytes is absorbed in one step.
pub proof fn lemma_absorb_one_block(acc: nat, r: nat, block: Seq<u8>)
    requires
        0 < block.len() <= 16,
    ensures
        absorb(acc, r, block) == absorb_step(acc, r, block),
{
    let n = block.len() as int;
    assert(block.subrange(0, n) =~= block);
    assert(block.subrange(n, n).len() == 0);
    reveal_with_fuel(absorb, 2);
}

/// A string of zero bytes denotes zero.
proof fn lemma_le_nat_zeros(s: Seq<u8>)
    requires
        forall|i: int| 0 <= i < s.len() ==> s[i] == 0,
    ensures
        le_nat(s) == 0,
    decreases s.len(),
{
    if s.len() > 0 {
        lemma_le_nat_zeros(s.drop_first());
    }
}

/// Writing a one after `block`, and zeros after that, sets the bit above it.
proof fn lemma_le_nat_marked(block: Seq<u8>, rest: Seq<u8>)
    requires
        rest.len() > 0,
        rest[0] == 1,
        forall|i: int| 1 <= i < rest.len() ==> rest[i] == 0,
    ensures
        le_nat(block + rest) == block_value(block),
    decreases block.len(),
{
    if block.len() == 0 {
        assert(block + rest =~= rest);
        lemma_le_nat_zeros(rest.drop_first());
    } else {
        assert((block + rest).drop_first() =~= block.drop_first() + rest);
        lemma_le_nat_marked(block.drop_first(), rest);
    }
}

/// `2^26`, the radix of the limbs.
const RADIX: u64 = 0x400_0000;

/// The weights of the limbs, `2^26` to `2^104`, and `2^130`.
spec fn b1() -> int {
    0x400_0000
}

spec fn b2() -> int {
    0x10_0000_0000_0000
}

spec fn b3() -> int {
    0x4000_0000_0000_0000_0000int
}

spec fn b4() -> int {
    0x100_0000_0000_0000_0000_0000_0000int
}

spec fn b5() -> int {
    0x4_0000_0000_0000_0000_0000_0000_0000_0000int
}

/// The number that five limbs denote.
spec fn limbs_value(l0: int, l1: int, l2: int, l3: int, l4: int) -> int {
    l0 + l1 * b1() + l2 * b2() + l3 * b3() + l4 * b4()
}

/// A number below `2^131`, held as five limbs in radix `2^26`.
struct Limbs {
    l0: u64,
    l1: u64,
    l2: u64,
    l3: u64,
    l4: u64,
}

impl Limbs {
    /// The number held.
    spec fn value(self) -> int {
        limbs_value(
            self.l0 as int,
            self.l1 as int,
            self.l2 as int,
            self.l3 as int,
            self.l4 as int,
        )
    }

    /// Every limb is a digit.
    spec fn reduced(self) -> bool {
        &&& self.l0 < RADIX
        &&& self.l1 < RADIX
        &&& self.l2 < RADIX
        &&& self.l3 < RADIX
        &&& self.l4 < RADIX
    }

    /// Every limb is a digit, but for a small excess in the second.
    spec fn carried(self) -> bool {
        &&& self.l0 < RADIX
        &&& self.l1 < RADIX + 1024
        &&& self.l2 < RADIX
        &&& self.l3 < RADIX
        &&& self.l4 < RADIX
    }
}

/// A number times a limb sum, limb by limb.
proof fn lemma_scale(a: int, r0: int, r1: int, r2: int, r3: int, r4: int)
    by (nonlinear_arith)
    ensures
        a * (r0 + r1 * 0x400_0000 + r2 * 0x10_0000_0000_0000 + r3 * 0x4000_0000_0000_0000_0000
            + r4 * 0x100_0000_0000_0000_0000_0000_0000) == a * r0 + (a * r1) * 0x400_0000 + (a
            * r2) * 0x10_0000_0000_0000 + (a * r3) * 0x4000_0000_0000_0000_0000 + (a * r4)
            * 0x100_0000_0000_0000_0000_0000_0000,
{
}

/// A limb sum times a number, limb by limb.
proof fn lemma_split(a0: int, a1: int, a2: int, a3: int, a4: int, r: int)
    by (nonlinear_arith)
    ensures
        (a0 + a1 * 0x400_0000 + a2 * 0x10_0000_0000_0000 + a3 * 0x4000_0000_0000_0000_0000 + a4
            * 0x100_0000_0000_0000_0000_0000_0000) * r == a0 * r + (a1 * r) * 0x400_0000 + (a2
            * r) * 0x10_0000_0000_0000 + (a3 * r) * 0x4000_0000_0000_0000_0000 + (a4 * r)
            * 0x100_0000_0000_0000_0000_0000_0000,
{
}

/// The column sums of a limb product, with the columns above the fifth
/// folded back through `2^130 = 5 (mod p)`, denote the product modulo `p`.
#[verifier::rlimit(40)]
proof fn lemma_limb_product(
    a0: int,
    a1: int,
    a2: int,
    a3: int,
    a4: int,
    r0: int,
    r1: int,
    r2: int,
    r3: int,
    r4: int,
) -> (q: int)
    ensures
        limbs_value(a0, a1, a2, a3, a4) * limbs_value(r0, r1, r2, r3, r4) == limbs_value(
            a0 * r0 + 5 * (a1 * r4 + a2 * r3 + a3 * r2 + a4 * r1),
            a0 * r1 + a1 * r0 + 5 * (a2 * r4 + a3 * r3 + a4 * r2),
            a0 * r2 + a1 * r1 + a2 * r0 + 5 * (a3 * r4 + a4 * r3),
            a0 * r3 + a1 * r2 + a2 * r1 + a3 * r0 + 5 * (a4 * r4),
            a0 * r4 + a1 * r3 + a2 * r2 + a3 * r1 + a4 * r0,
        ) + prime() * q,
{
    let r = limbs_value(r0, r1, r2, r3, r4);
    lemma_split(a0, a1, a2, a3, a4, r);
    lemma_scale(a0, r0, r1, r2, r3, r4);
    lemma_scale(a1, r0, r1, r2, r3, r4);
    lemma_scale(a2, r0, r1, r2, r3, r4);
    lemma_scale(a3, r0, r1, r2, r3, r4);
    lemma_scale(a4, r0, r1, r2, r3, r4);
    let q = (a1 * r4 + a2 * r3 + a3 * r2 + a4 * r1) + (a2 * r4 + a3 * r3 + a4 * r2) * b1() + (a3
        * r4 + a4 * r3) * b2() + (a4 * r4) * b3();
    q
}


/// A step may start from any number with the accumulator's residue.
proof fn lemma_step_residue(h: int, block: int, r: int)
    ensures
        (((h % prime()) + block) * r) % prime() == ((h + block) * r) % prime(),
{
    let p = prime();
    lemma_mul_mod_noop_left(h % p + block, r, p);
    lemma_add_mod_noop(h % p, block, p);
    lemma_add_mod_noop(h, block, p);
    lemma_mul_mod_noop_left(h + block, r, p);
    lemma_small_mod((h % p) as nat, p as nat);
}

const RADIX_WIDE: u128 = 0x400_0000;

/// The limbs of `n + hibit * 2^128`.
fn split(n: u128, hibit: u64) -> (m: Limbs)
    requires
        hibit <= 1,
    ensures
        m.value() == n + hibit * two_128(),
        m.l0 < RADIX,
        m.l1 < RADIX,
        m.l2 < RADIX,
        m.l3 < RADIX,
        m.l4 < 0x100_0000 + hibit * 0x100_0000,
{
    let q1 = n / RADIX_WIDE;
    let q2 = q1 / RADIX_WIDE;
    let q3 = q2 / RADIX_WIDE;
    let q4 = q3 / RADIX_WIDE;
    Limbs {
        l0: (n % RADIX_WIDE) as u64,
        l1: (q1 % RADIX_WIDE) as u64,
        l2: (q2 % RADIX_WIDE) as u64,
        l3: (q3 % RADIX_WIDE) as u64,
        l4: q4 as u64 + hibit * 0x100_0000,
    }
}

/// The product of a sum of two limbs with a digit.
fn mul_limb(a: u64, b: u64) -> (p: u64)
    requires
        a < 0x1000_0000,
        b < 0x400_0000,
    ensures
        p == a * b,
        p < 0x40_0000_0000_0000,
{
    assert(a * b < 0x40_0000_0000_0000) by (nonlinear_arith)
        requires
            a < 0x1000_0000,
            b < 0x400_0000,
    ;
    a * b
}

/// `(h + m) * r` modulo the prime, carried.
#[verifier::rlimit(40)]
fn block_step(h: &Limbs, r: &Limbs, m: &Limbs) -> (out: Limbs)
    requires
        h.carried(),
        r.reduced(),
        m.l0 < RADIX,
        m.l1 < RADIX,
        m.l2 < RADIX,
        m.l3 < RADIX,
        m.l4 < 0x200_0000,
    ensures
        out.carried(),
        out.value() % prime() == ((h.value() + m.value()) * r.value()) % prime(),
{
    let a0 = h.l0 + m.l0;
    let a1 = h.l1 + m.l1;
    let a2 = h.l2 + m.l2;
    let a3 = h.l3 + m.l3;
    let a4 = h.l4 + m.l4;

    let d0 = mul_limb(a0, r.l0) + 5 * (mul_limb(a1, r.l4) + mul_limb(a2, r.l3) + mul_limb(
        a3,
        r.l2,
    ) + mul_limb(a4, r.l1));
    let d1 = mul_limb(a0, r.l1) + mul_limb(a1, r.l0) + 5 * (mul_limb(a2, r.l4) + mul_limb(
        a3,
        r.l3,
    ) + mul_limb(a4, r.l2));
    let d2 = mul_limb(a0, r.l2) + mul_limb(a1, r.l1) + mul_limb(a2, r.l0) + 5 * (mul_limb(
        a3,
        r.l4,
    ) + mul_limb(a4, r.l3));
    let d3 = mul_limb(a0, r.l3) + mul_limb(a1, r.l2) + mul_limb(a2, r.l1) + mul_limb(a3, r.l0)
        + 5 * mul_limb(a4, r.l4);
    let d4 = mul_limb(a0, r.l4) + mul_limb(a1, r.l3) + mul_limb(a2, r.l2) + mul_limb(a3, r.l1)
        + mul_limb(a4, r.l0);

    let c0 = d0 / RADIX;
    let e1 = d1 + c0;
    let c1 = e1 / RADIX;
    let e2 = d2 + c1;
    let c2 = e2 / RADIX;
    let e3 = d3 + c2;
    let c3 = e3 / RADIX;
    let e4 = d4 + c3;
    let c4 = e4 / RADIX;
    let f0 = d0 % RADIX + 5 * c4;
    let out = Limbs {
        l0: f0 % RADIX,
        l1: e1 % RADIX + f0 / RADIX,
        l2: e2 % RADIX,
        l3: e3 % RADIX,
        l4: e4 % RADIX,
    };
    proof {
        let q = lemma_limb_product(
            a0 as int,
            a1 as int,
            a2 as int,
            a3 as int,
            a4 as int,
            r.l0 as int,
            r.l1 as int,
            r.l2 as int,
            r.l3 as int,
            r.l4 as int,
        );
        let av = limbs_value(a0 as int, a1 as int, a2 as int, a3 as int, a4 as int);
        let dv = limbs_value(d0 as int, d1 as int, d2 as int, d3 as int, d4 as int);
        let product = (h.value() + m.value()) * r.value();
        assert(av == h.value() + m.value());
        assert(av * r.value() == dv + prime() * q);
        assert(out.value() == dv - prime() * c4);
        assert(out.value() == prime() * (-(q + c4)) + product);
        lemma_mod_multiples_vanish(-(q + c4), product, prime());
    }
    out
}

/// What a bit selects: `x` when it is clear, `y` when it is set.
fn select(bit: u64, x: u64, y: u64) -> (z: u64)
    requires
        bit <= 1,
    ensures
        z == if bit == 1 {
            y
        } else {
            x
        },
{
    let mask = 0u64.wrapping_sub(bit);
    let z = (x & !mask) | (y & mask);
    assert(bit == 0 ==> (x & !0u64) | (y & 0u64) == x) by (bit_vector);
    assert(bit == 1 ==> (x & !0xffff_ffff_ffff_ffffu64) | (y & 0xffff_ffff_ffff_ffffu64) == y)
        by (bit_vector);
    z
}

/// One pass of carries: the same residue, every limb a digit.
#[verifier::rlimit(40)]
fn carry_pass(h: &Limbs) -> (out: Limbs)
    requires
        h.carried(),
    ensures
        out.reduced(),
        out.value() % prime() == h.value() % prime(),
{
    let c1 = h.l1 / RADIX;
    let t2 = h.l2 + c1;
    let c2 = t2 / RADIX;
    let t3 = h.l3 + c2;
    let c3 = t3 / RADIX;
    let t4 = h.l4 + c3;
    let c4 = t4 / RADIX;
    let t0 = h.l0 + 5 * c4;
    let c0 = t0 / RADIX;
    let out = Limbs {
        l0: t0 % RADIX,
        l1: h.l1 % RADIX + c0,
        l2: t2 % RADIX,
        l3: t3 % RADIX,
        l4: t4 % RADIX,
    };
    proof {
        assert(out.value() == prime() * (-(c4 as int)) + h.value());
        lemma_mod_multiples_vanish(-(c4 as int), h.value(), prime());
    }
    out
}

/// The least residue modulo the prime of a number below `2^130`.
#[verifier::rlimit(40)]
fn reduce_once(l: &Limbs) -> (out: Limbs)
    requires
        l.reduced(),
    ensures
        out.reduced(),
        out.value() == l.value() % prime(),
{
    // Adding 5 overflows 2^130 exactly when the value is not below the prime.
    let u0 = l.l0 + 5;
    let u1 = l.l1 + u0 / RADIX;
    let u2 = l.l2 + u1 / RADIX;
    let u3 = l.l3 + u2 / RADIX;
    let u4 = l.l4 + u3 / RADIX;
    let over = u4 / RADIX;
    let g = Limbs {
        l0: u0 % RADIX,
        l1: u1 % RADIX,
        l2: u2 % RADIX,
        l3: u3 % RADIX,
        l4: u4 % RADIX,
    };
    assert(l.value() + 5 == g.value() + over * b5());
    assert(0 <= g.value() < b5());
    assert(0 <= l.value() < b5());
    let out = Limbs {
        l0: select(over, l.l0, g.l0),
        l1: select(over, l.l1, g.l1),
        l2: select(over, l.l2, g.l2),
        l3: select(over, l.l3, g.l3),
        l4: select(over, l.l4, g.l4),
    };
    proof {
        if over == 1 {
            assert(out.value() == g.value());
            assert(l.value() == prime() * 1 + out.value());
            lemma_mod_multiples_vanish(1, out.value(), prime());
        } else {
            assert(out.value() == l.value());
        }
        lemma_small_mod(out.value() as nat, prime() as nat);
    }
    out
}

/// The low 128 bits of a number below `2^130`.
#[verifier::rlimit(40)]
fn low_bits(f: &Limbs) -> (lo: u128)
    requires
        f.reduced(),
    ensures
        lo == f.value() % (two_128() as int),
{
    let top = f.l4 / 0x100_0000;
    let lo = (f.l0 as u128) + (f.l1 as u128) * 0x400_0000 + (f.l2 as u128) * 0x10_0000_0000_0000
        + (f.l3 as u128) * 0x4000_0000_0000_0000_0000 + ((f.l4 % 0x100_0000) as u128)
        * 0x100_0000_0000_0000_0000_0000_0000;
    proof {
        assert(f.value() == (two_128() as int) * (top as int) + lo);
        lemma_mod_multiples_vanish(top as int, lo as int, two_128() as int);
        lemma_small_mod(lo as nat, two_128());
    }
    lo
}

/// The last, short block of `data`, which starts at `end`, filled up with
/// zeros.
#[verifier::rlimit(40)]
fn padded_tail(data: &[u8], end: usize) -> (last: Vec<u8>)
    requires
        end % 16 == 0,
        end < data@.len() < end + 16,
    ensures
        last@.len() == 16,
        data@.subrange(0, end as int) + last@ == zero_pad16(data@),
{
    let len = data.len();
    let mut last: Vec<u8> = Vec::new();
    let mut i: usize = end;
    while i < len
        invariant
            end <= i <= len == data@.len(),
            last@.len() == i - end,
            forall|j: int| 0 <= j < i - end ==> last@[j] == data@[end + j],
        decreases len - i,
    {
        last.push(data[i]);
        i = i + 1;
    }
    while last.len() < 16
        invariant
            end < len == data@.len(),
            len < end + 16,
            len - end <= last@.len() <= 16,
            forall|j: int| 0 <= j < len - end ==> last@[j] == data@[end + j],
            forall|j: int| len - end <= j < last@.len() ==> last@[j] == 0,
        decreases 16 - last@.len(),
    {
        last.push(0);
    }
    proof {
        let whole = data@.subrange(0, end as int) + last@;
        let padded = zero_pad16(data@);
        assert(len % 16 == len - end);
        assert(whole.len() == padded.len());
        assert forall|j: int| 0 <= j < whole.len() implies whole[j] == padded[j] by {
            if j < end {
            } else if j < len {
                assert(whole[j] == last@[j - end]);
            } else {
                assert(whole[j] == last@[j - end]);
            }
        }
        assert(whole =~= padded);
    }
    last
}

/// A Poly1305 computation in progress: the multiplier and the pad of its
/// key, and the accumulator so far.
pub struct Poly1305 {
    r: Limbs,
    h: Limbs,
    pad: u128,
}

impl Poly1305 {
    /// The limbs are within the bounds that the arithmetic relies on.
    #[verifier::type_invariant]
    closed spec fn inv(&self) -> bool {
        self.r.reduced() && self.h.carried()
    }

    /// The multiplier `r`.
    pub closed spec fn multiplier(&self) -> nat {
        self.r.value() as nat
    }

    /// The pad `s`.
    pub closed spec fn pad(&self) -> nat {
        self.pad as nat
    }

    /// The accumulator, as its least residue modulo the prime.
    pub closed spec fn accumulator(&self) -> nat {
        (self.h.value() % prime()) as nat
    }

    /// Starts a computation under a 32-byte one-time key.
    pub fn new(key: &[u8]) -> (st: Poly1305)
        requires
            key@.len() == 32,
        ensures
            st.multiplier() == multiplier_of(key@),
            st.pad() == pad_of(key@),
            st.accumulator() == 0,
    {
        let rv = load_u128_le(key, 0) & CLAMP;
        let pad = load_u128_le(key, 16);
        let r = split(rv, 0);
        let h = Limbs { l0: 0, l1: 0, l2: 0, l3: 0, l4: 0 };
        assert(r.l4 < RADIX);
        Poly1305 { r, h, pad }
    }

    /// Absorbs one whole block: the sixteen bytes of `data` from `at` on.
    fn absorb_block(&mut self, data: &[u8], at: usize)
        requires
            at + 16 <= data@.len(),
        ensures
            final(self).multiplier() == old(self).multiplier(),
            final(self).pad() == old(self).pad(),
            final(self).accumulator() == absorb_step(
                old(self).accumulator(),
                old(self).multiplier(),
                data@.subrange(at as int, at + 16),
            ),
    {
        proof {
            use_type_invariant(&*self);
        }
        let n = load_u128_le(data, at);
        let m = split(n, 1);
        let next = block_step(&self.h, &self.r, &m);
        proof {
            let block = data@.subrange(at as int, at + 16);
            let hv = self.h.value();
            let rv = self.r.value();
            let bv = block_value(block) as int;
            lemma_pow256_values();
            assert(m.value() == bv);
            lemma_step_residue(hv, bv, rv);
        }
        self.h = next;
    }

    /// Absorbs the last block of a message, shorter than sixteen bytes: the
    /// bytes of `data` from `at` on.
    #[verifier::rlimit(40)]
    fn absorb_short(&mut self, data: &[u8], at: usize)
        requires
            at < data@.len() < at + 16,
        ensures
            final(self).multiplier() == old(self).multiplier(),
            final(self).pad() == old(self).pad(),
            final(self).accumulator() == absorb_step(
                old(self).accumulator(),
                old(self).multiplier(),
                data@.subrange(at as int, data@.len() as int),
            ),
    {
        let len = data.len();
        let ghost block = data@.subrange(at as int, len as int);
        let mut marked: Vec<u8> = Vec::new();
        let mut i: usize = at;
        while i < len
            invariant
                at <= i <= len == data@.len(),
                marked@ == data@.subrange(at as int, i as int),
            decreases len - i,
        {
            marked.push(data[i]);
            i = i + 1;
            assert(marked@ =~= data@.subrange(at as int, i as int));
        }
        marked.push(1);
        while marked.len() < 16
            invariant
                block.len() < marked@.len() <= 16,
                marked@.subrange(0, block.len() as int) == block,
                marked@[block.len() as int] == 1,
                forall|j: int| block.len() < j < marked@.len() ==> marked@[j] == 0,
            decreases 16 - marked@.len(),
        {
            marked.push(0);
            assert(marked@.subrange(0, block.len() as int) =~= block);
        }
        proof {
            use_type_invariant(&*self);
        }
        let n = load_u128_le(marked.as_slice(), 0);
        let m = split(n, 0);
        let next = block_step(&self.h, &self.r, &m);
        proof {
            let hv = self.h.value();
            let rv = self.r.value();
            let bv = block_value(block) as int;
            let rest = marked@.subrange(block.len() as int, 16);
            assert(marked@.subrange(0, 16) =~= block + rest);
            lemma_le_nat_marked(block, rest);
            assert(m.value() == bv);
            lemma_step_residue(hv, bv, rv);
        }
        self.h = next;
    }

    /// Absorbs the whole blocks of `data`, and says where they end.
    #[verifier::rlimit(40)]
    fn absorb_whole(&mut self, data: &[u8]) -> (end: usize)
        ensures
            final(self).multiplier() == old(self).multiplier(),
            final(self).pad() == old(self).pad(),
            end % 16 == 0,
            end <= data@.len() < end + 16,
            final(self).accumulator() == absorb(
                old(self).accumulator(),
                old(self).multiplier(),
                data@.subrange(0, end as int),
            ),
    {
        let len = data.len();
        let ghost start = self.accumulator();
        let ghost r = self.multiplier();
        let mut i: usize = 0;
        assert(data@.subrange(0, 0).len() == 0);
        while len - i >= 16
            invariant
                i <= len == data@.len(),
                i % 16 == 0,
                self.multiplier() == r,
                self.pad() == old(self).pad(),
                self.accumulator() == absorb(start, r, data@.subrange(0, i as int)),
            decreases len - i,
        {
            self.absorb_block(data, i);
            proof {
                let done = data@.subrange(0, i as int);
                let block = data@.subrange(i as int, i + 16);
                assert(done + block =~= data@.subrange(0, i + 16));
                lemma_absorb_concat(start, r, done, block);
                lemma_absorb_one_block(absorb(start, r, done), r, block);
            }
            i = i + 16;
        }
        i
    }

    /// Absorbs a whole message, its last block as short as it is.
    pub fn absorb_message(&mut self, msg: &[u8])
        ensures
            final(self).multiplier() == old(self).multiplier(),
            final(self).pad() == old(self).pad(),
            final(self).accumulator() == absorb(
                old(self).accumulator(),
                old(self).multiplier(),
                msg@,
            ),
    {
        let ghost start = self.accumulator();
        let ghost r = self.multiplier();
        let end = self.absorb_whole(msg);
        let ghost done = msg@.subrange(0, end as int);
        if end < msg.len() {
            self.absorb_short(msg, end);
            proof {
                let last = msg@.subrange(end as int, msg@.len() as int);
                assert(done + last =~= msg@);
                lemma_absorb_concat(start, r, done, last);
                lemma_absorb_one_block(absorb(start, r, done), r, last);
            }
        } else {
            assert(done =~= msg@);
        }
    }

    /// Absorbs `data` and then as few zero bytes as end its last block.
    #[verifier::rlimit(40)]
    pub fn absorb_padded(&mut self, data: &[u8])
        ensures
            final(self).multiplier() == old(self).multiplier(),
            final(self).pad() == old(self).pad(),
            final(self).accumulator() == absorb(
                old(self).accumulator(),
                old(self).multiplier(),
                zero_pad16(data@),
            ),
    {
        let ghost start = self.accumulator();
        let ghost r = self.multiplier();
        let end = self.absorb_whole(data);
        let ghost done = data@.subrange(0, end as int);
        if end < data.len() {
            let last = padded_tail(data, end);
            self.absorb_block(last.as_slice(), 0);
            proof {
                assert(last@.subrange(0, 16) =~= last@);
                lemma_absorb_concat(start, r, done, last@);
                lemma_absorb_one_block(absorb(start, r, done), r, last@);
            }
        } else {
            assert(done =~= zero_pad16(data@));
        }
    }

    /// The tag: the accumulator plus the pad, in sixteen bytes.
    pub fn finish(&self) -> (tag: Vec<u8>)
        ensures
            tag@ == tag_bytes(self.accumulator(), self.pad()),
    {
        proof {
            use_type_invariant(self);
        }
        let carried = carry_pass(&self.h);
        let residue = reduce_once(&carried);
        let low = low_bits(&residue);
        let sum = low.wrapping_add(self.pad);
        proof {
            let acc = self.accumulator() as int;
            let m = two_128() as int;
            assert(residue.value() == acc);
            lemma_add_mod_noop(acc, self.pad as int, m);
            lemma_small_mod(self.pad as nat, two_128());
            assert(sum == (acc + self.pad) % m);
        }
        let mut tag: Vec<u8> = Vec::new();
        store_le(&mut tag, sum, 16);
        assert(tag@ =~= le_bytes(sum as nat, 16));
        tag
    }
}

/// The Poly1305 tag of `msg` under the 32-byte one-time key `key`.
pub fn mac(key: &[u8], msg: &[u8]) -> (tag: Vec<u8>)
    requires
        key@.len() == 32,
    ensures
        tag@ == tag_of(key@, msg@),
{
    let mut st = Poly1305::new(key);
    st.absorb_message(msg);
    st.finish()
}

} // verus!
