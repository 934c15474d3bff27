//! The ChaCha20 block function and the stream cipher built on it, as RFC 8439
//! defines them, and the HChaCha20 key derivation.
//!
//! The state is sixteen 32-bit words. Twenty rounds permute it; a block of
//! key stream is the permuted state added word by word to the state it came
//! from. Words are read from and written to bytes least significant byte
//! first.

use vstd::prelude::*;

verus! {

/// Addition modulo `2^32`.
pub open spec fn add32(x: u32, y: u32) -> u32 {
    ((x + y) % 0x1_0000_0000) as u32
}

/// `x` rotated left by `n` bits, for `0 < n < 32`.
pub open spec fn rotl(x: u32, n: u32) -> u32 {
    (x << n) | (x >> ((32 - n) as u32))
}

/// The quarter round on the words at `a`, `b`, `c` and `d`.
pub open spec fn quarter_round(s: Seq<u32>, a: int, b: int, c: int, d: int) -> Seq<u32> {
    let a1 = add32(s[a], s[b]);
    let d1 = rotl(s[d] ^ a1, 16);
    let c1 = add32(s[c], d1);
    let b1 = rotl(s[b] ^ c1, 12);
    let a2 = add32(a1, b1);
    let d2 = rotl(d1 ^ a2, 8);
    let c2 = add32(c1, d2);
    let b2 = rotl(b1 ^ c2, 7);
    s.update(a, a2).update(b, b2).update(c, c2).update(d, d2)
}

/// Four quarter rounds down the columns.
pub open spec fn column_round(s: Seq<u32>) -> Seq<u32> {
    quarter_round(
        quarter_round(quarter_round(quarter_round(s, 0, 4, 8, 12), 1, 5, 9, 13), 2, 6, 10, 14),
        3,
        7,
        11,
        15,
    )
}

/// Four quarter rounds down the diagonals.
pub open spec fn diagonal_round(s: Seq<u32>) -> Seq<u32> {
    quarter_round(
        quarter_round(quarter_round(quarter_round(s, 0, 5, 10, 15), 1, 6, 11, 12), 2, 7, 8, 13),
        3,
        4,
        9,
        14,
    )
}

/// `n` double rounds: a column round, then a diagonal round, `n` times.
pub open spec fn double_rounds(s: Seq<u32>, n: nat) -> Seq<u32>
    decreases n,
{
    if n == 0 {
        s
    } else {
        diagonal_round(column_round(double_rounds(s, (n - 1) as nat)))
    }
}

/// The twenty rounds of ChaCha20.
pub open spec fn permute(s: Seq<u32>) -> Seq<u32> {
    double_rounds(s, 10)
}

/// The `i`-th little-endian word of `s`.
pub open spec fn word(s: Seq<u8>, i: int) -> u32 {
    (s[4 * i] + 0x100 * s[4 * i + 1] + 0x1_0000 * s[4 * i + 2] + 0x100_0000 * s[4 * i + 3]) as u32
}

/// Byte `k` of the word `w`, counted from the least significant.
pub open spec fn byte_of(w: u32, k: int) -> u8 {
    if k == 0 {
        (w % 0x100) as u8
    } else if k == 1 {
        ((w / 0x100) % 0x100) as u8
    } else if k == 2 {
        ((w / 0x1_0000) % 0x100) as u8
    } else {
        (w / 0x100_0000) as u8
    }
}

/// The bytes of a sequence of words, each least significant byte first.
pub open spec fn serialize(words: Seq<u32>) -> Seq<u8> {
    Seq::new(4 * words.len(), |i: int| byte_of(words[i / 4], i % 4))
}

/// The state before the rounds: four constants, the key, the block counter
/// and the nonce.
pub open spec fn initial_state(key: Seq<u8>, counter: u32, nonce: Seq<u8>) -> Seq<u32> {
    seq![
        0x6170_7865u32,
        0x3320_646eu32,
        0x7962_2d32u32,
        0x6b20_6574u32,
        word(key, 0),
        word(key, 1),
        word(key, 2),
        word(key, 3),
        word(key, 4),
        word(key, 5),
        word(key, 6),
        word(key, 7),
        counter,
        word(nonce, 0),
        word(nonce, 1),
        word(nonce, 2),
    ]
}

/// The words of the key-stream block that a state gives.
pub open spec fn block_words(init: Seq<u32>) -> Seq<u32> {
    Seq::new(16, |i: int| add32(permute(init)[i], init[i]))
}

/// The 64 bytes of key stream for a 32-byte key, a block counter and a
/// 12-byte nonce.
pub open spec fn block(key: Seq<u8>, counter: u32, nonce: Seq<u8>) -> Seq<u8> {
    serialize(block_words(initial_state(key, counter, nonce)))
}

/// Byte `i` of the key stream whose first block has the counter `first`.
pub open spec fn keystream_byte(key: Seq<u8>, nonce: Seq<u8>, first: u32, i: int) -> u8 {
    block(key, (first + i / 64) as u32, nonce)[i % 64]
}

/// `data` with the key stream added to it, byte by byte.
pub open spec fn xor_stream(key: Seq<u8>, nonce: Seq<u8>, first: u32, data: Seq<u8>) -> Seq<u8> {
    Seq::new(data.len(), |i: int| data[i] ^ keystream_byte(key, nonce, first, i))
}

/// The key stream fits the counter: no block of `len` bytes of stream that
/// starts at `first` needs a counter above `2^32 - 1`.
pub open spec fn counter_fits(first: u32, len: nat) -> bool {
    len == 0 || first + (len - 1) / 64 <= u32::MAX
}

/// The state that HChaCha20 permutes: the constants, the key and sixteen
/// bytes of nonce.
pub open spec fn derivation_state(key: Seq<u8>, nonce: Seq<u8>) -> Seq<u32> {
    seq![
        0x6170_7865u32,
        0x3320_646eu32,
        0x7962_2d32u32,
        0x6b20_6574u32,
        word(key, 0),
        word(key, 1),
        word(key, 2),
        word(key, 3),
        word(key, 4),
        word(key, 5),
        word(key, 6),
        word(key, 7),
        word(nonce, 0),
        word(nonce, 1),
        word(nonce, 2),
        word(nonce, 3),
    ]
}

/// The 32-byte key that HChaCha20 derives from a 32-byte key and sixteen
/// bytes of nonce: the first and the last row of the permuted state.
pub open spec fn derived_key(key: Seq<u8>, nonce: Seq<u8>) -> Seq<u8> {
    let p = permute(derivation_state(key, nonce));
    serialize(seq![p[0], p[1], p[2], p[3], p[12], p[13], p[14], p[15]])
}

/// Adding the key stream twice gives the data back.
pub proof fn lemma_xor_stream_involution(
    key: Seq<u8>,
    nonce: Seq<u8>,
    first: u32,
    data: Seq<u8>,
)
    ensures
        xor_stream(key, nonce, first, xor_stream(key, nonce, first, data)) == data,
{
    let once = xor_stream(key, nonce, first, data);
    let twice = xor_stream(key, nonce, first, once);
    assert forall|i: int| 0 <= i < data.len() implies twice[i] == data[i] by {
        let k = keystream_byte(key, nonce, first, i);
        let d = data[i];
        assert((d ^ k) ^ k == d) by (bit_vector);
    }
    assert(twice =~= data);
}

/// `x` rotated left by `n` bits.
fn rotate(x: u32, n: u32) -> (r: u32)
    requires
        0 < n < 32,
    ensures
        r == rotl(x, n),
{
    (x << n) | (x >> (32 - n))
}

/// The sum modulo `2^32`.
fn plus(x: u32, y: u32) -> (r: u32)
    ensures
        r == add32(x, y),
{
    x.wrapping_add(y)
}

/// The quarter round, in place.
#[verifier::rlimit(40)]
fn quarter(st: &mut [u32; 16], a: usize, b: usize, c: usize, d: usize)
    requires
        a < 16,
        b < 16,
        c < 16,
        d < 16,
        a != b,
        a != c,
        a != d,
        b != c,
        b != d,
        c != d,
    ensures
        final(st)@ == quarter_round(old(st)@, a as int, b as int, c as int, d as int),
{
    let mut wa = st[a];
    let mut wb = st[b];
    let mut wc = st[c];
    let mut wd = st[d];
    wa = plus(wa, wb);
    wd = rotate(wd ^ wa, 16);
    wc = plus(wc, wd);
    wb = rotate(wb ^ wc, 12);
    wa = plus(wa, wb);
    wd = rotate(wd ^ wa, 8);
    wc = plus(wc, wd);
    wb = rotate(wb ^ wc, 7);
    st[a] = wa;
    st[b] = wb;
    st[c] = wc;
    st[d] = wd;
    assert(st@ =~= quarter_round(old(st)@, a as int, b as int, c as int, d as int));
}

/// The twenty rounds, in place.
fn rounds(st: &mut [u32; 16])
    ensures
        final(st)@ == permute(old(st)@),
{
    let mut n: u32 = 0;
    while n < 10
        invariant
            n <= 10,
            st@ == double_rounds(old(st)@, n as nat),
        decreases 10 - n,
    {
        quarter(st, 0, 4, 8, 12);
        quarter(st, 1, 5, 9, 13);
        quarter(st, 2, 6, 10, 14);
        quarter(st, 3, 7, 11, 15);
        quarter(st, 0, 5, 10, 15);
        quarter(st, 1, 6, 11, 12);
        quarter(st, 2, 7, 8, 13);
        quarter(st, 3, 4, 9, 14);
        n = n + 1;
    }
}

/// The `i`-th little-endian word of `bytes`.
fn load_word(bytes: &[u8], i: usize) -> (w: u32)
    requires
        4 * i + 4 <= bytes@.len(),
    ensures
        w == word(bytes@, i as int),
{
    let total = bytes.len();
    assert(4 * i + 4 <= total);
    let at = 4 * i;
    bytes[at] as u32 + 0x100 * (bytes[at + 1] as u32) + 0x1_0000 * (bytes[at + 2] as u32)
        + 0x100_0000 * (bytes[at + 3] as u32)
}

/// Appends the four bytes of `w`, least significant first.
fn store_word(out: &mut Vec<u8>, w: u32)
    ensures
        final(out)@ == old(out)@ + seq![byte_of(w, 0), byte_of(w, 1), byte_of(w, 2), byte_of(w, 3)],
{
    out.push((w % 0x100) as u8);
    out.push(((w / 0x100) % 0x100) as u8);
    out.push(((w / 0x1_0000) % 0x100) as u8);
    out.push((w / 0x100_0000) as u8);
    assert(out@ =~= old(out)@ + seq![
        byte_of(w, 0),
        byte_of(w, 1),
        byte_of(w, 2),
        byte_of(w, 3),
    ]);
}

/// The state before the rounds.
fn state_of(key: &[u8], counter: u32, nonce: &[u8]) -> (st: [u32; 16])
    requires
        key@.len() == 32,
        nonce@.len() == 12,
    ensures
        st@ == initial_state(key@, counter, nonce@),
{
    let st: [u32; 16] = [
        0x6170_7865,
        0x3320_646e,
        0x7962_2d32,
        0x6b20_6574,
        load_word(key, 0),
        load_word(key, 1),
        load_word(key, 2),
        load_word(key, 3),
        load_word(key, 4),
        load_word(key, 5),
        load_word(key, 6),
        load_word(key, 7),
        counter,
        load_word(nonce, 0),
        load_word(nonce, 1),
        load_word(nonce, 2),
    ];
    assert(st@ =~= initial_state(key@, counter, nonce@));
    st
}

/// The bytes of `words`, each least significant byte first.
fn write_words(words: &[u32]) -> (out: Vec<u8>)
    ensures
        out@ == serialize(words@),
{
    let n = words.len();
    let mut out: Vec<u8> = Vec::new();
    let mut i: usize = 0;
    while i < n
        invariant
            i <= n == words@.len(),
            out@ == serialize(words@).subrange(0, 4 * i),
        decreases n - i,
    {
        store_word(&mut out, words[i]);
        assert(out@ =~= serialize(words@).subrange(0, 4 * i + 4));
        i = i + 1;
    }
    assert(out@ =~= serialize(words@));
    out
}

/// The key-stream block of a state, as bytes.
#[verifier::rlimit(40)]
fn block_of(init: &[u32; 16]) -> (out: Vec<u8>)
    ensures
        out@ == serialize(block_words(init@)),
{
    let mut working: [u32; 16] = *init;
    rounds(&mut working);
    let mut i: usize = 0;
    while i < 16
        invariant
            i <= 16,
            working@.len() == 16,
            forall|k: int| 0 <= k < i ==> working@[k] == block_words(init@)[k],
            forall|k: int| i <= k < 16 ==> working@[k] == permute(init@)[k],
        decreases 16 - i,
    {
        working[i] = plus(working[i], init[i]);
        i = i + 1;
    }
    assert(working@ =~= block_words(init@));
    write_words(working.as_slice())
}

/// The 64 bytes of key stream for a 32-byte key, a block counter and a
/// 12-byte nonce.
pub fn key_stream_block(key: &[u8], counter: u32, nonce: &[u8]) -> (out: Vec<u8>)
    requires
        key@.len() == 32,
        nonce@.len() == 12,
    ensures
        out@ == block(key@, counter, nonce@),
{
    let st = state_of(key, counter, nonce);
    block_of(&st)
}

/// `data` from `at` on, up to the length of `ks`, with `ks` added.
spec fn xor_piece(data: Seq<u8>, at: int, n: int, ks: Seq<u8>) -> Seq<u8> {
    Seq::new(n as nat, |j: int| data[at + j] ^ ks[j])
}

/// The stream over one more block is the stream so far and that block with
/// its key stream added.
#[verifier::rlimit(40)]
proof fn lemma_stream_grows(
    key: Seq<u8>,
    nonce: Seq<u8>,
    first: u32,
    data: Seq<u8>,
    at: int,
    n: int,
    ks: Seq<u8>,
)
    requires
        0 <= at,
        at % 64 == 0,
        0 <= n <= 64,
        at + n <= data.len(),
        ks == block(key, (first + at / 64) as u32, nonce),
    ensures
        xor_stream(key, nonce, first, data).subrange(0, at) + xor_piece(data, at, n, ks)
            == xor_stream(key, nonce, first, data).subrange(0, at + n),
{
    let whole = xor_stream(key, nonce, first, data);
    let left = whole.subrange(0, at) + xor_piece(data, at, n, ks);
    let right = whole.subrange(0, at + n);
    assert forall|k: int| 0 <= k < at + n implies left[k] == right[k] by {
        if k >= at {
            let j = k - at;
            assert(k / 64 == at / 64 && k % 64 == j);
            assert(left[k] == xor_piece(data, at, n, ks)[j]);
        }
    }
    assert(left =~= right);
}

/// Appends to `out` the block of `data` that starts at `at`, with `ks`
/// added, and says where the block ends.
#[verifier::rlimit(40)]
fn xor_block(out: &mut Vec<u8>, data: &[u8], at: usize, ks: &[u8]) -> (end: usize)
    requires
        at < data@.len(),
        ks@.len() == 64,
    ensures
        at < end <= data@.len(),
        end == at + 64 || (end == data@.len() && end < at + 64),
        final(out)@ == old(out)@ + xor_piece(data@, at as int, end - at, ks@),
{
    let len = data.len();
    let mut j: usize = 0;
    assert(out@ + xor_piece(data@, at as int, 0, ks@) =~= out@);
    while j < 64 && j < len - at
        invariant
            j <= 64,
            at < len == data@.len(),
            j <= len - at,
            ks@.len() == 64,
            out@ == old(out)@ + xor_piece(data@, at as int, j as int, ks@),
        decreases 64 - j,
    {
        out.push(data[at + j] ^ ks[j]);
        j = j + 1;
        assert(out@ =~= old(out)@ + xor_piece(data@, at as int, j as int, ks@));
    }
    at + j
}

/// Adds to `data` the key stream whose first block has the counter `first`.
#[verifier::rlimit(40)]
pub fn apply_key_stream(key: &[u8], nonce: &[u8], first: u32, data: &[u8]) -> (out: Vec<u8>)
    requires
        key@.len() == 32,
        nonce@.len() == 12,
        counter_fits(first, data@.len()),
    ensures
        out@ == xor_stream(key@, nonce@, first, data@),
{
    let len = data.len();
    let mut counter: u32 = first;
    let mut out: Vec<u8> = Vec::with_capacity(len);
    let mut i: usize = 0;
    let ghost whole = xor_stream(key@, nonce@, first, data@);
    assert(whole.subrange(0, 0) =~= out@);
    while i < len
        invariant
            key@.len() == 32,
            nonce@.len() == 12,
            i <= len == data@.len(),
            i < len ==> i % 64 == 0,
            i < len ==> counter == first + i / 64,
            first + (len - 1) / 64 <= u32::MAX,
            whole == xor_stream(key@, nonce@, first, data@),
            out@ == whole.subrange(0, i as int),
        decreases len - i,
    {
        let ks = key_stream_block(key, counter, nonce);
        let end = xor_block(&mut out, data, i, ks.as_slice());
        proof {
            lemma_stream_grows(key@, nonce@, first, data@, i as int, end - i, ks@);
        }
        if end < len {
            assert(end / 64 == i / 64 + 1);
            assert(end / 64 <= (len - 1) / 64);
            counter = counter + 1;
        }
        i = end;
    }
    assert(whole.subrange(0, len as int) =~= whole);
    out
}

/// The state that the key derivation permutes.
fn derivation_state_of(key: &[u8], nonce: &[u8]) -> (st: [u32; 16])
    requires
        key@.len() == 32,
        nonce@.len() == 16,
    ensures
        st@ == derivation_state(key@, nonce@),
{
    let st: [u32; 16] = [
        0x6170_7865,
        0x3320_646e,
        0x7962_2d32,
        0x6b20_6574,
        load_word(key, 0),
        load_word(key, 1),
        load_word(key, 2),
        load_word(key, 3),
        load_word(key, 4),
        load_word(key, 5),
        load_word(key, 6),
        load_word(key, 7),
        load_word(nonce, 0),
        load_word(nonce, 1),
        load_word(nonce, 2),
        load_word(nonce, 3),
    ];
    assert(st@ =~= derivation_state(key@, nonce@));
    st
}

/// The 32-byte key that HChaCha20 derives from a 32-byte key and sixteen
/// bytes of nonce.
pub fn derive_key(key: &[u8], nonce: &[u8]) -> (out: Vec<u8>)
    requires
        key@.len() == 32,
        nonce@.len() == 16,
    ensures
        out@ == derived_key(key@, nonce@),
{
    let mut st = derivation_state_of(key, nonce);
    rounds(&mut st);
    let rows: [u32; 8] = [st[0], st[1], st[2], st[3], st[12], st[13], st[14], st[15]];
    let ghost p = permute(derivation_state(key@, nonce@));
    assert(rows@ =~= seq![p[0], p[1], p[2], p[3], p[12], p[13], p[14], p[15]]);
    write_words(rows.as_slice())
}

} // verus!
