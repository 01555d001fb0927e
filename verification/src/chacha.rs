//! The keyed hashing and stream decryption used by the game's asset
//! bundle: a ChaCha-style permutation over sixteen 32-bit words, plus the
//! NASAM mixer that derives 64-bit keys.
use vstd::bytes::{spec_u32_from_le_bytes, spec_u32_to_le_bytes, u32_from_le_bytes, u32_to_le_bytes};
use vstd::bytes::{spec_u64_from_le_bytes, spec_u64_to_le_bytes, u64_from_le_bytes, u64_to_le_bytes};
use vstd::prelude::*;

verus! {

/// Right rotation of a 64-bit word.
pub open spec fn rotr64(x: u64, n: u64) -> u64
    recommends
        0 < n < 64,
{
    (x >> n) | (x << ((64 - n) as u64))
}

fn exec_rotr64(x: u64, n: u64) -> (r: u64)
    requires
        0 < n < 64,
    ensures
        r == rotr64(x, n),
{
    (x >> n) | (x << (64 - n))
}

/// Left rotation of a 32-bit word.
pub open spec fn rotl32(x: u32, n: u32) -> u32
    recommends
        0 < n < 32,
{
    (x << n) | (x >> ((32 - n) as u32))
}

fn exec_rotl32(x: u32, n: u32) -> (r: u32)
    requires
        0 < n < 32,
    ensures
        r == rotl32(x, n),
{
    (x << n) | (x >> (32 - n))
}

/// 64-bit wrapping addition.
pub open spec fn wadd64(x: u64, y: u64) -> u64 {
    vstd::wrapping::u64_specs::wrapping_add(x, y)
}

/// 64-bit wrapping multiplication.
pub open spec fn wmul64(x: u64, y: u64) -> u64 {
    vstd::wrapping::u64_specs::wrapping_mul(x, y)
}

/// 32-bit wrapping addition.
pub open spec fn wadd32(x: u32, y: u32) -> u32 {
    vstd::wrapping::u32_specs::wrapping_add(x, y)
}

/// The NASAM mixing function, keyed by xoring a constant in before and
/// after the mix.
pub open spec fn xnasamx_spec(constant: u64, data: u64) -> u64 {
    let d0 = data ^ constant;
    let d1 = d0 ^ (rotr64(d0, 25) ^ rotr64(d0, 47));
    let d2 = wmul64(d1, 0x9E6C63D0676A9A99);
    let d3 = d2 ^ ((d2 >> 23) ^ (d2 >> 51));
    let d4 = wmul64(d3, 0x9E6D62D06F6A9A9B);
    let d5 = d4 ^ ((d4 >> 23) ^ (d4 >> 51));
    d5 ^ constant
}

pub fn xnasamx(constant: u64, data: u64) -> (r: u64)
    ensures
        r == xnasamx_spec(constant, data),
{
    let mut data = data;

    data ^= constant;
    data ^= exec_rotr64(data, 25) ^ exec_rotr64(data, 47);
    data = data.wrapping_mul(0x9E6C63D0676A9A99);

    data ^= data >> 23 ^ data >> 51;
    data = data.wrapping_mul(0x9E6D62D06F6A9A9B);
    data ^= data >> 23 ^ data >> 51;

    data ^= constant;

    data
}

/// Derives a fresh 64-bit key from each datum it is fed, chaining the
/// previously produced key in as the mixing constant.
pub struct NasamGenerator {
    pub previous_key: u64,
}

impl Default for NasamGenerator {
    fn default() -> (r: Self)
        ensures
            r.previous_key == 0,
    {
        NasamGenerator { previous_key: 0 }
    }
}

impl NasamGenerator {
    pub fn get_next_key(&mut self, data: u64) -> (r: u64)
        ensures
            r == xnasamx_spec(old(self).previous_key, data),
            final(self).previous_key == r,
    {
        let new_key = xnasamx(self.previous_key, data);
        self.previous_key = new_key;
        new_key
    }
}

/// The words encoded by a byte sequence, read four bytes at a time in
/// little-endian order; trailing bytes beyond a multiple of four are
/// dropped.
pub open spec fn bytes_to_words_spec(bs: Seq<u8>) -> Seq<u32> {
    Seq::new(bs.len() / 4, |i: int| spec_u32_from_le_bytes(bs.subrange(4 * i, 4 * i + 4)))
}

/// The little-endian encoding of a word sequence.
pub open spec fn words_to_bytes_spec(ws: Seq<u32>) -> Seq<u8> {
    Seq::new(ws.len() * 4, |i: int| spec_u32_to_le_bytes(ws[i / 4])[i % 4])
}

/// The 64-bit quads encoded by a byte sequence, read eight bytes at a
/// time in little-endian order.
pub open spec fn bytes_to_quads_spec(bs: Seq<u8>) -> Seq<u64> {
    Seq::new(bs.len() / 8, |i: int| spec_u64_from_le_bytes(bs.subrange(8 * i, 8 * i + 8)))
}

/// The little-endian encoding of a quad sequence.
pub open spec fn quads_to_bytes_spec(qs: Seq<u64>) -> Seq<u8> {
    Seq::new(qs.len() * 8, |i: int| spec_u64_to_le_bytes(qs[i / 8])[i % 8])
}

pub fn words_to_bytes(words: &Vec<u32>) -> (r: Vec<u8>)
    ensures
        r@ == words_to_bytes_spec(words@),
{
    let mut bytes: Vec<u8> = Vec::new();
    let mut j: usize = 0;
    while j < words.len()
        invariant
            j <= words.len(),
            bytes@.len() == 4 * j,
            forall|i: int|
                0 <= i < bytes@.len() ==> bytes@[i] == spec_u32_to_le_bytes(words@[i / 4])[i % 4],
        decreases words.len() - j,
    {
        let enc = u32_to_le_bytes(words[j]);
        let mut k: usize = 0;
        while k < 4
            invariant
                k <= 4,
                enc@ == spec_u32_to_le_bytes(words@[j as int]),
                enc@.len() == 4,
                j < words.len(),
                bytes@.len() == 4 * j + k,
                forall|i: int|
                    0 <= i < bytes@.len() ==> bytes@[i] == spec_u32_to_le_bytes(words@[i / 4])[i
                        % 4],
            decreases 4 - k,
    {
            let ghost old_len = bytes@.len() as int;
            bytes.push(enc[k]);
            proof {
                assert(old_len / 4 == j && old_len % 4 == k) by (nonlinear_arith)
                    requires
                        old_len == 4 * j + k,
                        0 <= k < 4,
                        0 <= j,
                ;
            }
            k += 1;
        }
        j += 1;
    }
    proof {
        assert(bytes@ =~= words_to_bytes_spec(words@));
    }
    bytes
}

pub fn bytes_to_words(bytes: &Vec<u8>) -> (r: Vec<u32>)
    requires
        bytes@.len() % 4 == 0,
    ensures
        r@ == bytes_to_words_spec(bytes@),
{
    let mut words: Vec<u32> = Vec::new();
    let mut j: usize = 0;
    while bytes.len() - j >= 4
        invariant
            bytes@.len() % 4 == 0,
            j % 4 == 0,
            j <= bytes@.len(),
            words@.len() == j / 4,
            forall|i: int|
                0 <= i < words@.len() ==> words@[i] == spec_u32_from_le_bytes(
                    bytes@.subrange(4 * i, 4 * i + 4),
                ),
        decreases bytes.len() - j,
    {
        let b0 = bytes[j];
        let b1 = bytes[j + 1];
        let b2 = bytes[j + 2];
        let b3 = bytes[j + 3];
        let word_bytes: [u8; 4] = [b0, b1, b2, b3];
        let w = u32_from_le_bytes(word_bytes.as_slice());
        proof {
            assert(word_bytes@ =~= bytes@.subrange(j as int, j + 4));
            assert(4 * ((j / 4) as int) == j as int);
        }
        words.push(w);
        j += 4;
    }
    proof {
        assert(bytes@.len() - j < 4);
        assert(j == bytes@.len());
        assert(words@ =~= bytes_to_words_spec(bytes@));
    }
    words
}

pub fn quads_to_bytes(quads: &Vec<u64>) -> (r: Vec<u8>)
    ensures
        r@ == quads_to_bytes_spec(quads@),
{
    let mut bytes: Vec<u8> = Vec::new();
    let mut j: usize = 0;
    while j < quads.len()
        invariant
            j <= quads.len(),
            bytes@.len() == 8 * j,
            forall|i: int|
                0 <= i < bytes@.len() ==> bytes@[i] == spec_u64_to_le_bytes(quads@[i / 8])[i % 8],
        decreases quads.len() - j,
    {
        let enc = u64_to_le_bytes(quads[j]);
        let mut k: usize = 0;
        while k < 8
            invariant
                k <= 8,
                enc@ == spec_u64_to_le_bytes(quads@[j as int]),
                enc@.len() == 8,
                j < quads.len(),
                bytes@.len() == 8 * j + k,
                forall|i: int|
                    0 <= i < bytes@.len() ==> bytes@[i] == spec_u64_to_le_bytes(quads@[i / 8])[i
                        % 8],
            decreases 8 - k,
    {
            let ghost old_len = bytes@.len() as int;
            bytes.push(enc[k]);
            proof {
                assert(old_len / 8 == j && old_len % 8 == k) by (nonlinear_arith)
                    requires
                        old_len == 8 * j + k,
                        0 <= k < 8,
                        0 <= j,
                ;
            }
            k += 1;
        }
        j += 1;
    }
    proof {
        assert(bytes@ =~= quads_to_bytes_spec(quads@));
    }
    bytes
}

pub fn bytes_to_quads(bytes: &Vec<u8>) -> (r: Vec<u64>)
    requires
        bytes@.len() % 8 == 0,
    ensures
        r@ == bytes_to_quads_spec(bytes@),
{
    let mut quads: Vec<u64> = Vec::new();
    let mut j: usize = 0;
    while bytes.len() - j >= 8
        invariant
            bytes@.len() % 8 == 0,
            j % 8 == 0,
            j <= bytes@.len(),
            quads@.len() == j / 8,
            forall|i: int|
                0 <= i < quads@.len() ==> quads@[i] == spec_u64_from_le_bytes(
                    bytes@.subrange(8 * i, 8 * i + 8),
                ),
        decreases bytes.len() - j,
    {
        let quad_bytes: [u8; 8] = [
            bytes[j],
            bytes[j + 1],
            bytes[j + 2],
            bytes[j + 3],
            bytes[j + 4],
            bytes[j + 5],
            bytes[j + 6],
            bytes[j + 7],
        ];
        let q = u64_from_le_bytes(quad_bytes.as_slice());
        proof {
            assert(quad_bytes@ =~= bytes@.subrange(j as int, j + 8));
            assert(8 * ((j / 8) as int) == j as int);
        }
        quads.push(q);
        j += 8;
    }
    proof {
        assert(bytes@.len() - j < 8);
        assert(j == bytes@.len());
        assert(quads@ =~= bytes_to_quads_spec(bytes@));
    }
    quads
}

/// One ChaCha quarter round applied at word positions `a`, `b`, `c`, `d`.
pub open spec fn quarter_round_spec(s: Seq<u32>, a: int, b: int, c: int, d: int) -> Seq<u32>
    recommends
        0 <= a < s.len(),
        0 <= b < s.len(),
        0 <= c < s.len(),
        0 <= d < s.len(),
{
    let s1 = s.update(a, wadd32(s[a], s[b]));
    let s2 = s1.update(d, s1[d] ^ s1[a]);
    let s3 = s2.update(d, rotl32(s2[d], 16));
    let s4 = s3.update(c, wadd32(s3[c], s3[d]));
    let s5 = s4.update(b, s4[b] ^ s4[c]);
    let s6 = s5.update(b, rotl32(s5[b], 12));
    let s7 = s6.update(a, wadd32(s6[a], s6[b]));
    let s8 = s7.update(d, s7[d] ^ s7[a]);
    let s9 = s8.update(d, rotl32(s8[d], 8));
    let s10 = s9.update(c, wadd32(s9[c], s9[d]));
    let s11 = s10.update(b, s10[b] ^ s10[c]);
    s11.update(b, rotl32(s11[b], 7))
}

pub fn quarter_round(words: &mut Vec<u32>, a: usize, b: usize, c: usize, d: usize)
    requires
        a < old(words)@.len(),
        b < old(words)@.len(),
        c < old(words)@.len(),
        d < old(words)@.len(),
    ensures
        final(words)@ == quarter_round_spec(old(words)@, a as int, b as int, c as int, d as int),
{
    let va = words[a].wrapping_add(words[b]);
    words.set(a, va);
    let vd = words[d] ^ words[a];
    words.set(d, vd);
    let vd = exec_rotl32(words[d], 16);
    words.set(d, vd);
    let vc = words[c].wrapping_add(words[d]);
    words.set(c, vc);
    let vb = words[b] ^ words[c];
    words.set(b, vb);
    let vb = exec_rotl32(words[b], 12);
    words.set(b, vb);
    let va = words[a].wrapping_add(words[b]);
    words.set(a, va);
    let vd = words[d] ^ words[a];
    words.set(d, vd);
    let vd = exec_rotl32(words[d], 8);
    words.set(d, vd);
    let vc = words[c].wrapping_add(words[d]);
    words.set(c, vc);
    let vb = words[b] ^ words[c];
    words.set(b, vb);
    let vb = exec_rotl32(words[b], 7);
    words.set(b, vb);
}

/// One double round: four column quarter rounds, then four diagonal ones.
#[verifier::opaque]
pub open spec fn round_pair_spec(s: Seq<u32>) -> Seq<u32>
    recommends
        s.len() == 16,
{
    let s1 = quarter_round_spec(s, 0, 4, 8, 12);
    let s2 = quarter_round_spec(s1, 1, 5, 9, 13);
    let s3 = quarter_round_spec(s2, 2, 6, 10, 14);
    let s4 = quarter_round_spec(s3, 3, 7, 11, 15);
    let s5 = quarter_round_spec(s4, 0, 5, 10, 15);
    let s6 = quarter_round_spec(s5, 1, 6, 11, 12);
    let s7 = quarter_round_spec(s6, 2, 7, 8, 13);
    quarter_round_spec(s7, 3, 4, 9, 14)
}

pub fn round_pair(words: &mut Vec<u32>)
    requires
        old(words)@.len() == 16,
    ensures
        final(words)@ == round_pair_spec(old(words)@),
{
    proof {
        reveal(round_pair_spec);
    }
    quarter_round(words, 0, 4, 8, 12);
    quarter_round(words, 1, 5, 9, 13);
    quarter_round(words, 2, 6, 10, 14);
    quarter_round(words, 3, 7, 11, 15);
    quarter_round(words, 0, 5, 10, 15);
    quarter_round(words, 1, 6, 11, 12);
    quarter_round(words, 2, 7, 8, 13);
    quarter_round(words, 3, 4, 9, 14);
}

/// Two double rounds over the word form of a 64-byte block.
pub open spec fn two_rounds_spec(bs: Seq<u8>) -> Seq<u8> {
    words_to_bytes_spec(round_pair_spec(round_pair_spec(bytes_to_words_spec(bs))))
}

pub fn two_rounds(bytes: &Vec<u8>) -> (r: Vec<u8>)
    requires
        bytes@.len() == 64,
    ensures
        r@ == two_rounds_spec(bytes@),
        r@.len() == 64,
{
    let mut words = bytes_to_words(bytes);
    proof {
        lemma_round_pair_len(words@);
    }
    round_pair(&mut words);
    proof {
        lemma_round_pair_len(words@);
    }
    round_pair(&mut words);
    let r = words_to_bytes(&words);
    r
}

/// Four double rounds over the word form of a 64-byte block.
pub open spec fn quad_rounds_spec(bs: Seq<u8>) -> Seq<u8> {
    words_to_bytes_spec(
        round_pair_spec(
            round_pair_spec(round_pair_spec(round_pair_spec(bytes_to_words_spec(bs)))),
        ),
    )
}

pub fn quad_rounds(bytes: &Vec<u8>) -> (r: Vec<u8>)
    requires
        bytes@.len() == 64,
    ensures
        r@ == quad_rounds_spec(bytes@),
        r@.len() == 64,
{
    let mut words = bytes_to_words(bytes);
    proof {
        lemma_round_pair_len(words@);
    }
    round_pair(&mut words);
    proof {
        lemma_round_pair_len(words@);
    }
    round_pair(&mut words);
    proof {
        lemma_round_pair_len(words@);
    }
    round_pair(&mut words);
    proof {
        lemma_round_pair_len(words@);
    }
    round_pair(&mut words);
    let r = words_to_bytes(&words);
    r
}

proof fn lemma_quarter_round_len(s: Seq<u32>, a: int, b: int, c: int, d: int)
    requires
        0 <= a < s.len(),
        0 <= b < s.len(),
        0 <= c < s.len(),
        0 <= d < s.len(),
    ensures
        quarter_round_spec(s, a, b, c, d).len() == s.len(),
{
}

proof fn lemma_round_pair_len(s: Seq<u32>)
    requires
        s.len() == 16,
    ensures
        round_pair_spec(s).len() == 16,
{
    reveal(round_pair_spec);
    let s1 = quarter_round_spec(s, 0, 4, 8, 12);
    lemma_quarter_round_len(s, 0, 4, 8, 12);
    let s2 = quarter_round_spec(s1, 1, 5, 9, 13);
    lemma_quarter_round_len(s1, 1, 5, 9, 13);
    let s3 = quarter_round_spec(s2, 2, 6, 10, 14);
    lemma_quarter_round_len(s2, 2, 6, 10, 14);
    let s4 = quarter_round_spec(s3, 3, 7, 11, 15);
    lemma_quarter_round_len(s3, 3, 7, 11, 15);
    let s5 = quarter_round_spec(s4, 0, 5, 10, 15);
    lemma_quarter_round_len(s4, 0, 5, 10, 15);
    let s6 = quarter_round_spec(s5, 1, 6, 11, 12);
    lemma_quarter_round_len(s5, 1, 6, 11, 12);
    let s7 = quarter_round_spec(s6, 2, 7, 8, 13);
    lemma_quarter_round_len(s6, 2, 7, 8, 13);
    lemma_quarter_round_len(s7, 3, 4, 9, 14);
}

proof fn lemma_round_len(bs: Seq<u8>)
    requires
        bs.len() == 64,
    ensures
        two_rounds_spec(bs).len() == 64,
        quad_rounds_spec(bs).len() == 64,
{
    let w0 = bytes_to_words_spec(bs);
    assert(w0.len() == 16);
    let w1 = round_pair_spec(w0);
    lemma_round_pair_len(w0);
    let w2 = round_pair_spec(w1);
    lemma_round_pair_len(w1);
    let w3 = round_pair_spec(w2);
    lemma_round_pair_len(w2);
    let w4 = round_pair_spec(w3);
    lemma_round_pair_len(w3);
    assert(words_to_bytes_spec(w2).len() == 64);
    assert(words_to_bytes_spec(w4).len() == 64);
}

/// Pointwise xor of two byte sequences, truncated to the shorter one.
pub open spec fn xor_bytes_spec(b1: Seq<u8>, b2: Seq<u8>) -> Seq<u8> {
    let n = if b1.len() <= b2.len() {
        b1.len() as int
    } else {
        b2.len() as int
    };
    Seq::new(n as nat, |i: int| b1[i] ^ b2[i])
}

pub fn xor_bytes(bytes1: &Vec<u8>, bytes2: &Vec<u8>) -> (r: Vec<u8>)
    ensures
        r@ == xor_bytes_spec(bytes1@, bytes2@),
{
    let n = if bytes1.len() <= bytes2.len() {
        bytes1.len()
    } else {
        bytes2.len()
    };
    let mut out: Vec<u8> = Vec::new();
    let mut i: usize = 0;
    while i < n
        invariant
            i <= n,
            n == if bytes1@.len() <= bytes2@.len() {
                bytes1@.len() as int
            } else {
                bytes2@.len() as int
            },
            out@.len() == i,
            forall|k: int| 0 <= k < i ==> out@[k] == (bytes1@[k] ^ bytes2@[k]),
        decreases n - i,
    {
        out.push(bytes1[i] ^ bytes2[i]);
        i += 1;
    }
    proof {
        assert(out@ =~= xor_bytes_spec(bytes1@, bytes2@));
    }
    out
}

/// The quad-wise wrapping sum of two byte sequences, each read as
/// little-endian 64-bit quads, re-encoded as bytes.
pub open spec fn add_bytes_as_quads_spec(b1: Seq<u8>, b2: Seq<u8>) -> Seq<u8> {
    let q1 = bytes_to_quads_spec(b1);
    let q2 = bytes_to_quads_spec(b2);
    let n = if q1.len() <= q2.len() {
        q1.len() as int
    } else {
        q2.len() as int
    };
    quads_to_bytes_spec(Seq::new(n as nat, |i: int| wadd64(q1[i], q2[i])))
}

pub fn add_bytes_as_quads(bytes1: &Vec<u8>, bytes2: &Vec<u8>) -> (r: Vec<u8>)
    requires
        bytes1@.len() % 8 == 0,
        bytes2@.len() % 8 == 0,
    ensures
        r@ == add_bytes_as_quads_spec(bytes1@, bytes2@),
{
    let q1 = bytes_to_quads(bytes1);
    let q2 = bytes_to_quads(bytes2);
    let n = if q1.len() <= q2.len() {
        q1.len()
    } else {
        q2.len()
    };
    let mut sums: Vec<u64> = Vec::new();
    let mut i: usize = 0;
    while i < n
        invariant
            i <= n,
            n <= q1@.len(),
            n <= q2@.len(),
            sums@.len() == i,
            forall|k: int| 0 <= k < i ==> sums@[k] == wadd64(q1@[k], q2@[k]),
        decreases n - i,
    {
        sums.push(q1[i].wrapping_add(q2[i]));
        i += 1;
    }
    proof {
        assert(sums@ =~= Seq::new(
            n as nat,
            |i: int| wadd64(bytes_to_quads_spec(bytes1@)[i], bytes_to_quads_spec(bytes2@)[i]),
        ));
    }
    quads_to_bytes(&sums)
}

/// Folds a byte string into a state block: each chunk (of the block's
/// length) is xored in reversed, and the block is stirred with four
/// double rounds after every chunk.
pub open spec fn mix_in_spec(h: Seq<u8>, s: Seq<u8>) -> Seq<u8>
    decreases s.len(),
{
    if s.len() == 0 || h.len() == 0 {
        h
    } else {
        let amount = if h.len() <= s.len() {
            h.len() as int
        } else {
            s.len() as int
        };
        let mixed = Seq::new(
            h.len(),
            |i: int|
                if i < amount {
                    h[i] ^ s[amount - 1 - i]
                } else {
                    h[i]
                },
        );
        mix_in_spec(quad_rounds_spec(mixed), s.skip(amount))
    }
}

pub fn mix_in(h: &Vec<u8>, s: &Vec<u8>) -> (r: Vec<u8>)
    requires
        h@.len() == 64,
    ensures
        r@ == mix_in_spec(h@, s@),
        r@.len() == 64,
{
    let mut out: Vec<u8> = h.clone();
    let mut pos: usize = 0;
    proof {
        assert(s@.skip(0) =~= s@);
    }
    while pos < s.len()
        invariant
            pos <= s@.len(),
            out@.len() == 64,
            mix_in_spec(out@, s@.skip(pos as int)) == mix_in_spec(h@, s@),
        decreases s.len() - pos,
    {
        let remaining = s.len() - pos;
        let amount = if remaining < 64 {
            remaining
        } else {
            64
        };
        let ghost rest = s@.skip(pos as int);
        let ghost out0 = out@;
        let mut idx: usize = 0;
        while idx < amount
            invariant
                idx <= amount,
                amount <= 64,
                pos + amount <= s@.len(),
                s@.len() <= usize::MAX,
                rest == s@.skip(pos as int),
                out@.len() == 64,
                forall|i: int| 0 <= i < idx ==> out@[i] == (out0[i] ^ rest[amount - 1 - i]),
                forall|i: int| idx <= i < 64 ==> out@[i] == out0[i],
            decreases amount - idx,
        {
            let j = amount - 1 - idx;
            let v = out[idx] ^ s[pos + j];
            out.set(idx, v);
            proof {
                assert(s@.skip(pos as int)[j as int] == s@[j as int + pos as int]);
            }
            idx += 1;
        }
        let ghost mixed = Seq::new(
            out0.len(),
            |i: int|
                if i < amount {
                    out0[i] ^ rest[amount - 1 - i]
                } else {
                    out0[i]
                },
        );
        proof {
            assert(out@ =~= mixed);
            assert(rest.skip(amount as int) =~= s@.skip(pos + amount));
            assert(mix_in_spec(out0, rest) == mix_in_spec(quad_rounds_spec(mixed), rest.skip(amount as int)));
        }
        out = quad_rounds(&out);
        pos += amount;
    }
    proof {
        assert(s@.skip(pos as int) =~= Seq::<u8>::empty());
    }
    out
}

/// Folds a file path into a 64-byte state block; the chunks come from
/// the path, the block is the running state.
pub open spec fn mix_in_filepath_spec(filepath: Seq<u8>, h: Seq<u8>) -> Seq<u8> {
    mix_in_spec(h, filepath)
}

pub fn mix_in_filepath(filepath: &Vec<u8>, h: &Vec<u8>) -> (r: Vec<u8>)
    requires
        h@.len() == 64,
    ensures
        r@ == mix_in_filepath_spec(filepath@, h@),
        r@.len() == 64,
{
    mix_in(h, filepath)
}

/// Xors each 64-byte chunk of the input with the reversed prefix of the
/// key that matches the chunk's length.
pub open spec fn keyed_hashing_spec(fp: Seq<u8>, key: Seq<u8>) -> Seq<u8>
    recommends
        key.len() == 64,
    decreases fp.len(),
{
    if fp.len() == 0 {
        Seq::empty()
    } else {
        let amount = if fp.len() < 64 {
            fp.len() as int
        } else {
            64
        };
        Seq::new(amount as nat, |i: int| fp[i] ^ key[amount - 1 - i]) + keyed_hashing_spec(
            fp.skip(amount),
            key,
        )
    }
}

pub fn keyed_hashing(filepath: &Vec<u8>, key: &Vec<u8>) -> (r: Vec<u8>)
    requires
        key@.len() == 64,
    ensures
        r@ == keyed_hashing_spec(filepath@, key@),
{
    let mut out: Vec<u8> = Vec::new();
    let mut pos: usize = 0;
    proof {
        assert(filepath@.skip(0) =~= filepath@);
    }
    while pos < filepath.len()
        invariant
            pos <= filepath@.len(),
            out@.len() == pos,
            key@.len() == 64,
            out@ + keyed_hashing_spec(filepath@.skip(pos as int), key@) == keyed_hashing_spec(
                filepath@,
                key@,
            ),
        decreases filepath.len() - pos,
    {
        let remaining = filepath.len() - pos;
        let amount = if remaining < 64 {
            remaining
        } else {
            64
        };
        let ghost rest = filepath@.skip(pos as int);
        let ghost out0 = out@;
        let mut idx: usize = 0;
        while idx < amount
            invariant
                idx <= amount,
                amount <= 64,
                pos + amount <= filepath@.len(),
                filepath@.len() <= usize::MAX,
                key@.len() == 64,
                out0.len() == pos,
                out@.len() == out0.len() + idx,
                rest == filepath@.skip(pos as int),
                forall|i: int| 0 <= i < out0.len() ==> out@[i] == out0[i],
                forall|i: int|
                    0 <= i < idx ==> out@[out0.len() + i] == (rest[i] ^ key@[amount - 1 - i]),
            decreases amount - idx,
        {
            let j = amount - 1 - idx;
            let v = filepath[pos + idx] ^ key[j];
            out.push(v);
            proof {
                assert(filepath@.skip(pos as int)[idx as int] == filepath@[idx as int
                    + pos as int]);
            }
            idx += 1;
        }
        proof {
            let chunk = Seq::new(amount as nat, |i: int| rest[i] ^ key@[amount - 1 - i]);
            assert(out@ =~= out0 + chunk);
            assert(rest.skip(amount as int) =~= filepath@.skip(pos + amount));
            assert(keyed_hashing_spec(rest, key@) =~= chunk + keyed_hashing_spec(
                rest.skip(amount as int),
                key@,
            ));
            assert((out0 + chunk) + keyed_hashing_spec(rest.skip(amount as int), key@) =~= out0 + (
            chunk + keyed_hashing_spec(rest.skip(amount as int), key@)));
        }
        pos += amount;
    }
    proof {
        assert(filepath@.skip(pos as int) =~= Seq::<u8>::empty());
        assert(out@ + Seq::<u8>::empty() =~= out@);
    }
    out
}

/// The key byte that decryption xors against position `i` of an input of
/// length `n`: within whole 64-byte blocks the key is used reversed and
/// cycled; the trailing partial block uses the reversed prefix of the key
/// that matches its length.
pub open spec fn decrypt_key_byte(key: Seq<u8>, n: int, i: int) -> u8
    recommends
        key.len() == 64,
        0 <= i < n,
{
    if i < 64 * (n / 64) {
        key[63 - (i % 64)]
    } else {
        key[(n % 64) - 1 - (i - 64 * (n / 64))]
    }
}

/// The xor stream decryption shared by both cipher versions.
pub open spec fn decrypt_common_spec(data: Seq<u8>, key: Seq<u8>) -> Seq<u8>
    recommends
        key.len() == 64,
{
    Seq::new(data.len(), |i: int| data[i] ^ decrypt_key_byte(key, data.len() as int, i))
}

pub fn decrypt_common(data: &Vec<u8>, key: &Vec<u8>) -> (r: Vec<u8>)
    requires
        key@.len() == 64,
    ensures
        r@ == decrypt_common_spec(data@, key@),
{
    let n = data.len();
    let rem = n % 64;
    let bound = n - rem;
    proof {
        vstd::arithmetic::div_mod::lemma_fundamental_div_mod(n as int, 64);
        assert(bound == 64 * ((n as int) / 64));
    }
    let mut out: Vec<u8> = Vec::new();
    let mut i: usize = 0;
    while i < n
        invariant
            i <= n,
            n == data@.len(),
            key@.len() == 64,
            rem == (n as int) % 64,
            bound == 64 * ((n as int) / 64),
            n == bound + rem,
            out@.len() == i,
            forall|k: int|
                0 <= k < i ==> out@[k] == (data@[k] ^ decrypt_key_byte(key@, n as int, k)),
        decreases n - i,
    {
        let kb = if i < bound {
            proof {
                vstd::arithmetic::div_mod::lemma_fundamental_div_mod(i as int, 64);
            }
            key[63 - (i % 64)]
        } else {
            key[rem - 1 - (i - bound)]
        };
        out.push(data[i] ^ kb);
        i += 1;
    }
    proof {
        assert(out@ =~= decrypt_common_spec(data@, key@));
    }
    out
}

fn quad_vec(q0: u64, q1: u64) -> (r: Vec<u64>)
    ensures
        r@ == seq![q0, q1, 0u64, 0u64, 0u64, 0u64, 0u64, 0u64],
{
    let mut q: Vec<u64> = Vec::new();
    q.push(q0);
    q.push(q1);
    q.push(0);
    q.push(0);
    q.push(0);
    q.push(0);
    q.push(0);
    q.push(0);
    proof {
        assert(q@ =~= seq![q0, q1, 0u64, 0u64, 0u64, 0u64, 0u64, 0u64]);
    }
    q
}

fn zeros64() -> (r: Vec<u8>)
    ensures
        r@ == Seq::new(64, |i: int| 0u8),
{
    let mut z: Vec<u8> = Vec::new();
    let mut i: usize = 0;
    while i < 64
        invariant
            i <= 64,
            z@.len() == i,
            forall|k: int| 0 <= k < i ==> z@[k] == 0u8,
        decreases 64 - i,
    {
        z.push(0);
        i += 1;
    }
    proof {
        assert(z@ =~= Seq::new(64, |i: int| 0u8));
    }
    z
}

/// The first-generation cipher: its key schedule depends only on the
/// hashed or decrypted input itself.
pub struct Spel2ChaChaVersion1 {}

/// The keyed hash of a file path under the first-generation scheme.
pub open spec fn hash_filepath_v1_spec(fp: Seq<u8>) -> Seq<u8> {
    let h0 = mix_in_spec(Seq::new(64, |i: int| 0u8), fp);
    let h1 = quad_rounds_spec(h0);
    let key = quad_rounds_spec(add_bytes_as_quads_spec(h0, h1));
    keyed_hashing_spec(fp, key)
}

/// The decryption of a payload under the first-generation scheme.
pub open spec fn decrypt_v1_spec(fp: Seq<u8>, data: Seq<u8>) -> Seq<u8> {
    let h0 = two_rounds_spec(
        quads_to_bytes_spec(seq![0xBABEu64, 0u64, 0u64, 0u64, 0u64, 0u64, 0u64, 0u64]),
    );
    let h = mix_in_filepath_spec(fp, h0);
    let key = quad_rounds_spec(add_bytes_as_quads_spec(h, quad_rounds_spec(h)));
    decrypt_common_spec(data, key)
}

impl Default for Spel2ChaChaVersion1 {
    fn default() -> Self {
        Spel2ChaChaVersion1 {  }
    }
}

impl Spel2ChaChaVersion1 {
    pub fn new() -> Self {
        Self {  }
    }

    pub fn hash_filepath(&self, filepath: &Vec<u8>) -> (r: Vec<u8>)
        ensures
            r@ == hash_filepath_v1_spec(filepath@),
    {
        let zero = zeros64();
        let h0 = mix_in(&zero, filepath);
        let h1 = quad_rounds(&h0);
        let sum = add_bytes_as_quads(&h0, &h1);
        let key = quad_rounds(&sum);
        keyed_hashing(filepath, &key)
    }

    pub fn decrypt(&self, filepath: &Vec<u8>, data: &Vec<u8>) -> (r: Vec<u8>)
        ensures
            r@ == decrypt_v1_spec(filepath@, data@),
    {
        let seed = quad_vec(0xBABE, 0);
        let seed_bytes = quads_to_bytes(&seed);
        let h0 = two_rounds(&seed_bytes);
        let h = mix_in_filepath(filepath, &h0);
        let hr = quad_rounds(&h);
        let sum = add_bytes_as_quads(&h, &hr);
        let key = quad_rounds(&sum);
        decrypt_common(data, &key)
    }
}

/// The second-generation cipher, keyed by a 64-bit key derived from the
/// asset bundle.
pub struct Spel2ChaChaVersion2 {
    pub key: u64,
}

/// The 64-byte state both second-generation schemes start from: the key
/// and the input length, stirred with two double rounds.
pub open spec fn v2_state_spec(key: u64, len_val: u64) -> Seq<u8> {
    two_rounds_spec(quads_to_bytes_spec(seq![key, len_val, 0u64, 0u64, 0u64, 0u64, 0u64, 0u64]))
}

/// Derives the 64-byte xor key of the second-generation scheme: the mixed
/// state is folded with its own stirred copy, and `tweak` is xored into
/// the first quad before the final stir.
pub open spec fn v2_key_spec(h: Seq<u8>, tweak: u64) -> Seq<u8> {
    let tmp = add_bytes_as_quads_spec(h, quad_rounds_spec(h));
    let tq = bytes_to_quads_spec(tmp);
    let tq2 = tq.update(0, tq[0] ^ tweak);
    quad_rounds_spec(quads_to_bytes_spec(tq2))
}

/// The keyed hash of a file path under the second-generation scheme.
pub open spec fn hash_filepath_v2_spec(key: u64, fp: Seq<u8>) -> Seq<u8> {
    let h = mix_in_spec(v2_state_spec(key, fp.len() as u64), fp);
    keyed_hashing_spec(fp, v2_key_spec(h, fp.len() as u64))
}

/// The decryption of a payload under the second-generation scheme.
pub open spec fn decrypt_v2_spec(key: u64, fp: Seq<u8>, data: Seq<u8>) -> Seq<u8> {
    let h0 = v2_state_spec(key, fp.len() as u64);
    let h = mix_in_filepath_spec(fp, h0);
    decrypt_common_spec(data, v2_key_spec(h, wadd64(key, data.len() as u64)))
}

impl Spel2ChaChaVersion2 {
    pub fn new(key: u64) -> (r: Self)
        ensures
            r.key == key,
    {
        Self { key }
    }

    fn derive_key(h: &Vec<u8>, tweak: u64) -> (r: Vec<u8>)
        requires
            h@.len() == 64,
        ensures
            r@ == v2_key_spec(h@, tweak),
            r@.len() == 64,
    {
        let hr = quad_rounds(h);
        let tmp = add_bytes_as_quads(h, &hr);
        let mut tq = bytes_to_quads(&tmp);
        let t0 = tq[0] ^ tweak;
        tq.set(0, t0);
        let tq_bytes = quads_to_bytes(&tq);
        quad_rounds(&tq_bytes)
    }

    fn state_for_len(&self, len_val: u64) -> (r: Vec<u8>)
        ensures
            r@ == v2_state_spec(self.key, len_val),
            r@.len() == 64,
    {
        let seed = quad_vec(self.key, len_val);
        let seed_bytes = quads_to_bytes(&seed);
        two_rounds(&seed_bytes)
    }

    pub fn hash_filepath(&self, filepath: &Vec<u8>) -> (r: Vec<u8>)
        ensures
            r@ == hash_filepath_v2_spec(self.key, filepath@),
    {
        let state = self.state_for_len(filepath.len() as u64);
        let h = mix_in(&state, filepath);
        let key = Self::derive_key(&h, filepath.len() as u64);
        keyed_hashing(filepath, &key)
    }

    pub fn decrypt(&self, filepath: &Vec<u8>, data: &Vec<u8>) -> (r: Vec<u8>)
        ensures
            r@ == decrypt_v2_spec(self.key, filepath@, data@),
    {
        let state = self.state_for_len(filepath.len() as u64);
        let h = mix_in_filepath(filepath, &state);
        let key = Self::derive_key(&h, self.key.wrapping_add(data.len() as u64));
        decrypt_common(data, &key)
    }
}

} // verus!
