//! A from-scratch SHA-512 implementation: 80 rounds, 128-byte blocks, 64-bit
//! words, producing a 64-byte digest.
//!
//! The executable code is proved to compute exactly the mathematical
//! function `sha512_digest`, which is defined below from the padding rule,
//! the message schedule, and the round function of the standard
//! 80-round / 1024-bit-block compression scheme.

use vstd::prelude::*;

verus! {

/// Addition of 64-bit words modulo 2^64, the only addition the scheme uses.
pub open spec fn wadd(x: u64, y: u64) -> u64 {
    vstd::wrapping::u64_specs::wrapping_add(x, y)
}

/// Right rotation of a 64-bit word by `n` bits, `0 < n < 64`.
pub open spec fn rotr_spec(x: u64, n: u64) -> u64 {
    (x >> n) | (x << ((64 - n) as u64))
}

pub open spec fn ssig0_spec(x: u64) -> u64 {
    rotr_spec(x, 1) ^ rotr_spec(x, 8) ^ (x >> 7u64)
}

pub open spec fn ssig1_spec(x: u64) -> u64 {
    rotr_spec(x, 19) ^ rotr_spec(x, 61) ^ (x >> 6u64)
}

pub open spec fn bsig0_spec(x: u64) -> u64 {
    rotr_spec(x, 28) ^ rotr_spec(x, 34) ^ rotr_spec(x, 39)
}

pub open spec fn bsig1_spec(x: u64) -> u64 {
    rotr_spec(x, 14) ^ rotr_spec(x, 18) ^ rotr_spec(x, 41)
}

pub open spec fn ch_spec(e: u64, f: u64, g: u64) -> u64 {
    (e & f) ^ ((!e) & g)
}

pub open spec fn maj_spec(a: u64, b: u64, c: u64) -> u64 {
    (a & b) ^ (a & c) ^ (b & c)
}

/// The 80 round constants.
pub open spec fn k_spec(t: int) -> u64 {
    if t == 0 { 0x428a2f98d728ae22u64 } else if t == 1 { 0x7137449123ef65cdu64 } else if t == 2 { 
0xb5c0fbcfec4d3b2fu64 } else if t == 3 { 0xe9b5dba58189dbbcu64 } else if t == 4 { 
0x3956c25bf348b538u64 } else if t == 5 { 0x59f111f1b605d019u64 } else if t == 6 { 
0x923f82a4af194f9bu64 } else if t == 7 { 0xab1c5ed5da6d8118u64 } else if t == 8 { 
0xd807aa98a3030242u64 } else if t == 9 { 0x12835b0145706fbeu64 } else if t == 10 { 
0x243185be4ee4b28cu64 } else if t == 11 { 0x550c7dc3d5ffb4e2u64 } else if t == 12 { 
0x72be5d74f27b896fu64 } else if t == 13 { 0x80deb1fe3b1696b1u64 } else if t == 14 { 
0x9bdc06a725c71235u64 } else if t == 15 { 0xc19bf174cf692694u64 } else if t == 16 { 
0xe49b69c19ef14ad2u64 } else if t == 17 { 0xefbe4786384f25e3u64 } else if t == 18 { 
0x0fc19dc68b8cd5b5u64 } else if t == 19 { 0x240ca1cc77ac9c65u64 } else if t == 20 { 
0x2de92c6f592b0275u64 } else if t == 21 { 0x4a7484aa6ea6e483u64 } else if t == 22 { 
0x5cb0a9dcbd41fbd4u64 } else if t == 23 { 0x76f988da831153b5u64 } else if t == 24 { 
0x983e5152ee66dfabu64 } else if t == 25 { 0xa831c66d2db43210u64 } else if t == 26 { 
0xb00327c898fb213fu64 } else if t == 27 { 0xbf597fc7beef0ee4u64 } else if t == 28 { 
0xc6e00bf33da88fc2u64 } else if t == 29 { 0xd5a79147930aa725u64 } else if t == 30 { 
0x06ca6351e003826fu64 } else if t == 31 { 0x142929670a0e6e70u64 } else if t == 32 { 
0x27b70a8546d22ffcu64 } else if t == 33 { 0x2e1b21385c26c926u64 } else if t == 34 { 
0x4d2c6dfc5ac42aedu64 } else if t == 35 { 0x53380d139d95b3dfu64 } else if t == 36 { 
0x650a73548baf63deu64 } else if t == 37 { 0x766a0abb3c77b2a8u64 } else if t == 38 { 
0x81c2c92e47edaee6u64 } else if t == 39 { 0x92722c851482353bu64 } else if t == 40 { 
0xa2bfe8a14cf10364u64 } else if t == 41 { 0xa81a664bbc423001u64 } else if t == 42 { 
0xc24b8b70d0f89791u64 } else if t == 43 { 0xc76c51a30654be30u64 } else if t == 44 { 
0xd192e819d6ef5218u64 } else if t == 45 { 0xd69906245565a910u64 } else if t == 46 { 
0xf40e35855771202au64 } else if t == 47 { 0x106aa07032bbd1b8u64 } else if t == 48 { 
0x19a4c116b8d2d0c8u64 } else if t == 49 { 0x1e376c085141ab53u64 } else if t == 50 { 
0x2748774cdf8eeb99u64 } else if t == 51 { 0x34b0bcb5e19b48a8u64 } else if t == 52 { 
0x391c0cb3c5c95a63u64 } else if t == 53 { 0x4ed8aa4ae3418acbu64 } else if t == 54 { 
0x5b9cca4f7763e373u64 } else if t == 55 { 0x682e6ff3d6b2b8a3u64 } else if t == 56 { 
0x748f82ee5defb2fcu64 } else if t == 57 { 0x78a5636f43172f60u64 } else if t == 58 { 
0x84c87814a1f0ab72u64 } else if t == 59 { 0x8cc702081a6439ecu64 } else if t == 60 { 
0x90befffa23631e28u64 } else if t == 61 { 0xa4506cebde82bde9u64 } else if t == 62 { 
0xbef9a3f7b2c67915u64 } else if t == 63 { 0xc67178f2e372532bu64 } else if t == 64 { 
0xca273eceea26619cu64 } else if t == 65 { 0xd186b8c721c0c207u64 } else if t == 66 { 
0xeada7dd6cde0eb1eu64 } else if t == 67 { 0xf57d4f7fee6ed178u64 } else if t == 68 { 
0x06f067aa72176fbau64 } else if t == 69 { 0x0a637dc5a2c898a6u64 } else if t == 70 { 
0x113f9804bef90daeu64 } else if t == 71 { 0x1b710b35131c471bu64 } else if t == 72 { 
0x28db77f523047d84u64 } else if t == 73 { 0x32caab7b40c72493u64 } else if t == 74 { 
0x3c9ebe0a15c9bebcu64 } else if t == 75 { 0x431d67c49c100d4cu64 } else if t == 76 { 
0x4cc5d4becb3e42b6u64 } else if t == 77 { 0x597f299cfc657e2au64 } else if t == 78 { 
0x5fcb6fab3ad6faecu64 } else { 0x6c44198c4a475817u64 }
}

/// The 8 initial hash words.
pub open spec fn iv_spec(i: int) -> u64 {
    if i == 0 { 0x6a09e667f3bcc908u64 } else if i == 1 { 0xbb67ae8584caa73bu64 } else if i == 2 { 0x3c6ef372fe94f82bu64 } else if i == 3 { 0xa54ff53a5f1d36f1u64 } else if i == 4 { 0x510e527fade682d1u64 } else if i == 5 { 0x9b05688c2b3e6c1fu64 } else if i == 6 { 0x1f83d9abfb41bd6bu64 } else { 0x5be0cd19137e2179u64 }
}

pub open spec fn init_state() -> Seq<u64> {
    Seq::new(8, |i: int| iv_spec(i))
}

/// A big-endian 64-bit word read from a byte sequence.
pub open spec fn be_word(b: Seq<u8>) -> u64
    decreases b.len(),
{
    if b.len() == 0 {
        0u64
    } else {
        (be_word(b.drop_last()) << 8u64) | (b.last() as u64)
    }
}

/// The 16 message words of one 128-byte block.
pub open spec fn block_words(block: Seq<u8>) -> Seq<u64> {
    Seq::new(16, |t: int| be_word(block.subrange(8 * t, 8 * t + 8)))
}

/// The message schedule: words 0..16 come from the block, later words from
/// the rotate/shift expansion.
pub open spec fn sched(m: Seq<u64>, t: int) -> u64
    decreases t,
{
    if t < 16 {
        m[t]
    } else {
        wadd(
            wadd(wadd(sched(m, t - 16), ssig0_spec(sched(m, t - 15))), sched(m, t - 7)),
            ssig1_spec(sched(m, t - 2)),
        )
    }
}

/// One round applied to the eight working variables `[a, b, c, d, e, f, g, h]`.
pub open spec fn round_step(s: Seq<u64>, kt: u64, wt: u64) -> Seq<u64> {
    let t1 = wadd(wadd(wadd(wadd(s[7], bsig1_spec(s[4])), ch_spec(s[4], s[5], s[6])), kt), wt);
    let t2 = wadd(bsig0_spec(s[0]), maj_spec(s[0], s[1], s[2]));
    seq![wadd(t1, t2), s[0], s[1], s[2], wadd(s[3], t1), s[4], s[5], s[6]]
}

/// The first `t` rounds of the compression loop.
pub open spec fn rounds(s: Seq<u64>, m: Seq<u64>, t: int) -> Seq<u64>
    decreases t,
{
    if t <= 0 {
        s
    } else {
        round_step(rounds(s, m, t - 1), k_spec(t - 1), sched(m, t - 1))
    }
}

/// Compression of one 128-byte block into the running state.
pub open spec fn compress(h: Seq<u64>, block: Seq<u8>) -> Seq<u64> {
    let f = rounds(h, block_words(block), 80);
    Seq::new(8, |i: int| wadd(h[i], f[i]))
}

/// Folding whole blocks of an already-padded message into the state.
pub open spec fn process_blocks(h: Seq<u64>, data: Seq<u8>) -> Seq<u64>
    decreases data.len(),
{
    if data.len() < 128 {
        h
    } else {
        process_blocks(compress(h, data.take(128)), data.skip(128))
    }
}

/// How many zero bytes padding inserts between the 0x80 byte and the length.
pub open spec fn pad_zero_count(len: int) -> int {
    let r = (len + 1) % 128;
    if r <= 112 {
        112 - r
    } else {
        240 - r
    }
}

/// The bit length rendered as a 128-bit big-endian integer.
pub open spec fn length_bytes(x: u128) -> Seq<u8> {
    Seq::new(16, |i: int| ((x >> ((8 * (15 - i)) as u32)) & 0xff) as u8)
}

/// Message padding: a 0x80 byte, zeros up to 112 mod 128, then the original
/// bit length as a 128-bit big-endian integer.
pub open spec fn sha512_pad(msg: Seq<u8>) -> Seq<u8> {
    msg + seq![0x80u8] + Seq::new(pad_zero_count(msg.len() as int) as nat, |i: int| 0u8)
        + length_bytes((msg.len() * 8) as u128)
}

/// One 64-bit word rendered as 8 big-endian bytes.
pub open spec fn word_bytes(w: u64) -> Seq<u8> {
    Seq::new(8, |i: int| ((w >> ((8 * (7 - i)) as u32)) & 0xff) as u8)
}

/// The eight state words rendered big-endian and concatenated.
pub open spec fn state_bytes(h: Seq<u64>) -> Seq<u8>
    decreases h.len(),
{
    if h.len() == 0 {
        Seq::<u8>::empty()
    } else {
        state_bytes(h.drop_last()) + word_bytes(h.last())
    }
}

/// The 64-byte SHA-512 digest of an arbitrary byte sequence.
pub open spec fn sha512_digest(msg: Seq<u8>) -> Seq<u8> {
    state_bytes(process_blocks(init_state(), sha512_pad(msg)))
}

proof fn lemma_state_bytes_len(h: Seq<u64>)
    ensures
        state_bytes(h).len() == 8 * h.len(),
    decreases h.len(),
{
    if h.len() > 0 {
        lemma_state_bytes_len(h.drop_last());
    }
}

/// The digest of any message is exactly 64 bytes long.
pub proof fn lemma_digest_len(msg: Seq<u8>)
    ensures
        sha512_digest(msg).len() == 64,
{
    lemma_state_bytes_len(process_blocks(init_state(), sha512_pad(msg)));
    lemma_process_blocks_len(init_state(), sha512_pad(msg));
}

proof fn lemma_process_blocks_len(h: Seq<u64>, data: Seq<u8>)
    requires
        h.len() == 8,
    ensures
        process_blocks(h, data).len() == 8,
    decreases data.len(),
{
    if data.len() >= 128 {
        lemma_process_blocks_len(compress(h, data.take(128)), data.skip(128));
    }
}

/// Folding `a + b` equals folding `a`, then compressing the single block `b`.
proof fn lemma_process_blocks_snoc(h: Seq<u64>, a: Seq<u8>, b: Seq<u8>)
    requires
        a.len() % 128 == 0,
        b.len() == 128,
    ensures
        process_blocks(h, a + b) == compress(process_blocks(h, a), b),
    decreases a.len(),
{
    if a.len() == 0 {
        assert(a + b =~= b);
        assert(b.take(128) =~= b);
        assert(b.skip(128) =~= Seq::<u8>::empty());
        assert(process_blocks(h, b) == process_blocks(compress(h, b.take(128)), b.skip(128)));
        assert(process_blocks(compress(h, b), Seq::<u8>::empty()) == compress(h, b));
        assert(process_blocks(h, a) == h);
    } else {
        assert(a.len() >= 128);
        assert((a + b).take(128) =~= a.take(128));
        assert((a + b).skip(128) =~= a.skip(128) + b);
        assert(a.skip(128).len() % 128 == 0);
        lemma_process_blocks_snoc(compress(h, a.take(128)), a.skip(128), b);
    }
}

fn rotr(x: u64, n: u64) -> (r: u64)
    requires
        0 < n < 64,
    ensures
        r == rotr_spec(x, n),
{
    (x >> n) | (x << (64 - n))
}

fn ssig0(x: u64) -> (r: u64)
    ensures
        r == ssig0_spec(x),
{
    rotr(x, 1) ^ rotr(x, 8) ^ (x >> 7u64)
}

fn ssig1(x: u64) -> (r: u64)
    ensures
        r == ssig1_spec(x),
{
    rotr(x, 19) ^ rotr(x, 61) ^ (x >> 6u64)
}

fn bsig0(x: u64) -> (r: u64)
    ensures
        r == bsig0_spec(x),
{
    rotr(x, 28) ^ rotr(x, 34) ^ rotr(x, 39)
}

fn bsig1(x: u64) -> (r: u64)
    ensures
        r == bsig1_spec(x),
{
    rotr(x, 14) ^ rotr(x, 18) ^ rotr(x, 41)
}

/// The round constant for round `t`.
fn k_at(t: usize) -> (r: u64)
    requires
        t < 80,
    ensures
        r == k_spec(t as int),
{
    if t == 0 { 0x428a2f98d728ae22u64 } else if t == 1 { 0x7137449123ef65cdu64 } else if t == 2 { 
0xb5c0fbcfec4d3b2fu64 } else if t == 3 { 0xe9b5dba58189dbbcu64 } else if t == 4 { 
0x3956c25bf348b538u64 } else if t == 5 { 0x59f111f1b605d019u64 } else if t == 6 { 
0x923f82a4af194f9bu64 } else if t == 7 { 0xab1c5ed5da6d8118u64 } else if t == 8 { 
0xd807aa98a3030242u64 } else if t == 9 { 0x12835b0145706fbeu64 } else if t == 10 { 
0x243185be4ee4b28cu64 } else if t == 11 { 0x550c7dc3d5ffb4e2u64 } else if t == 12 { 
0x72be5d74f27b896fu64 } else if t == 13 { 0x80deb1fe3b1696b1u64 } else if t == 14 { 
0x9bdc06a725c71235u64 } else if t == 15 { 0xc19bf174cf692694u64 } else if t == 16 { 
0xe49b69c19ef14ad2u64 } else if t == 17 { 0xefbe4786384f25e3u64 } else if t == 18 { 
0x0fc19dc68b8cd5b5u64 } else if t == 19 { 0x240ca1cc77ac9c65u64 } else if t == 20 { 
0x2de92c6f592b0275u64 } else if t == 21 { 0x4a7484aa6ea6e483u64 } else if t == 22 { 
0x5cb0a9dcbd41fbd4u64 } else if t == 23 { 0x76f988da831153b5u64 } else if t == 24 { 
0x983e5152ee66dfabu64 } else if t == 25 { 0xa831c66d2db43210u64 } else if t == 26 { 
0xb00327c898fb213fu64 } else if t == 27 { 0xbf597fc7beef0ee4u64 } else if t == 28 { 
0xc6e00bf33da88fc2u64 } else if t == 29 { 0xd5a79147930aa725u64 } else if t == 30 { 
0x06ca6351e003826fu64 } else if t == 31 { 0x142929670a0e6e70u64 } else if t == 32 { 
0x27b70a8546d22ffcu64 } else if t == 33 { 0x2e1b21385c26c926u64 } else if t == 34 { 
0x4d2c6dfc5ac42aedu64 } else if t == 35 { 0x53380d139d95b3dfu64 } else if t == 36 { 
0x650a73548baf63deu64 } else if t == 37 { 0x766a0abb3c77b2a8u64 } else if t == 38 { 
0x81c2c92e47edaee6u64 } else if t == 39 { 0x92722c851482353bu64 } else if t == 40 { 
0xa2bfe8a14cf10364u64 } else if t == 41 { 0xa81a664bbc423001u64 } else if t == 42 { 
0xc24b8b70d0f89791u64 } else if t == 43 { 0xc76c51a30654be30u64 } else if t == 44 { 
0xd192e819d6ef5218u64 } else if t == 45 { 0xd69906245565a910u64 } else if t == 46 { 
0xf40e35855771202au64 } else if t == 47 { 0x106aa07032bbd1b8u64 } else if t == 48 { 
0x19a4c116b8d2d0c8u64 } else if t == 49 { 0x1e376c085141ab53u64 } else if t == 50 { 
0x2748774cdf8eeb99u64 } else if t == 51 { 0x34b0bcb5e19b48a8u64 } else if t == 52 { 
0x391c0cb3c5c95a63u64 } else if t == 53 { 0x4ed8aa4ae3418acbu64 } else if t == 54 { 
0x5b9cca4f7763e373u64 } else if t == 55 { 0x682e6ff3d6b2b8a3u64 } else if t == 56 { 
0x748f82ee5defb2fcu64 } else if t == 57 { 0x78a5636f43172f60u64 } else if t == 58 { 
0x84c87814a1f0ab72u64 } else if t == 59 { 0x8cc702081a6439ecu64 } else if t == 60 { 
0x90befffa23631e28u64 } else if t == 61 { 0xa4506cebde82bde9u64 } else if t == 62 { 
0xbef9a3f7b2c67915u64 } else if t == 63 { 0xc67178f2e372532bu64 } else if t == 64 { 
0xca273eceea26619cu64 } else if t == 65 { 0xd186b8c721c0c207u64 } else if t == 66 { 
0xeada7dd6cde0eb1eu64 } else if t == 67 { 0xf57d4f7fee6ed178u64 } else if t == 68 { 
0x06f067aa72176fbau64 } else if t == 69 { 0x0a637dc5a2c898a6u64 } else if t == 70 { 
0x113f9804bef90daeu64 } else if t == 71 { 0x1b710b35131c471bu64 } else if t == 72 { 
0x28db77f523047d84u64 } else if t == 73 { 0x32caab7b40c72493u64 } else if t == 74 { 
0x3c9ebe0a15c9bebcu64 } else if t == 75 { 0x431d67c49c100d4cu64 } else if t == 76 { 
0x4cc5d4becb3e42b6u64 } else if t == 77 { 0x597f299cfc657e2au64 } else if t == 78 { 
0x5fcb6fab3ad6faecu64 } else { 0x6c44198c4a475817u64 }
}

/// Removes and returns the first 128 bytes of `buf`.
fn take_front_128(buf: &mut Vec<u8>) -> (block: Vec<u8>)
    requires
        old(buf)@.len() >= 128,
    ensures
        block@ == old(buf)@.take(128),
        final(buf)@ == old(buf)@.skip(128),
{
    let mut block: Vec<u8> = Vec::new();
    let mut i: usize = 0;
    while i < 128
        invariant
            i <= 128,
            buf@ == old(buf)@,
            buf@.len() >= 128,
            block@ == old(buf)@.take(i as int),
        decreases 128 - i,
    {
        block.push(buf[i]);
        i = i + 1;
        assert(block@ =~= old(buf)@.take(i as int));
    }
    let mut rest: Vec<u8> = Vec::new();
    let mut j: usize = 128;
    while j < buf.len()
        invariant
            128 <= j <= buf@.len(),
            buf@ == old(buf)@,
            rest@ == old(buf)@.subrange(128, j as int),
        decreases buf@.len() - j,
    {
        rest.push(buf[j]);
        j = j + 1;
        assert(rest@ =~= old(buf)@.subrange(128, j as int));
    }
    *buf = rest;
    block
}

/// Compression of one 128-byte block, returning the new eight-word state.
#[verifier::rlimit(30)]
fn compress_block(h: &Vec<u64>, block: &Vec<u8>) -> (r: Vec<u64>)
    requires
        h@.len() == 8,
        block@.len() == 128,
    ensures
        r@ == compress(h@, block@),
{
    let ghost m = block_words(block@);

    // Message schedule, words 0..16 read big-endian from the block.
    let mut w: Vec<u64> = Vec::new();
    let mut t: usize = 0;
    while t < 16
        invariant
            t <= 16,
            block@.len() == 128,
            w@.len() == t,
            m == block_words(block@),
            forall|j: int| 0 <= j < t ==> w@[j] == sched(m, j),
        decreases 16 - t,
    {
        let mut word: u64 = 0;
        let mut i: usize = 0;
        assert(block@.subrange(8 * t as int, 8 * t as int) =~= Seq::<u8>::empty());
        while i < 8
            invariant
                i <= 8,
                t < 16,
                block@.len() == 128,
                word == be_word(block@.subrange(8 * t as int, 8 * t + i as int)),
            decreases 8 - i,
        {
            let ghost prefix = block@.subrange(8 * t as int, 8 * t + i as int);
            word = (word << 8u64) | (block[8 * t + i] as u64);
            i = i + 1;
            proof {
                let full = block@.subrange(8 * t as int, 8 * t + i as int);
                assert(full.drop_last() =~= prefix);
                assert(full.last() == block@[8 * t + i - 1]);
            }
        }
        proof {
            assert(word == be_word(block@.subrange(8 * t as int, 8 * t + 8)));
            assert(m[t as int] == be_word(block@.subrange(8 * t as int, 8 * t + 8)));
            assert(sched(m, t as int) == m[t as int]);
        }
        w.push(word);
        t = t + 1;
    }

    // Message schedule expansion for words 16..80.
    while t < 80
        invariant
            16 <= t <= 80,
            w@.len() == t,
            m == block_words(block@),
            forall|j: int| 0 <= j < t ==> w@[j] == sched(m, j),
        decreases 80 - t,
    {
        let s0 = ssig0(w[t - 15]);
        let s1 = ssig1(w[t - 2]);
        let word = w[t - 16].wrapping_add(s0).wrapping_add(w[t - 7]).wrapping_add(s1);
        proof {
            assert(w@[t - 16] == sched(m, t - 16));
            assert(w@[t - 15] == sched(m, t - 15));
            assert(w@[t - 7] == sched(m, t - 7));
            assert(w@[t - 2] == sched(m, t - 2));
            assert(sched(m, t as int) == wadd(
                wadd(wadd(sched(m, t - 16), ssig0_spec(sched(m, t - 15))), sched(m, t - 7)),
                ssig1_spec(sched(m, t - 2)),
            ));
            assert(word == sched(m, t as int));
        }
        w.push(word);
        t = t + 1;
    }

    // The 80-round compression loop over the eight working variables.
    let mut a: u64 = h[0];
    let mut b: u64 = h[1];
    let mut c: u64 = h[2];
    let mut d: u64 = h[3];
    let mut e: u64 = h[4];
    let mut f: u64 = h[5];
    let mut g: u64 = h[6];
    let mut hh: u64 = h[7];
    proof {
        assert(seq![a, b, c, d, e, f, g, hh] =~= rounds(h@, m, 0));
    }
    t = 0;
    while t < 80
        invariant
            t <= 80,
            w@.len() == 80,
            m == block_words(block@),
            forall|j: int| 0 <= j < 80 ==> w@[j] == sched(m, j),
            seq![a, b, c, d, e, f, g, hh] == rounds(h@, m, t as int),
        decreases 80 - t,
    {
        let ghost prev = seq![a, b, c, d, e, f, g, hh];
        let s1 = bsig1(e);
        let chv = (e & f) ^ ((!e) & g);
        let temp1 = hh.wrapping_add(s1).wrapping_add(chv).wrapping_add(k_at(t)).wrapping_add(w[t]);
        let s0 = bsig0(a);
        let majv = (a & b) ^ (a & c) ^ (b & c);
        let temp2 = s0.wrapping_add(majv);

        hh = g;
        g = f;
        f = e;
        e = d.wrapping_add(temp1);
        d = c;
        c = b;
        b = a;
        a = temp1.wrapping_add(temp2);
        t = t + 1;
        proof {
            assert(seq![a, b, c, d, e, f, g, hh] =~= round_step(
                prev,
                k_spec(t - 1),
                sched(m, t - 1),
            ));
        }
    }

    // Add the working variables back into the incoming state.
    let mut r: Vec<u64> = Vec::new();
    r.push(h[0].wrapping_add(a));
    r.push(h[1].wrapping_add(b));
    r.push(h[2].wrapping_add(c));
    r.push(h[3].wrapping_add(d));
    r.push(h[4].wrapping_add(e));
    r.push(h[5].wrapping_add(f));
    r.push(h[6].wrapping_add(g));
    r.push(h[7].wrapping_add(hh));
    proof {
        assert(r@ =~= compress(h@, block@));
    }
    r
}

/// An incremental SHA-512 hasher.
///
/// `absorbed()` is the byte sequence fed so far; `finalize` returns exactly
/// `sha512_digest(absorbed())`.
pub struct Sha512 {
    hash: Vec<u64>,
    message_length: u128,
    buffer: Vec<u8>,
    processed: Ghost<Seq<u8>>,
}

impl Sha512 {
    /// The bytes fed to the hasher so far.
    pub closed spec fn absorbed(&self) -> Seq<u8> {
        self.processed@ + self.buffer@
    }

    /// Internal consistency: whole blocks already folded into the state,
    /// a partial block in the buffer, and the running bit count.
    pub closed spec fn wf(&self) -> bool {
        &&& self.hash@.len() == 8
        &&& self.buffer@.len() < 128
        &&& self.processed@.len() % 128 == 0
        &&& self.hash@ == process_blocks(init_state(), self.processed@)
        &&& self.message_length as int == 8 * self.absorbed().len()
    }

    /// Creates a hasher that has absorbed nothing.
    pub fn new() -> (r: Sha512)
        ensures
            r.wf(),
            r.absorbed() == Seq::<u8>::empty(),
    {
        let mut hash: Vec<u64> = Vec::new();
        hash.push(0x6a09e667f3bcc908u64);
        hash.push(0xbb67ae8584caa73bu64);
        hash.push(0x3c6ef372fe94f82bu64);
        hash.push(0xa54ff53a5f1d36f1u64);
        hash.push(0x510e527fade682d1u64);
        hash.push(0x9b05688c2b3e6c1fu64);
        hash.push(0x1f83d9abfb41bd6bu64);
        hash.push(0x5be0cd19137e2179u64);
        proof {
            assert(hash@ =~= init_state());
        }
        let r = Sha512 { hash, message_length: 0, buffer: Vec::new(), processed: Ghost(Seq::empty()) };
        proof {
            assert(r.absorbed() =~= Seq::<u8>::empty());
        }
        r
    }

    /// Feeds `data` to the hasher.
    pub fn update(&mut self, data: &[u8])
        requires
            old(self).wf(),
            8 * (old(self).absorbed().len() + data@.len())
                <= 0xffffffffffffffffffffffffffffffff,
        ensures
            final(self).wf(),
            final(self).absorbed() == old(self).absorbed() + data@,
    {
        let ghost target = old(self).absorbed() + data@;
        let n = data.len();
        self.message_length = self.message_length + (n as u128) * 8;
        let mut i: usize = 0;
        while i < n
            invariant
                i <= n,
                n == data@.len(),
                self.hash == old(self).hash,
                self.processed == old(self).processed,
                self.buffer@ == old(self).buffer@ + data@.take(i as int),
                self.message_length == old(self).message_length + (n as u128) * 8,
            decreases n - i,
        {
            self.buffer.push(data[i]);
            i = i + 1;
            assert(self.buffer@ =~= old(self).buffer@ + data@.take(i as int));
        }
        proof {
            assert(self.buffer@ == old(self).buffer@ + data@);
            assert(self.processed@ + self.buffer@ =~= target);
        }
        while self.buffer.len() >= 128
            invariant
                self.hash@.len() == 8,
                self.hash@ == process_blocks(init_state(), self.processed@),
                self.processed@.len() % 128 == 0,
                self.processed@ + self.buffer@ == target,
                self.message_length as int == 8 * (self.processed@.len() + self.buffer@.len()),
            decreases self.buffer@.len(),
    {
            let ghost done = self.processed@;
            let block = take_front_128(&mut self.buffer);
            let newh = compress_block(&self.hash, &block);
            self.hash = newh;
            proof {
                lemma_process_blocks_snoc(init_state(), done, block@);
                assert(done + block@ + self.buffer@ =~= done + (block@ + self.buffer@));
                assert(block@ + self.buffer@ =~= target.skip(done.len() as int)) by {
                    assert(done + block@ + self.buffer@ =~= target);
                }
                assert((done + block@).len() % 128 == 0);
            }
            self.processed = Ghost(self.processed@ + block@);
            proof {
                assert(self.processed@ + self.buffer@ =~= target);
            }
        }
    }

    /// Pads and folds what remains, returning the 64-byte digest of
    /// everything absorbed.
    pub fn finalize(&mut self) -> (r: Vec<u8>)
        requires
            old(self).wf(),
        ensures
            r@ == sha512_digest(old(self).absorbed()),
            r@.len() == 64,
    {
        let ghost msg = self.absorbed();
        let len_bits: u128 = self.message_length;

        // 0x80, then zeros until the byte length is 112 mod 128.
        let ghost buffer0 = self.buffer@;
        self.buffer.push(0x80);
        let rem: usize = self.buffer.len() % 128;
        let k: usize = if rem <= 112 {
            112 - rem
        } else {
            240 - rem
        };
        proof {
            vstd::arithmetic::div_mod::lemma_add_mod_noop(
                self.processed@.len() as int,
                buffer0.len() + 1 as int,
                128,
            );
            assert(rem as int == (msg.len() + 1) % 128);
        }
        let mut i: usize = 0;
        while i < k
            invariant
                i <= k,
                self.hash == old(self).hash,
                self.processed == old(self).processed,
                self.message_length == old(self).message_length,
                self.buffer@ == buffer0 + seq![0x80u8] + Seq::new(i as nat, |j: int| 0u8),
            decreases k - i,
        {
            self.buffer.push(0x00);
            i = i + 1;
            assert(self.buffer@ =~= buffer0 + seq![0x80u8] + Seq::new(i as nat, |j: int| 0u8));
        }
        let ghost zeros = Seq::new(k as nat, |j: int| 0u8);

        // The original bit length as a 128-bit big-endian integer.
        let ghost buffer1 = self.buffer@;
        i = 0;
        while i < 16
            invariant
                i <= 16,
                self.hash == old(self).hash,
                self.processed == old(self).processed,
                self.message_length == old(self).message_length,
                len_bits == self.message_length,
                self.buffer@ == buffer1 + length_bytes(len_bits).take(i as int),
            decreases 16 - i,
        {
            let sh: u32 = (8 * (15 - i)) as u32;
            let byte: u8 = #[verifier::truncate] (((len_bits >> sh) & 0xff) as u8);
            self.buffer.push(byte);
            i = i + 1;
            proof {
                assert(byte == length_bytes(len_bits)[i - 1]);
                assert(self.buffer@ =~= buffer1 + length_bytes(len_bits).take(i as int));
            }
        }
        proof {
            assert(length_bytes(len_bits).take(16) =~= length_bytes(len_bits));
            assert((msg.len() * 8) as u128 == len_bits);
            assert(self.processed@ + self.buffer@ =~= sha512_pad(msg)) by {
                assert(self.buffer@ == buffer0 + seq![0x80u8] + zeros + length_bytes(len_bits));
                assert(k as int == pad_zero_count(msg.len() as int));
                assert(self.processed@ + buffer0 =~= msg);
                assert(self.processed@ + (buffer0 + seq![0x80u8] + zeros + length_bytes(len_bits))
                    =~= (self.processed@ + buffer0) + seq![0x80u8] + zeros + length_bytes(
                    len_bits,
                ));
                assert(sha512_pad(msg) == msg + seq![0x80u8] + Seq::new(
                    pad_zero_count(msg.len() as int) as nat,
                    |j: int| 0u8,
                ) + length_bytes((msg.len() * 8) as u128));
            }
            assert(self.buffer@.len() % 128 == 0) by {
                assert(self.buffer@.len() == buffer0.len() + 1 + k + 16);
            }
        }

        // Fold the remaining whole blocks.
        let ghost padded = sha512_pad(msg);
        while self.buffer.len() >= 128
            invariant
                self.hash@.len() == 8,
                self.hash@ == process_blocks(init_state(), self.processed@),
                self.processed@.len() % 128 == 0,
                self.buffer@.len() % 128 == 0,
                self.processed@ + self.buffer@ == padded,
            decreases self.buffer@.len(),
        {
            let ghost done = self.processed@;
            let block = take_front_128(&mut self.buffer);
            let newh = compress_block(&self.hash, &block);
            self.hash = newh;
            proof {
                lemma_process_blocks_snoc(init_state(), done, block@);
                assert(done + block@ + self.buffer@ =~= done + (block@ + self.buffer@));
                assert((done + block@).len() % 128 == 0);
            }
            self.processed = Ghost(self.processed@ + block@);
            proof {
                assert(self.processed@ + self.buffer@ =~= padded);
            }
        }
        proof {
            assert(self.buffer@.len() == 0);
            assert(self.processed@ =~= padded);
        }

        // Render the eight state words big-endian.
        let mut out: Vec<u8> = Vec::new();
        let mut wi: usize = 0;
        proof {
            assert(state_bytes(self.hash@.take(0)) =~= Seq::<u8>::empty());
        }
        while wi < 8
            invariant
                wi <= 8,
                self.hash@.len() == 8,
                self.hash@ == process_blocks(init_state(), padded),
                out@ == state_bytes(self.hash@.take(wi as int)),
            decreases 8 - wi,
        {
            let word: u64 = self.hash[wi];
            let mut j: usize = 0;
            let ghost sofar = out@;
            while j < 8
                invariant
                    j <= 8,
                    wi < 8,
                    self.hash@.len() == 8,
                    word == self.hash@[wi as int],
                    out@ == sofar + word_bytes(word).take(j as int),
                decreases 8 - j,
            {
                let sh: u32 = (8 * (7 - j)) as u32;
                let byte: u8 = #[verifier::truncate] (((word >> sh) & 0xff) as u8);
                out.push(byte);
                j = j + 1;
                proof {
                    assert(byte == word_bytes(word)[j - 1]);
                    assert(out@ =~= sofar + word_bytes(word).take(j as int));
                }
            }
            wi = wi + 1;
            proof {
                assert(word_bytes(word).take(8) =~= word_bytes(word));
                assert(self.hash@.take(wi as int).drop_last() =~= self.hash@.take(wi - 1));
                assert(out@ == state_bytes(self.hash@.take(wi as int)));
            }
        }
        proof {
            assert(self.hash@.take(8) =~= self.hash@);
            lemma_state_bytes_len(self.hash@);
        }
        out
    }
}

/// Computes the SHA-512 digest of `data` in one step.
pub fn sha512(data: &[u8]) -> (r: Vec<u8>)
    ensures
        r@ == sha512_digest(data@),
        r@.len() == 64,
{
    // Reading the length bounds the view's length, which the update
    // contract's bit-count limit needs.
    let _n = data.len();
    let mut sha = Sha512::new();
    sha.update(data);
    sha.finalize()
}

} // verus!
