//! The SHA-256 hash function and the HMAC construction over it.

use vstd::prelude::*;

use crate::text::{hex, hex_text, law_hex_writes_the_bytes};

verus! {

/// The round constants: the first 32 bits of the fractional parts of the cube
/// roots of the first 64 primes.
pub const ROUND_CONSTANTS: [u32; 64] = [
    0x428a2f98, 0x71374491, 0xb5c0fbcf, 0xe9b5dba5, 0x3956c25b, 0x59f111f1, 0x923f82a4, 0xab1c5ed5,
    0xd807aa98, 0x12835b01, 0x243185be, 0x550c7dc3, 0x72be5d74, 0x80deb1fe, 0x9bdc06a7, 0xc19bf174,
    0xe49b69c1, 0xefbe4786, 0x0fc19dc6, 0x240ca1cc, 0x2de92c6f, 0x4a7484aa, 0x5cb0a9dc, 0x76f988da,
    0x983e5152, 0xa831c66d, 0xb00327c8, 0xbf597fc7, 0xc6e00bf3, 0xd5a79147, 0x06ca6351, 0x14292967,
    0x27b70a85, 0x2e1b2138, 0x4d2c6dfc, 0x53380d13, 0x650a7354, 0x766a0abb, 0x81c2c92e, 0x92722c85,
    0xa2bfe8a1, 0xa81a664b, 0xc24b8b70, 0xc76c51a3, 0xd192e819, 0xd6990624, 0xf40e3585, 0x106aa070,
    0x19a4c116, 0x1e376c08, 0x2748774c, 0x34b0bcb5, 0x391c0cb3, 0x4ed8aa4a, 0x5b9cca4f, 0x682e6ff3,
    0x748f82ee, 0x78a5636f, 0x84c87814, 0x8cc70208, 0x90befffa, 0xa4506ceb, 0xbef9a3f7, 0xc67178f2,
];

/// The eight working variables.
#[derive(Debug, Clone, Copy, PartialEq, Eq, Structural)]
pub struct Chaining {
    pub a: u32,
    pub b: u32,
    pub c: u32,
    pub d: u32,
    pub e: u32,
    pub f: u32,
    pub g: u32,
    pub h: u32,
}

/// The initial chaining value: the first 32 bits of the fractional parts of the
/// square roots of the first eight primes.
pub open spec fn initial() -> Chaining {
    Chaining {
        a: 0x6a09e667,
        b: 0xbb67ae85,
        c: 0x3c6ef372,
        d: 0xa54ff53a,
        e: 0x510e527f,
        f: 0x9b05688c,
        g: 0x1f83d9ab,
        h: 0x5be0cd19,
    }
}

pub open spec fn rotr(x: u32, n: u32) -> u32 {
    (x >> n) | (x << ((32 - n) as u32))
}

pub open spec fn choice(x: u32, y: u32, z: u32) -> u32 {
    (x & y) ^ (!x & z)
}

pub open spec fn majority(x: u32, y: u32, z: u32) -> u32 {
    (x & y) ^ (x & z) ^ (y & z)
}

pub open spec fn big_sigma0(x: u32) -> u32 {
    rotr(x, 2) ^ rotr(x, 13) ^ rotr(x, 22)
}

pub open spec fn big_sigma1(x: u32) -> u32 {
    rotr(x, 6) ^ rotr(x, 11) ^ rotr(x, 25)
}

pub open spec fn small_sigma0(x: u32) -> u32 {
    rotr(x, 7) ^ rotr(x, 18) ^ (x >> 3u32)
}

pub open spec fn small_sigma1(x: u32) -> u32 {
    rotr(x, 17) ^ rotr(x, 19) ^ (x >> 10u32)
}

/// Addition modulo 2^32.
pub open spec fn plus(x: u32, y: u32) -> u32 {
    x.wrapping_add(y)
}

/// The big-endian 32-bit word that starts at byte `i`.
pub open spec fn word(bytes: Seq<u8>, i: int) -> u32 {
    ((bytes[i] as u32) << 24u32) | ((bytes[i + 1] as u32) << 16u32) | ((bytes[i + 2] as u32) << 8u32) | (
    bytes[i + 3] as u32)
}

/// The message schedule of a 64-byte block.
pub open spec fn schedule(block: Seq<u8>, t: int) -> u32
    decreases t,
{
    if t < 16 {
        word(block, 4 * t)
    } else {
        plus(
            plus(small_sigma1(schedule(block, t - 2)), schedule(block, t - 7)),
            plus(small_sigma0(schedule(block, t - 15)), schedule(block, t - 16)),
        )
    }
}

/// One round with constant `k` and schedule word `w`.
pub open spec fn round(v: Chaining, k: u32, w: u32) -> Chaining {
    let t1 = plus(plus(plus(v.h, big_sigma1(v.e)), plus(choice(v.e, v.f, v.g), k)), w);
    let t2 = plus(big_sigma0(v.a), majority(v.a, v.b, v.c));
    Chaining {
        a: plus(t1, t2),
        b: v.a,
        c: v.b,
        d: v.c,
        e: plus(v.d, t1),
        f: v.e,
        g: v.f,
        h: v.g,
    }
}

/// The working variables after `t` rounds on a block.
pub open spec fn rounds(v: Chaining, block: Seq<u8>, t: int) -> Chaining
    decreases t,
{
    if t <= 0 {
        v
    } else {
        round(rounds(v, block, t - 1), ROUND_CONSTANTS[t - 1], schedule(block, t - 1))
    }
}

/// The chaining value after a block.
pub open spec fn compress(v: Chaining, block: Seq<u8>) -> Chaining {
    let w = rounds(v, block, 64);
    Chaining {
        a: plus(v.a, w.a),
        b: plus(v.b, w.b),
        c: plus(v.c, w.c),
        d: plus(v.d, w.d),
        e: plus(v.e, w.e),
        f: plus(v.f, w.f),
        g: plus(v.g, w.g),
        h: plus(v.h, w.h),
    }
}

/// The chaining value after the first `n` blocks of a padded message.
pub open spec fn absorb(padded: Seq<u8>, n: int) -> Chaining
    decreases n,
{
    if n <= 0 {
        initial()
    } else {
        compress(absorb(padded, n - 1), padded.subrange(64 * (n - 1), 64 * n))
    }
}

/// A 32-bit word as four bytes, most significant first.
pub open spec fn word_bytes(w: u32) -> Seq<u8> {
    seq![
        ((w >> 24u32) & 0xff) as u8,
        ((w >> 16u32) & 0xff) as u8,
        ((w >> 8u32) & 0xff) as u8,
        (w & 0xff) as u8,
    ]
}

/// A 64-bit number as eight bytes, most significant first.
pub open spec fn be64(n: u64) -> Seq<u8> {
    seq![
        ((n >> 56u64) & 0xff) as u8,
        ((n >> 48u64) & 0xff) as u8,
        ((n >> 40u64) & 0xff) as u8,
        ((n >> 32u64) & 0xff) as u8,
        ((n >> 24u64) & 0xff) as u8,
        ((n >> 16u64) & 0xff) as u8,
        ((n >> 8u64) & 0xff) as u8,
        (n & 0xff) as u8,
    ]
}

/// The length of a message in bits, modulo 2^64.
pub open spec fn bit_length(len: nat) -> u64 {
    ((8 * len) % 0x1_0000_0000_0000_0000) as u64
}

/// The message, a single one bit, zeros up to eight bytes short of a whole
/// number of blocks, and the message length in bits.
pub open spec fn pad(msg: Seq<u8>) -> Seq<u8> {
    msg + seq![0x80u8] + Seq::new(zero_count(msg.len()), |i: int| 0u8) + be64(bit_length(msg.len()))
}

pub open spec fn zero_count(len: nat) -> nat {
    ((119 - len % 64) % 64) as nat
}

/// The eight words of a chaining value as bytes.
pub open spec fn chaining_bytes(v: Chaining) -> Seq<u8> {
    word_bytes(v.a) + word_bytes(v.b) + word_bytes(v.c) + word_bytes(v.d) + word_bytes(v.e) + word_bytes(
        v.f,
    ) + word_bytes(v.g) + word_bytes(v.h)
}

/// The SHA-256 digest of a message.
pub open spec fn digest(msg: Seq<u8>) -> Seq<u8> {
    let padded = pad(msg);
    chaining_bytes(absorb(padded, padded.len() as int / 64))
}

/// The lower-case hexadecimal SHA-256 digest of a message.
pub open spec fn digest_hex(msg: Seq<u8>) -> Seq<char> {
    hex(digest(msg))
}

fn initial_value() -> (r: Chaining)
    ensures
        r == initial(),
{
    Chaining {
        a: 0x6a09e667,
        b: 0xbb67ae85,
        c: 0x3c6ef372,
        d: 0xa54ff53a,
        e: 0x510e527f,
        f: 0x9b05688c,
        g: 0x1f83d9ab,
        h: 0x5be0cd19,
    }
}

fn rotate(x: u32, n: u32) -> (r: u32)
    requires
        0 < n < 32,
    ensures
        r == rotr(x, n),
{
    (x >> n) | (x << (32 - n))
}

/// The words of the message schedule.
fn expand(block: &[u8]) -> (w: Vec<u32>)
    requires
        block@.len() == 64,
    ensures
        w@.len() == 64,
        forall|t: int| 0 <= t < 64 ==> #[trigger] w@[t] == schedule(block@, t),
{
    let mut w: Vec<u32> = Vec::new();
    let mut t: usize = 0;
    while t < 16
        invariant
            t <= 16,
            block@.len() == 64,
            w@.len() == t,
            forall|j: int| 0 <= j < t ==> #[trigger] w@[j] == schedule(block@, j),
        decreases 16 - t,
    {
        let i: usize = 4 * t;
        w.push(
            ((block[i] as u32) << 24u32) | ((block[i + 1] as u32) << 16u32) | ((block[i + 2] as u32) << 8u32)
                | (block[i + 3] as u32),
        );
        t += 1;
    }
    while t < 64
        invariant
            16 <= t <= 64,
            block@.len() == 64,
            w@.len() == t,
            forall|j: int| 0 <= j < t ==> #[trigger] w@[j] == schedule(block@, j),
        decreases 64 - t,
    {
        let x: u32 = w[t - 2];
        let y: u32 = w[t - 15];
        let s1: u32 = rotate(x, 17) ^ rotate(x, 19) ^ (x >> 10u32);
        let s0: u32 = rotate(y, 7) ^ rotate(y, 18) ^ (y >> 3u32);
        let next: u32 = s1.wrapping_add(w[t - 7]).wrapping_add(s0.wrapping_add(w[t - 16]));
        w.push(next);
        t += 1;
    }
    w
}

fn round_step(v: Chaining, k: u32, w: u32) -> (r: Chaining)
    ensures
        r == round(v, k, w),
{
    let s1: u32 = rotate(v.e, 6) ^ rotate(v.e, 11) ^ rotate(v.e, 25);
    let ch: u32 = (v.e & v.f) ^ (!v.e & v.g);
    let t1: u32 = v.h.wrapping_add(s1).wrapping_add(ch.wrapping_add(k)).wrapping_add(w);
    let s0: u32 = rotate(v.a, 2) ^ rotate(v.a, 13) ^ rotate(v.a, 22);
    let maj: u32 = (v.a & v.b) ^ (v.a & v.c) ^ (v.b & v.c);
    let t2: u32 = s0.wrapping_add(maj);
    Chaining {
        a: t1.wrapping_add(t2),
        b: v.a,
        c: v.b,
        d: v.c,
        e: v.d.wrapping_add(t1),
        f: v.e,
        g: v.f,
        h: v.g,
    }
}

fn compress_block(v: Chaining, block: &[u8]) -> (r: Chaining)
    requires
        block@.len() == 64,
    ensures
        r == compress(v, block@),
{
    let w = expand(block);
    let mut x = v;
    let mut t: usize = 0;
    while t < 64
        invariant
            t <= 64,
            w@.len() == 64,
            forall|j: int| 0 <= j < 64 ==> #[trigger] w@[j] == schedule(block@, j),
            x == rounds(v, block@, t as int),
        decreases 64 - t,
    {
        x = round_step(x, ROUND_CONSTANTS[t], w[t]);
        t += 1;
    }
    Chaining {
        a: v.a.wrapping_add(x.a),
        b: v.b.wrapping_add(x.b),
        c: v.c.wrapping_add(x.c),
        d: v.d.wrapping_add(x.d),
        e: v.e.wrapping_add(x.e),
        f: v.f.wrapping_add(x.f),
        g: v.g.wrapping_add(x.g),
        h: v.h.wrapping_add(x.h),
    }
}

/// Appends a 64-bit number, most significant byte first.
pub fn push_be64(out: &mut Vec<u8>, n: u64)
    ensures
        final(out)@ == old(out)@ + be64(n),
{
    out.push(((n >> 56u64) & 0xff) as u8);
    out.push(((n >> 48u64) & 0xff) as u8);
    out.push(((n >> 40u64) & 0xff) as u8);
    out.push(((n >> 32u64) & 0xff) as u8);
    out.push(((n >> 24u64) & 0xff) as u8);
    out.push(((n >> 16u64) & 0xff) as u8);
    out.push(((n >> 8u64) & 0xff) as u8);
    out.push((n & 0xff) as u8);
    assert(out@ =~= old(out)@ + be64(n));
}

/// Appends a slice of bytes.
pub fn push_bytes(out: &mut Vec<u8>, bytes: &[u8])
    ensures
        final(out)@ == old(out)@ + bytes@,
{
    let ghost start = out@;
    let mut i: usize = 0;
    assert(start + bytes@.take(0) =~= start);
    while i < bytes.len()
        invariant
            i <= bytes@.len(),
            out@ == start + bytes@.take(i as int),
        decreases bytes@.len() - i,
    {
        out.push(bytes[i]);
        i += 1;
        assert(out@ =~= start + bytes@.take(i as int));
    }
    assert(bytes@.take(i as int) == bytes@);
}

fn padded_message(msg: &[u8]) -> (r: Vec<u8>)
    ensures
        r@ == pad(msg@),
        r@.len() % 64 == 0,
{
    let mut out: Vec<u8> = Vec::new();
    push_bytes(&mut out, msg);
    assert(out@ =~= msg@);
    out.push(0x80);
    let zeros: usize = (119 - msg.len() % 64) % 64;
    let ghost head = out@;
    let mut i: usize = 0;
    assert(head + Seq::new(0, |j: int| 0u8) =~= head);
    while i < zeros
        invariant
            i <= zeros < 64,
            out@ == head + Seq::new(i as nat, |j: int| 0u8),
        decreases zeros - i,
    {
        out.push(0);
        i += 1;
        assert(out@ =~= head + Seq::new(i as nat, |j: int| 0u8));
    }
    let bits: u64 = (msg.len() as u64).wrapping_mul(8);
    proof {
        assert(bits == bit_length(msg@.len()));
    }
    push_be64(&mut out, bits);
    assert(out@ =~= pad(msg@));
    out
}

fn append_word(out: &mut Vec<u8>, w: u32)
    ensures
        final(out)@ == old(out)@ + word_bytes(w),
{
    out.push(((w >> 24u32) & 0xff) as u8);
    out.push(((w >> 16u32) & 0xff) as u8);
    out.push(((w >> 8u32) & 0xff) as u8);
    out.push((w & 0xff) as u8);
    assert(out@ =~= old(out)@ + word_bytes(w));
}

/// The SHA-256 digest of a message.
pub fn sha256(msg: &[u8]) -> (r: Vec<u8>)
    ensures
        r@ == digest(msg@),
        r@.len() == 32,
{
    let padded = padded_message(msg);
    let total: usize = padded.len();
    let blocks: usize = total / 64;
    let mut v = initial_value();
    let mut n: usize = 0;
    while n < blocks
        invariant
            n <= blocks,
            total == padded@.len(),
            blocks == total / 64,
            v == absorb(padded@, n as int),
        decreases blocks - n,
    {
        let block = vstd::slice::slice_subrange(padded.as_slice(), 64 * n, 64 * n + 64);
        v = compress_block(v, block);
        n += 1;
    }
    let mut out: Vec<u8> = Vec::new();
    append_word(&mut out, v.a);
    append_word(&mut out, v.b);
    append_word(&mut out, v.c);
    append_word(&mut out, v.d);
    append_word(&mut out, v.e);
    append_word(&mut out, v.f);
    append_word(&mut out, v.g);
    append_word(&mut out, v.h);
    assert(out@ =~= chaining_bytes(v));
    out
}

/// The lower-case hexadecimal SHA-256 digest of a message.
pub fn sha256_hex(msg: &[u8]) -> (r: String)
    ensures
        r@ == digest_hex(msg@),
{
    hex_text(sha256(msg).as_slice())
}

// ---------------------------------------------------------------------------
// HMAC
// ---------------------------------------------------------------------------

/// The key as one block: hashed when longer than a block, then zero-filled.
pub open spec fn key_block(key: Seq<u8>) -> Seq<u8> {
    let k = if key.len() > 64 {
        digest(key)
    } else {
        key
    };
    Seq::new(
        64,
        |i: int|
            if i < k.len() {
                k[i]
            } else {
                0u8
            },
    )
}

pub open spec fn xored(block: Seq<u8>, mask: u8) -> Seq<u8> {
    block.map_values(|b: u8| b ^ mask)
}

/// The HMAC-SHA-256 tag of a message under a key.
pub open spec fn hmac(key: Seq<u8>, msg: Seq<u8>) -> Seq<u8> {
    let k = key_block(key);
    digest(xored(k, 0x5c) + digest(xored(k, 0x36) + msg))
}

pub(crate) fn key_as_block(key: &[u8]) -> (r: Vec<u8>)
    ensures
        r@ == key_block(key@),
{
    let mut out: Vec<u8> = Vec::new();
    if key.len() > 64 {
        let hashed = sha256(key);
        push_bytes(&mut out, hashed.as_slice());
    } else {
        push_bytes(&mut out, key);
    }
    let ghost k = out@;
    while out.len() < 64
        invariant
            k.len() <= out@.len() <= 64,
            forall|i: int| 0 <= i < k.len() ==> out@[i] == k[i],
            forall|i: int| k.len() <= i < out@.len() ==> out@[i] == 0u8,
        decreases 64 - out@.len(),
    {
        out.push(0);
    }
    assert(k =~= if key@.len() > 64 { digest(key@) } else { key@ });
    assert(out@ =~= key_block(key@));
    out
}

fn xor_block(block: &[u8], mask: u8) -> (r: Vec<u8>)
    ensures
        r@ == xored(block@, mask),
{
    let mut out: Vec<u8> = Vec::new();
    let mut i: usize = 0;
    while i < block.len()
        invariant
            i <= block@.len(),
            out@ == xored(block@.take(i as int), mask),
        decreases block@.len() - i,
    {
        out.push(block[i] ^ mask);
        i += 1;
        assert(out@ =~= xored(block@.take(i as int), mask));
    }
    assert(block@.take(i as int) == block@);
    out
}

/// The HMAC-SHA-256 tag of a message under a key.
pub fn hmac_sha256(key: &[u8], msg: &[u8]) -> (r: Vec<u8>)
    ensures
        r@ == hmac(key@, msg@),
{
    let block = key_as_block(key);
    let mut inner = xor_block(block.as_slice(), 0x36);
    push_bytes(&mut inner, msg);
    let mut outer = xor_block(block.as_slice(), 0x5c);
    push_bytes(&mut outer, sha256(inner.as_slice()).as_slice());
    sha256(outer.as_slice())
}

/// The lower-case hexadecimal HMAC-SHA-256 tag of a message under a key.
pub fn hmac_sha256_hex(key: &[u8], msg: &[u8]) -> (r: String)
    ensures
        r@ == hex(hmac(key@, msg@)),
{
    hex_text(hmac_sha256(key, msg).as_slice())
}

/// A key signs as its block does, so that the block can be kept in its place.
pub proof fn law_key_block_signs_alike(key: Seq<u8>, msg: Seq<u8>)
    ensures
        hmac(key_block(key), msg) == hmac(key, msg),
{
    assert(key_block(key_block(key)) =~= key_block(key));
}

/// A padded message is the message, one bit and zeros, and the length in bits in the last
/// eight bytes; it fills whole blocks, with fewer than sixty-four zeros.
pub proof fn law_padding_fills_blocks(msg: Seq<u8>)
    ensures
        pad(msg).len() % 64 == 0,
        pad(msg).len() - msg.len() <= 72,
        pad(msg).take(msg.len() as int) == msg,
        pad(msg)[msg.len() as int] == 0x80u8,
        forall|i: int| msg.len() < i < pad(msg).len() - 8 ==> #[trigger] pad(msg)[i] == 0u8,
        pad(msg).skip(pad(msg).len() - 8) == be64(((8 * msg.len()) % 0x1_0000_0000_0000_0000) as u64),
{
    let p = pad(msg);
    assert(p.take(msg.len() as int) =~= msg);
    assert(p.skip(p.len() - 8) =~= be64(bit_length(msg.len())));
}

/// A digest has thirty-two bytes, written as sixty-four hexadecimal digits.
pub proof fn law_digests_have_their_size(msg: Seq<u8>)
    ensures
        digest(msg).len() == 32,
        digest_hex(msg).len() == 64,
{
    law_hex_writes_the_bytes(digest(msg), digest(msg));
}

} // verus!
