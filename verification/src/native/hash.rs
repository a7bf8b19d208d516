//! The MD5 and SHA-256 digests of byte strings.

use crate::text::string_of;
use vstd::prelude::*;

verus! {

/// `x` rotated left by `s` bits.
pub open spec fn rotl(x: u32, s: u32) -> u32 {
    (x << s) | (x >> ((32 - s) as u32))
}

/// `x` rotated right by `s` bits.
pub open spec fn rotr(x: u32, s: u32) -> u32 {
    (x >> s) | (x << ((32 - s) as u32))
}

fn rotate_left(x: u32, s: u32) -> (r: u32)
    requires
        0 < s < 32,
    ensures
        r == rotl(x, s),
{
    (x << s) | (x >> (32 - s))
}

fn rotate_right(x: u32, s: u32) -> (r: u32)
    requires
        0 < s < 32,
    ensures
        r == rotr(x, s),
{
    (x >> s) | (x << (32 - s))
}

/// The 32-bit number with the bytes `b0` to `b3`, lowest first.
pub open spec fn le32(b0: u8, b1: u8, b2: u8, b3: u8) -> u32 {
    (b0 as u32) | ((b1 as u32) << 8) | ((b2 as u32) << 16) | ((b3 as u32) << 24)
}

fn word_le(b0: u8, b1: u8, b2: u8, b3: u8) -> (r: u32)
    ensures
        r == le32(b0, b1, b2, b3),
{
    (b0 as u32) | ((b1 as u32) << 8) | ((b2 as u32) << 16) | ((b3 as u32) << 24)
}

/// The byte of `x` at position `k`, counted from the lowest.
pub open spec fn byte_of(x: u32, k: u32) -> u8 {
    ((x >> (8 * k) as u32) & 0xff) as u8
}

fn byte(x: u32, k: u32) -> (r: u8)
    requires
        k < 4,
    ensures
        r == byte_of(x, k),
{
    let y = (x >> (8 * k)) & 0xff;
    assert(y < 256) by (bit_vector)
        requires
            y == (x >> (8 * k) as u32) & 0xff,
    ;
    y as u8
}

// ---------------------------------------------------------------------------
// MD5
// ---------------------------------------------------------------------------

/// The four words of the MD5 state.
#[derive(Debug, Clone, Copy, PartialEq, Eq, Structural)]
pub struct Md5State {
    pub a: u32,
    pub b: u32,
    pub c: u32,
    pub d: u32,
}

/// The auxiliary function of the first round.
pub open spec fn aux_f(x: u32, y: u32, z: u32) -> u32 {
    (x & y) | (!x & z)
}

/// The auxiliary function of the second round.
pub open spec fn aux_g(x: u32, y: u32, z: u32) -> u32 {
    (x & z) | (y & !z)
}

/// The auxiliary function of the third round.
pub open spec fn aux_h(x: u32, y: u32, z: u32) -> u32 {
    x ^ y ^ z
}

/// The auxiliary function of the fourth round.
pub open spec fn aux_i(x: u32, y: u32, z: u32) -> u32 {
    y ^ (x | !z)
}

/// What closes every step: the sum of `a`, the auxiliary value `t`, the
/// message word and the constant, rotated and added to `b`.
pub open spec fn step_end(a: u32, t: u32, b: u32, x: u32, s: u32, ac: u32) -> u32 {
    rotl(a.wrapping_add(t).wrapping_add(x).wrapping_add(ac), s).wrapping_add(b)
}

/// One step of the first round.
pub open spec fn step_f(a: u32, b: u32, c: u32, d: u32, x: u32, s: u32, ac: u32) -> u32 {
    step_end(a, aux_f(b, c, d), b, x, s, ac)
}

/// One step of the second round.
pub open spec fn step_g(a: u32, b: u32, c: u32, d: u32, x: u32, s: u32, ac: u32) -> u32 {
    step_end(a, aux_g(b, c, d), b, x, s, ac)
}

/// One step of the third round.
pub open spec fn step_h(a: u32, b: u32, c: u32, d: u32, x: u32, s: u32, ac: u32) -> u32 {
    step_end(a, aux_h(b, c, d), b, x, s, ac)
}

/// One step of the fourth round.
pub open spec fn step_i(a: u32, b: u32, c: u32, d: u32, x: u32, s: u32, ac: u32) -> u32 {
    step_end(a, aux_i(b, c, d), b, x, s, ac)
}

/// The message word `i` of a block, its bytes taken lowest first.
pub open spec fn block_word(block: Seq<u8>, i: int) -> u32 {
    le32(block[4 * i], block[4 * i + 1], block[4 * i + 2], block[4 * i + 3])
}

/// The MD5 state after the block of 64 bytes has been taken in: four rounds
/// of sixteen steps each, and the sum with the state before.
#[verifier::opaque]
pub open spec fn md5_transform(state: Md5State, block: Seq<u8>) -> Md5State {
    let a = state.a;
    let b = state.b;
    let c = state.c;
    let d = state.d;
    let a = step_f(a, b, c, d, block_word(block, 0), 7, 0xd76aa478);
    let d = step_f(d, a, b, c, block_word(block, 1), 12, 0xe8c7b756);
    let c = step_f(c, d, a, b, block_word(block, 2), 17, 0x242070db);
    let b = step_f(b, c, d, a, block_word(block, 3), 22, 0xc1bdceee);
    let a = step_f(a, b, c, d, block_word(block, 4), 7, 0xf57c0faf);
    let d = step_f(d, a, b, c, block_word(block, 5), 12, 0x4787c62a);
    let c = step_f(c, d, a, b, block_word(block, 6), 17, 0xa8304613);
    let b = step_f(b, c, d, a, block_word(block, 7), 22, 0xfd469501);
    let a = step_f(a, b, c, d, block_word(block, 8), 7, 0x698098d8);
    let d = step_f(d, a, b, c, block_word(block, 9), 12, 0x8b44f7af);
    let c = step_f(c, d, a, b, block_word(block, 10), 17, 0xffff5bb1);
    let b = step_f(b, c, d, a, block_word(block, 11), 22, 0x895cd7be);
    let a = step_f(a, b, c, d, block_word(block, 12), 7, 0x6b901122);
    let d = step_f(d, a, b, c, block_word(block, 13), 12, 0xfd987193);
    let c = step_f(c, d, a, b, block_word(block, 14), 17, 0xa679438e);
    let b = step_f(b, c, d, a, block_word(block, 15), 22, 0x49b40821);
    let a = step_g(a, b, c, d, block_word(block, 1), 5, 0xf61e2562);
    let d = step_g(d, a, b, c, block_word(block, 6), 9, 0xc040b340);
    let c = step_g(c, d, a, b, block_word(block, 11), 14, 0x265e5a51);
    let b = step_g(b, c, d, a, block_word(block, 0), 20, 0xe9b6c7aa);
    let a = step_g(a, b, c, d, block_word(block, 5), 5, 0xd62f105d);
    let d = step_g(d, a, b, c, block_word(block, 10), 9, 0x02441453);
    let c = step_g(c, d, a, b, block_word(block, 15), 14, 0xd8a1e681);
    let b = step_g(b, c, d, a, block_word(block, 4), 20, 0xe7d3fbc8);
    let a = step_g(a, b, c, d, block_word(block, 9), 5, 0x21e1cde6);
    let d = step_g(d, a, b, c, block_word(block, 14), 9, 0xc33707d6);
    let c = step_g(c, d, a, b, block_word(block, 3), 14, 0xf4d50d87);
    let b = step_g(b, c, d, a, block_word(block, 8), 20, 0x455a14ed);
    let a = step_g(a, b, c, d, block_word(block, 13), 5, 0xa9e3e905);
    let d = step_g(d, a, b, c, block_word(block, 2), 9, 0xfcefa3f8);
    let c = step_g(c, d, a, b, block_word(block, 7), 14, 0x676f02d9);
    let b = step_g(b, c, d, a, block_word(block, 12), 20, 0x8d2a4c8a);
    let a = step_h(a, b, c, d, block_word(block, 5), 4, 0xfffa3942);
    let d = step_h(d, a, b, c, block_word(block, 8), 11, 0x8771f681);
    let c = step_h(c, d, a, b, block_word(block, 11), 16, 0x6d9d6122);
    let b = step_h(b, c, d, a, block_word(block, 14), 23, 0xfde5380c);
    let a = step_h(a, b, c, d, block_word(block, 1), 4, 0xa4beea44);
    let d = step_h(d, a, b, c, block_word(block, 4), 11, 0x4bdecfa9);
    let c = step_h(c, d, a, b, block_word(block, 7), 16, 0xf6bb4b60);
    let b = step_h(b, c, d, a, block_word(block, 10), 23, 0xbebfbc70);
    let a = step_h(a, b, c, d, block_word(block, 13), 4, 0x289b7ec6);
    let d = step_h(d, a, b, c, block_word(block, 0), 11, 0xeaa127fa);
    let c = step_h(c, d, a, b, block_word(block, 3), 16, 0xd4ef3085);
    let b = step_h(b, c, d, a, block_word(block, 6), 23, 0x04881d05);
    let a = step_h(a, b, c, d, block_word(block, 9), 4, 0xd9d4d039);
    let d = step_h(d, a, b, c, block_word(block, 12), 11, 0xe6db99e5);
    let c = step_h(c, d, a, b, block_word(block, 15), 16, 0x1fa27cf8);
    let b = step_h(b, c, d, a, block_word(block, 2), 23, 0xc4ac5665);
    let a = step_i(a, b, c, d, block_word(block, 0), 6, 0xf4292244);
    let d = step_i(d, a, b, c, block_word(block, 7), 10, 0x432aff97);
    let c = step_i(c, d, a, b, block_word(block, 14), 15, 0xab9423a7);
    let b = step_i(b, c, d, a, block_word(block, 5), 21, 0xfc93a039);
    let a = step_i(a, b, c, d, block_word(block, 12), 6, 0x655b59c3);
    let d = step_i(d, a, b, c, block_word(block, 3), 10, 0x8f0ccc92);
    let c = step_i(c, d, a, b, block_word(block, 10), 15, 0xffeff47d);
    let b = step_i(b, c, d, a, block_word(block, 1), 21, 0x85845dd1);
    let a = step_i(a, b, c, d, block_word(block, 8), 6, 0x6fa87e4f);
    let d = step_i(d, a, b, c, block_word(block, 15), 10, 0xfe2ce6e0);
    let c = step_i(c, d, a, b, block_word(block, 6), 15, 0xa3014314);
    let b = step_i(b, c, d, a, block_word(block, 13), 21, 0x4e0811a1);
    let a = step_i(a, b, c, d, block_word(block, 4), 6, 0xf7537e82);
    let d = step_i(d, a, b, c, block_word(block, 11), 10, 0xbd3af235);
    let c = step_i(c, d, a, b, block_word(block, 2), 15, 0x2ad7d2bb);
    let b = step_i(b, c, d, a, block_word(block, 9), 21, 0xeb86d391);
    Md5State {
        a: state.a.wrapping_add(a),
        b: state.b.wrapping_add(b),
        c: state.c.wrapping_add(c),
        d: state.d.wrapping_add(d),
    }
}

fn finish_step(a: u32, t: u32, b: u32, x: u32, s: u32, ac: u32) -> (r: u32)
    requires
        0 < s < 32,
    ensures
        r == step_end(a, t, b, x, s, ac),
{
    let sum = a.wrapping_add(t).wrapping_add(x).wrapping_add(ac);
    rotate_left(sum, s).wrapping_add(b)
}

fn ff(a: u32, b: u32, c: u32, d: u32, x: u32, s: u32, ac: u32) -> (r: u32)
    requires
        0 < s < 32,
    ensures
        r == step_f(a, b, c, d, x, s, ac),
{
    finish_step(a, (b & c) | (!b & d), b, x, s, ac)
}

fn gg(a: u32, b: u32, c: u32, d: u32, x: u32, s: u32, ac: u32) -> (r: u32)
    requires
        0 < s < 32,
    ensures
        r == step_g(a, b, c, d, x, s, ac),
{
    finish_step(a, (b & d) | (c & !d), b, x, s, ac)
}

fn hh(a: u32, b: u32, c: u32, d: u32, x: u32, s: u32, ac: u32) -> (r: u32)
    requires
        0 < s < 32,
    ensures
        r == step_h(a, b, c, d, x, s, ac),
{
    finish_step(a, b ^ c ^ d, b, x, s, ac)
}

fn ii(a: u32, b: u32, c: u32, d: u32, x: u32, s: u32, ac: u32) -> (r: u32)
    requires
        0 < s < 32,
    ensures
        r == step_i(a, b, c, d, x, s, ac),
{
    finish_step(a, c ^ (b | !d), b, x, s, ac)
}

fn word_of(block: &Vec<u8>, i: usize) -> (r: u32)
    requires
        block.len() == 64,
        i < 16,
    ensures
        r == block_word(block@, i as int),
{
    word_le(block[4 * i], block[4 * i + 1], block[4 * i + 2], block[4 * i + 3])
}

fn md5_block(state: Md5State, block: &Vec<u8>) -> (r: Md5State)
    requires
        block.len() == 64,
    ensures
        r == md5_transform(state, block@),
{
    reveal(md5_transform);
    let a = state.a;
    let b = state.b;
    let c = state.c;
    let d = state.d;
    let x0 = word_of(block, 0);
    let x1 = word_of(block, 1);
    let x2 = word_of(block, 2);
    let x3 = word_of(block, 3);
    let x4 = word_of(block, 4);
    let x5 = word_of(block, 5);
    let x6 = word_of(block, 6);
    let x7 = word_of(block, 7);
    let x8 = word_of(block, 8);
    let x9 = word_of(block, 9);
    let x10 = word_of(block, 10);
    let x11 = word_of(block, 11);
    let x12 = word_of(block, 12);
    let x13 = word_of(block, 13);
    let x14 = word_of(block, 14);
    let x15 = word_of(block, 15);
    let a = ff(a, b, c, d, x0, 7, 0xd76aa478);
    let d = ff(d, a, b, c, x1, 12, 0xe8c7b756);
    let c = ff(c, d, a, b, x2, 17, 0x242070db);
    let b = ff(b, c, d, a, x3, 22, 0xc1bdceee);
    let a = ff(a, b, c, d, x4, 7, 0xf57c0faf);
    let d = ff(d, a, b, c, x5, 12, 0x4787c62a);
    let c = ff(c, d, a, b, x6, 17, 0xa8304613);
    let b = ff(b, c, d, a, x7, 22, 0xfd469501);
    let a = ff(a, b, c, d, x8, 7, 0x698098d8);
    let d = ff(d, a, b, c, x9, 12, 0x8b44f7af);
    let c = ff(c, d, a, b, x10, 17, 0xffff5bb1);
    let b = ff(b, c, d, a, x11, 22, 0x895cd7be);
    let a = ff(a, b, c, d, x12, 7, 0x6b901122);
    let d = ff(d, a, b, c, x13, 12, 0xfd987193);
    let c = ff(c, d, a, b, x14, 17, 0xa679438e);
    let b = ff(b, c, d, a, x15, 22, 0x49b40821);
    let a = gg(a, b, c, d, x1, 5, 0xf61e2562);
    let d = gg(d, a, b, c, x6, 9, 0xc040b340);
    let c = gg(c, d, a, b, x11, 14, 0x265e5a51);
    let b = gg(b, c, d, a, x0, 20, 0xe9b6c7aa);
    let a = gg(a, b, c, d, x5, 5, 0xd62f105d);
    let d = gg(d, a, b, c, x10, 9, 0x02441453);
    let c = gg(c, d, a, b, x15, 14, 0xd8a1e681);
    let b = gg(b, c, d, a, x4, 20, 0xe7d3fbc8);
    let a = gg(a, b, c, d, x9, 5, 0x21e1cde6);
    let d = gg(d, a, b, c, x14, 9, 0xc33707d6);
    let c = gg(c, d, a, b, x3, 14, 0xf4d50d87);
    let b = gg(b, c, d, a, x8, 20, 0x455a14ed);
    let a = gg(a, b, c, d, x13, 5, 0xa9e3e905);
    let d = gg(d, a, b, c, x2, 9, 0xfcefa3f8);
    let c = gg(c, d, a, b, x7, 14, 0x676f02d9);
    let b = gg(b, c, d, a, x12, 20, 0x8d2a4c8a);
    let a = hh(a, b, c, d, x5, 4, 0xfffa3942);
    let d = hh(d, a, b, c, x8, 11, 0x8771f681);
    let c = hh(c, d, a, b, x11, 16, 0x6d9d6122);
    let b = hh(b, c, d, a, x14, 23, 0xfde5380c);
    let a = hh(a, b, c, d, x1, 4, 0xa4beea44);
    let d = hh(d, a, b, c, x4, 11, 0x4bdecfa9);
    let c = hh(c, d, a, b, x7, 16, 0xf6bb4b60);
    let b = hh(b, c, d, a, x10, 23, 0xbebfbc70);
    let a = hh(a, b, c, d, x13, 4, 0x289b7ec6);
    let d = hh(d, a, b, c, x0, 11, 0xeaa127fa);
    let c = hh(c, d, a, b, x3, 16, 0xd4ef3085);
    let b = hh(b, c, d, a, x6, 23, 0x04881d05);
    let a = hh(a, b, c, d, x9, 4, 0xd9d4d039);
    let d = hh(d, a, b, c, x12, 11, 0xe6db99e5);
    let c = hh(c, d, a, b, x15, 16, 0x1fa27cf8);
    let b = hh(b, c, d, a, x2, 23, 0xc4ac5665);
    let a = ii(a, b, c, d, x0, 6, 0xf4292244);
    let d = ii(d, a, b, c, x7, 10, 0x432aff97);
    let c = ii(c, d, a, b, x14, 15, 0xab9423a7);
    let b = ii(b, c, d, a, x5, 21, 0xfc93a039);
    let a = ii(a, b, c, d, x12, 6, 0x655b59c3);
    let d = ii(d, a, b, c, x3, 10, 0x8f0ccc92);
    let c = ii(c, d, a, b, x10, 15, 0xffeff47d);
    let b = ii(b, c, d, a, x1, 21, 0x85845dd1);
    let a = ii(a, b, c, d, x8, 6, 0x6fa87e4f);
    let d = ii(d, a, b, c, x15, 10, 0xfe2ce6e0);
    let c = ii(c, d, a, b, x6, 15, 0xa3014314);
    let b = ii(b, c, d, a, x13, 21, 0x4e0811a1);
    let a = ii(a, b, c, d, x4, 6, 0xf7537e82);
    let d = ii(d, a, b, c, x11, 10, 0xbd3af235);
    let c = ii(c, d, a, b, x2, 15, 0x2ad7d2bb);
    let b = ii(b, c, d, a, x9, 21, 0xeb86d391);
    Md5State {
        a: state.a.wrapping_add(a),
        b: state.b.wrapping_add(b),
        c: state.c.wrapping_add(c),
        d: state.d.wrapping_add(d),
    }
}

/// The MD5 state before any block.
pub open spec fn md5_init() -> Md5State {
    Md5State { a: 0x67452301, b: 0xefcdab89, c: 0x98badcfe, d: 0x10325476 }
}

/// The MD5 state after the whole blocks of `bytes` have been taken in, one
/// after the other; bytes beyond the last whole block are left aside.
pub open spec fn md5_blocks(state: Md5State, bytes: Seq<u8>) -> Md5State
    decreases bytes.len(),
{
    if bytes.len() < 64 {
        state
    } else {
        md5_blocks(md5_transform(state, bytes.take(64)), bytes.skip(64))
    }
}

/// `n` zero bytes.
pub open spec fn zero_bytes(n: nat) -> Seq<u8> {
    Seq::new(n, |i: int| 0u8)
}

/// The byte of `x` at position `k`, counted from the lowest.
pub open spec fn byte_of64(x: u64, k: u64) -> u8 {
    ((x >> (8 * k) as u64) & 0xff) as u8
}

/// The eight bytes of `x`, lowest first.
pub open spec fn le_bytes64(x: u64) -> Seq<u8> {
    seq![
        byte_of64(x, 0),
        byte_of64(x, 1),
        byte_of64(x, 2),
        byte_of64(x, 3),
        byte_of64(x, 4),
        byte_of64(x, 5),
        byte_of64(x, 6),
        byte_of64(x, 7),
    ]
}

/// The number of padding bytes before the length, for a message of `n`
/// bytes: as many as bring the length to 56 beyond a multiple of 64, and at
/// least one.
pub open spec fn pad_len(n: nat) -> nat {
    if n % 64 < 56 {
        (56 - n % 64) as nat
    } else {
        (120 - n % 64) as nat
    }
}

/// What MD5 appends to a message of `n` bytes: the byte 0x80, zeros, and
/// the length of the message in bits as eight bytes, lowest first.
pub open spec fn md5_padding(n: nat) -> Seq<u8> {
    seq![0x80u8] + zero_bytes((pad_len(n) - 1) as nat) + le_bytes64((8 * n) as u64)
}

/// The four words of a state as sixteen bytes, each word lowest byte first.
pub open spec fn md5_state_bytes(s: Md5State) -> Seq<u8> {
    seq![
        byte_of(s.a, 0),
        byte_of(s.a, 1),
        byte_of(s.a, 2),
        byte_of(s.a, 3),
        byte_of(s.b, 0),
        byte_of(s.b, 1),
        byte_of(s.b, 2),
        byte_of(s.b, 3),
        byte_of(s.c, 0),
        byte_of(s.c, 1),
        byte_of(s.c, 2),
        byte_of(s.c, 3),
        byte_of(s.d, 0),
        byte_of(s.d, 1),
        byte_of(s.d, 2),
        byte_of(s.d, 3),
    ]
}

/// The MD5 digest of a message: the state after the blocks of the padded
/// message, as bytes.
pub open spec fn md5_digest(msg: Seq<u8>) -> Seq<u8> {
    md5_state_bytes(md5_blocks(md5_init(), msg + md5_padding(msg.len())))
}

/// Taking in whole blocks and then more is taking in all at once.
pub proof fn lemma_md5_blocks_split(s: Md5State, a: Seq<u8>, b: Seq<u8>)
    requires
        a.len() % 64 == 0,
    ensures
        md5_blocks(s, a + b) == md5_blocks(md5_blocks(s, a), b),
    decreases a.len(),
{
    if a.len() == 0 {
        assert(a + b =~= b);
    } else {
        assert((a + b).take(64) =~= a.take(64));
        assert((a + b).skip(64) =~= a.skip(64) + b);
        lemma_md5_blocks_split(md5_transform(s, a.take(64)), a.skip(64), b);
    }
}

/// The most that an MD5 hasher takes in: 2^60 bytes.
pub open spec fn max_input() -> nat {
    0x1000_0000_0000_0000
}

/// An MD5 hasher: the state after the whole blocks taken in so far, the
/// bytes since the last whole block, and the number of bytes taken in.
pub struct Md5 {
    pub state: Md5State,
    pub count: u64,
    pub buffer: Vec<u8>,
    pub history: Ghost<Seq<u8>>,
}

impl Md5 {
    /// Whether the hasher stands for its history: the state is that after
    /// the whole blocks of the history, the buffer holds the rest.
    pub open spec fn inv(&self) -> bool {
        &&& self.count == self.history@.len()
        &&& self.count < 0x2000_0000_0000_0000
        &&& self.buffer@.len() == self.history@.len() % 64
        &&& self.buffer@ == self.history@.skip(self.history@.len() - self.buffer@.len())
        &&& self.state == md5_blocks(md5_init(), self.history@)
    }

    /// Whether the hasher is valid: it stands for its history, which is
    /// within the limit.
    pub open spec fn valid(&self) -> bool {
        self.inv() && self.history@.len() <= max_input()
    }

    /// The hasher that has taken in nothing.
    pub fn new() -> (r: Md5)
        ensures
            r.valid(),
            r.history@ == Seq::<u8>::empty(),
    {
        let r = Md5 {
            state: Md5State { a: 0x67452301, b: 0xefcdab89, c: 0x98badcfe, d: 0x10325476 },
            count: 0,
            buffer: Vec::new(),
            history: Ghost(Seq::empty()),
        };
        assert(r.buffer@ =~= r.history@.skip(0));
        r
    }

    fn absorb_byte(&mut self, b: u8)
        requires
            old(self).inv(),
            old(self).history@.len() + 1 < 0x2000_0000_0000_0000,
        ensures
            final(self).inv(),
            final(self).history@ == old(self).history@.push(b),
    {
        let ghost before = self.history@;
        let ghost tail = self.buffer@;
        let ghost done = before.take(before.len() - tail.len());
        self.buffer.push(b);
        self.count = self.count + 1;
        self.history = Ghost(before.push(b));
        proof {
            assert(before =~= done + tail);
            assert(before.push(b) =~= done + tail.push(b));
            assert(done.len() % 64 == 0);
            lemma_md5_blocks_split(md5_init(), done, tail);
            lemma_md5_blocks_split(md5_init(), done, tail.push(b));
            assert(md5_blocks(md5_blocks(md5_init(), done), tail) == md5_blocks(md5_init(), done));
        }
        if self.buffer.len() == 64 {
            self.state = md5_block(self.state, &self.buffer);
            self.buffer.clear();
            proof {
                let block = tail.push(b);
                assert(block.take(64) =~= block);
                assert(block.skip(64) =~= Seq::<u8>::empty());
                assert(md5_blocks(md5_blocks(md5_init(), done), block) == md5_transform(
                    md5_blocks(md5_init(), done),
                    block,
                )) by {
                    assert(md5_blocks(md5_transform(md5_blocks(md5_init(), done), block), block.skip(64))
                        == md5_transform(md5_blocks(md5_init(), done), block));
                }
                assert(self.history@.skip(self.history@.len() as int) =~= Seq::<u8>::empty());
            }
        } else {
            proof {
                assert(md5_blocks(md5_blocks(md5_init(), done), tail.push(b)) == md5_blocks(
                    md5_init(),
                    done,
                ));
                assert(self.buffer@ =~= self.history@.skip(
                    self.history@.len() - self.buffer@.len(),
                ));
            }
        }
    }

    fn absorb(&mut self, data: &[u8])
        requires
            old(self).inv(),
            old(self).history@.len() + data@.len() < 0x2000_0000_0000_0000,
        ensures
            final(self).inv(),
            final(self).history@ == old(self).history@ + data@,
    {
        let mut i: usize = 0;
        assert(self.history@ + data@.take(0) =~= self.history@);
        while i < data.len()
            invariant
                i <= data.len(),
                self.inv(),
                old(self).history@.len() + data@.len() < 0x2000_0000_0000_0000,
                self.history@ == old(self).history@ + data@.take(i as int),
            decreases data.len() - i,
        {
            self.absorb_byte(data[i]);
            assert(old(self).history@ + data@.take(i + 1) =~= (old(self).history@ + data@.take(
                i as int,
            )).push(data@[i as int]));
            i += 1;
        }
        assert(data@.take(data@.len() as int) =~= data@);
    }

    /// Takes in `data`.
    pub fn update(&mut self, data: &[u8])
        requires
            old(self).valid(),
            old(self).history@.len() + data@.len() <= max_input(),
        ensures
            final(self).valid(),
            final(self).history@ == old(self).history@ + data@,
    {
        self.absorb(data);
    }

    /// The digest of all that was taken in.
    pub fn finalize(self) -> (r: [u8; 16])
        requires
            self.valid(),
        ensures
            r@ == md5_digest(self.history@),
    {
        let mut hasher = self;
        let ghost msg = hasher.history@;
        let padding = md5_padding_bytes(hasher.count);
        hasher.absorb(padding.as_slice());
        assert(hasher.history@.len() % 64 == 0);
        assert(hasher.buffer@.len() == 0);
        let s = hasher.state;
        let r = [
            byte(s.a, 0),
            byte(s.a, 1),
            byte(s.a, 2),
            byte(s.a, 3),
            byte(s.b, 0),
            byte(s.b, 1),
            byte(s.b, 2),
            byte(s.b, 3),
            byte(s.c, 0),
            byte(s.c, 1),
            byte(s.c, 2),
            byte(s.c, 3),
            byte(s.d, 0),
            byte(s.d, 1),
            byte(s.d, 2),
            byte(s.d, 3),
        ];
        assert(r@ =~= md5_state_bytes(s));
        r
    }
}

/// The bytes of `x`, lowest first, appended to `out`.
fn push_le64(out: &mut Vec<u8>, x: u64)
    ensures
        final(out)@ == old(out)@ + le_bytes64(x),
{
    let ghost before = out@;
    let mut b: u64 = 0;
    while b < 8
        invariant
            b <= 8,
            out@ == before + le_bytes64(x).take(b as int),
        decreases 8 - b,
    {
        let y = (x >> (8 * b)) & 0xff;
        assert(y < 256) by (bit_vector)
            requires
                y == (x >> (8 * b) as u64) & 0xff,
        ;
        out.push(y as u8);
        assert(out@ =~= before + le_bytes64(x).take(b + 1));
        b += 1;
    }
    assert(le_bytes64(x).take(8) =~= le_bytes64(x));
}

/// What MD5 appends to a message of `count` bytes.
fn md5_padding_bytes(count: u64) -> (r: Vec<u8>)
    requires
        count < 0x2000_0000_0000_0000,
    ensures
        r@ == md5_padding(count as nat),
        r@.len() <= 72,
        (count + r@.len()) % 64 == 0,
{
    let bits: u64 = count * 8;
    let index: usize = (count % 64) as usize;
    let fill: usize = if index < 56 {
        56 - index
    } else {
        120 - index
    };
    let mut padding: Vec<u8> = Vec::new();
    padding.push(0x80);
    let mut k: usize = 1;
    assert(padding@ =~= seq![0x80u8] + zero_bytes(0));
    while k < fill
        invariant
            1 <= k <= fill,
            padding@ == seq![0x80u8] + zero_bytes((k - 1) as nat),
        decreases fill - k,
    {
        padding.push(0);
        assert(padding@ =~= seq![0x80u8] + zero_bytes(k as nat));
        k += 1;
    }
    push_le64(&mut padding, bits);
    padding
}

/// The MD5 digest of `data`.
pub fn compute(data: &[u8]) -> (r: [u8; 16])
    requires
        data@.len() <= max_input(),
    ensures
        r@ == md5_digest(data@),
{
    let mut hasher = Md5::new();
    hasher.update(data);
    assert(hasher.history@ =~= data@);
    hasher.finalize()
}

/// The lower-case hexadecimal digit for a number below sixteen.
pub open spec fn hex_digit(n: u8) -> char {
    if n < 10 {
        ((n + 48) as u8) as char
    } else {
        ((n + 87) as u8) as char
    }
}

/// The bytes from `i` on in hexadecimal, two lower-case digits each.
pub open spec fn hex_from(bytes: Seq<u8>, i: int) -> Seq<char>
    decreases bytes.len() - i,
{
    if 0 <= i < bytes.len() {
        seq![hex_digit(bytes[i] / 16), hex_digit(bytes[i] % 16)] + hex_from(bytes, i + 1)
    } else {
        Seq::empty()
    }
}

/// The bytes in hexadecimal.
pub open spec fn hex_text(bytes: Seq<u8>) -> Seq<char> {
    hex_from(bytes, 0)
}

fn hex_char(n: u8) -> (r: char)
    requires
        n < 16,
    ensures
        r == hex_digit(n),
{
    if n < 10 {
        (n + 48) as char
    } else {
        (n + 87) as char
    }
}

fn hex_of(bytes: &[u8]) -> (r: String)
    ensures
        r@ == hex_text(bytes@),
{
    let mut out: Vec<char> = Vec::new();
    let mut i: usize = 0;
    while i < bytes.len()
        invariant
            i <= bytes.len(),
            out@ + hex_from(bytes@, i as int) == hex_from(bytes@, 0),
        decreases bytes.len() - i,
    {
        let ghost before = out@;
        out.push(hex_char(bytes[i] / 16));
        out.push(hex_char(bytes[i] % 16));
        assert(out@ + hex_from(bytes@, i + 1) =~= before + (seq![
            hex_digit(bytes@[i as int] / 16),
            hex_digit(bytes@[i as int] % 16),
        ] + hex_from(bytes@, i + 1)));
        i += 1;
    }
    assert(out@ + Seq::<char>::empty() =~= out@);
    string_of(&out)
}

/// The digest in hexadecimal.
pub fn format_hash(hash: &[u8; 16]) -> (r: String)
    ensures
        r@ == hex_text(hash@),
{
    hex_of(hash.as_slice())
}

/// The MD5 digest of `data` in hexadecimal.
pub fn compute_hex(data: &[u8]) -> (r: String)
    requires
        data@.len() <= max_input(),
    ensures
        r@ == hex_text(md5_digest(data@)),
{
    format_hash(&compute(data))
}

// ---------------------------------------------------------------------------
// SHA-256
// ---------------------------------------------------------------------------

/// The eight words of the SHA-256 state.
#[derive(Debug, Clone, Copy, PartialEq, Eq, Structural)]
pub struct Sha256State {
    pub a: u32,
    pub b: u32,
    pub c: u32,
    pub d: u32,
    pub e: u32,
    pub f: u32,
    pub g: u32,
    pub h: u32,
}

/// The round constants.
pub open spec fn sha_constants() -> Seq<u32> {
    seq![
        0x428a2f98u32, 0x71374491u32, 0xb5c0fbcfu32, 0xe9b5dba5u32,
        0x3956c25bu32, 0x59f111f1u32, 0x923f82a4u32, 0xab1c5ed5u32,
        0xd807aa98u32, 0x12835b01u32, 0x243185beu32, 0x550c7dc3u32,
        0x72be5d74u32, 0x80deb1feu32, 0x9bdc06a7u32, 0xc19bf174u32,
        0xe49b69c1u32, 0xefbe4786u32, 0x0fc19dc6u32, 0x240ca1ccu32,
        0x2de92c6fu32, 0x4a7484aau32, 0x5cb0a9dcu32, 0x76f988dau32,
        0x983e5152u32, 0xa831c66du32, 0xb00327c8u32, 0xbf597fc7u32,
        0xc6e00bf3u32, 0xd5a79147u32, 0x06ca6351u32, 0x14292967u32,
        0x27b70a85u32, 0x2e1b2138u32, 0x4d2c6dfcu32, 0x53380d13u32,
        0x650a7354u32, 0x766a0abbu32, 0x81c2c92eu32, 0x92722c85u32,
        0xa2bfe8a1u32, 0xa81a664bu32, 0xc24b8b70u32, 0xc76c51a3u32,
        0xd192e819u32, 0xd6990624u32, 0xf40e3585u32, 0x106aa070u32,
        0x19a4c116u32, 0x1e376c08u32, 0x2748774cu32, 0x34b0bcb5u32,
        0x391c0cb3u32, 0x4ed8aa4au32, 0x5b9cca4fu32, 0x682e6ff3u32,
        0x748f82eeu32, 0x78a5636fu32, 0x84c87814u32, 0x8cc70208u32,
        0x90befffau32, 0xa4506cebu32, 0xbef9a3f7u32, 0xc67178f2u32,
    ]
}

/// The 32-bit number with the bytes `b0` to `b3`, highest first.
pub open spec fn be32(b0: u8, b1: u8, b2: u8, b3: u8) -> u32 {
    ((b0 as u32) << 24) | ((b1 as u32) << 16) | ((b2 as u32) << 8) | (b3 as u32)
}

/// The small sigma function 0 of the message schedule.
pub open spec fn small_sigma0(x: u32) -> u32 {
    rotr(x, 7) ^ rotr(x, 18) ^ (x >> 3)
}

/// The small sigma function 1 of the message schedule.
pub open spec fn small_sigma1(x: u32) -> u32 {
    rotr(x, 17) ^ rotr(x, 19) ^ (x >> 10)
}

/// The big sigma function 0 of the rounds.
pub open spec fn big_sigma0(x: u32) -> u32 {
    rotr(x, 2) ^ rotr(x, 13) ^ rotr(x, 22)
}

/// The big sigma function 1 of the rounds.
pub open spec fn big_sigma1(x: u32) -> u32 {
    rotr(x, 6) ^ rotr(x, 11) ^ rotr(x, 25)
}

/// The word `t` of the message schedule of a block: the first sixteen are
/// the words of the block, highest byte first; each later one is made of
/// four earlier ones.
pub open spec fn schedule_word(block: Seq<u8>, t: int) -> u32
    decreases t,
{
    if t < 0 {
        0
    } else if t < 16 {
        be32(block[4 * t], block[4 * t + 1], block[4 * t + 2], block[4 * t + 3])
    } else {
        schedule_word(block, t - 16).wrapping_add(
            small_sigma0(schedule_word(block, t - 15)),
        ).wrapping_add(schedule_word(block, t - 7)).wrapping_add(
            small_sigma1(schedule_word(block, t - 2)),
        )
    }
}

/// The working state after one more round with the constant `k` and the
/// schedule word `w`.
pub open spec fn sha_round(s: Sha256State, k: u32, w: u32) -> Sha256State {
    let t1 = s.h.wrapping_add(big_sigma1(s.e)).wrapping_add((s.e & s.f) ^ (!s.e & s.g)).wrapping_add(
        k,
    ).wrapping_add(w);
    let t2 = big_sigma0(s.a).wrapping_add((s.a & s.b) ^ (s.a & s.c) ^ (s.b & s.c));
    Sha256State {
        a: t1.wrapping_add(t2),
        b: s.a,
        c: s.b,
        d: s.c,
        e: s.d.wrapping_add(t1),
        f: s.e,
        g: s.f,
        h: s.g,
    }
}

/// The working state after the first `t` rounds on a block.
pub open spec fn sha_rounds(s: Sha256State, block: Seq<u8>, t: int) -> Sha256State
    decreases t,
{
    if t <= 0 {
        s
    } else {
        sha_round(sha_rounds(s, block, t - 1), sha_constants()[t - 1], schedule_word(block, t - 1))
    }
}

/// The sum of two states, word by word.
pub open spec fn sha_sum(s: Sha256State, t: Sha256State) -> Sha256State {
    Sha256State {
        a: s.a.wrapping_add(t.a),
        b: s.b.wrapping_add(t.b),
        c: s.c.wrapping_add(t.c),
        d: s.d.wrapping_add(t.d),
        e: s.e.wrapping_add(t.e),
        f: s.f.wrapping_add(t.f),
        g: s.g.wrapping_add(t.g),
        h: s.h.wrapping_add(t.h),
    }
}

/// The SHA-256 state after the block of 64 bytes has been taken in: the sum
/// of the state before and the working state after 64 rounds.
pub open spec fn sha256_transform(state: Sha256State, block: Seq<u8>) -> Sha256State {
    sha_sum(state, sha_rounds(state, block, 64))
}

/// The SHA-256 state before any block.
pub open spec fn sha256_init() -> Sha256State {
    Sha256State {
        a: 0x6a09e667,
        b: 0xbb67ae85,
        c: 0x3c6ef372,
        d: 0xa54ff53a,
        e: 0x510e527f,
        f: 0x9b05688c,
        g: 0x1f83d9ab,
        h: 0x5be0cd19,
    }
}

fn constants() -> (r: Vec<u32>)
    ensures
        r@ == sha_constants(),
{
    let r: Vec<u32> = vec![
        0x428a2f98u32, 0x71374491u32, 0xb5c0fbcfu32, 0xe9b5dba5u32,
        0x3956c25bu32, 0x59f111f1u32, 0x923f82a4u32, 0xab1c5ed5u32,
        0xd807aa98u32, 0x12835b01u32, 0x243185beu32, 0x550c7dc3u32,
        0x72be5d74u32, 0x80deb1feu32, 0x9bdc06a7u32, 0xc19bf174u32,
        0xe49b69c1u32, 0xefbe4786u32, 0x0fc19dc6u32, 0x240ca1ccu32,
        0x2de92c6fu32, 0x4a7484aau32, 0x5cb0a9dcu32, 0x76f988dau32,
        0x983e5152u32, 0xa831c66du32, 0xb00327c8u32, 0xbf597fc7u32,
        0xc6e00bf3u32, 0xd5a79147u32, 0x06ca6351u32, 0x14292967u32,
        0x27b70a85u32, 0x2e1b2138u32, 0x4d2c6dfcu32, 0x53380d13u32,
        0x650a7354u32, 0x766a0abbu32, 0x81c2c92eu32, 0x92722c85u32,
        0xa2bfe8a1u32, 0xa81a664bu32, 0xc24b8b70u32, 0xc76c51a3u32,
        0xd192e819u32, 0xd6990624u32, 0xf40e3585u32, 0x106aa070u32,
        0x19a4c116u32, 0x1e376c08u32, 0x2748774cu32, 0x34b0bcb5u32,
        0x391c0cb3u32, 0x4ed8aa4au32, 0x5b9cca4fu32, 0x682e6ff3u32,
        0x748f82eeu32, 0x78a5636fu32, 0x84c87814u32, 0x8cc70208u32,
        0x90befffau32, 0xa4506cebu32, 0xbef9a3f7u32, 0xc67178f2u32,
    ];
    assert(r@ =~= sha_constants());
    r
}

fn word_be(b0: u8, b1: u8, b2: u8, b3: u8) -> (r: u32)
    ensures
        r == be32(b0, b1, b2, b3),
{
    ((b0 as u32) << 24) | ((b1 as u32) << 16) | ((b2 as u32) << 8) | (b3 as u32)
}

fn schedule(block: &Vec<u8>) -> (w: Vec<u32>)
    requires
        block.len() == 64,
    ensures
        w.len() == 64,
        forall|t: int| 0 <= t < 64 ==> #[trigger] w[t] == schedule_word(block@, t),
{
    let mut w: Vec<u32> = Vec::new();
    let mut i: usize = 0;
    while i < 16
        invariant
            i <= 16,
            block.len() == 64,
            w.len() == i,
            forall|t: int| 0 <= t < i ==> #[trigger] w[t] == schedule_word(block@, t),
        decreases 16 - i,
    {
        w.push(word_be(block[4 * i], block[4 * i + 1], block[4 * i + 2], block[4 * i + 3]));
        i += 1;
    }
    while i < 64
        invariant
            16 <= i <= 64,
            w.len() == i,
            forall|t: int| 0 <= t < i ==> #[trigger] w[t] == schedule_word(block@, t),
        decreases 64 - i,
    {
        let x = w[i - 15];
        let y = w[i - 2];
        let s0 = rotate_right(x, 7) ^ rotate_right(x, 18) ^ (x >> 3);
        let s1 = rotate_right(y, 17) ^ rotate_right(y, 19) ^ (y >> 10);
        let next = w[i - 16].wrapping_add(s0).wrapping_add(w[i - 7]).wrapping_add(s1);
        assert(next == schedule_word(block@, i as int));
        w.push(next);
        i += 1;
    }
    w
}

fn round(s: Sha256State, k: u32, w: u32) -> (r: Sha256State)
    ensures
        r == sha_round(s, k, w),
{
    let s1 = rotate_right(s.e, 6) ^ rotate_right(s.e, 11) ^ rotate_right(s.e, 25);
    let ch = (s.e & s.f) ^ (!s.e & s.g);
    let t1 = s.h.wrapping_add(s1).wrapping_add(ch).wrapping_add(k).wrapping_add(w);
    let s0 = rotate_right(s.a, 2) ^ rotate_right(s.a, 13) ^ rotate_right(s.a, 22);
    let maj = (s.a & s.b) ^ (s.a & s.c) ^ (s.b & s.c);
    let t2 = s0.wrapping_add(maj);
    Sha256State {
        a: t1.wrapping_add(t2),
        b: s.a,
        c: s.b,
        d: s.c,
        e: s.d.wrapping_add(t1),
        f: s.e,
        g: s.f,
        h: s.g,
    }
}

fn sha256_block(state: Sha256State, block: &Vec<u8>) -> (r: Sha256State)
    requires
        block.len() == 64,
    ensures
        r == sha256_transform(state, block@),
{
    let w = schedule(block);
    let k = constants();
    let mut s = state;
    let mut i: usize = 0;
    while i < 64
        invariant
            i <= 64,
            w.len() == 64,
            k@ == sha_constants(),
            forall|t: int| 0 <= t < 64 ==> #[trigger] w[t] == schedule_word(block@, t),
            s == sha_rounds(state, block@, i as int),
        decreases 64 - i,
    {
        assert(k@[i as int] == sha_constants()[i as int]);
        s = round(s, k[i], w[i]);
        i += 1;
    }
    Sha256State {
        a: state.a.wrapping_add(s.a),
        b: state.b.wrapping_add(s.b),
        c: state.c.wrapping_add(s.c),
        d: state.d.wrapping_add(s.d),
        e: state.e.wrapping_add(s.e),
        f: state.f.wrapping_add(s.f),
        g: state.g.wrapping_add(s.g),
        h: state.h.wrapping_add(s.h),
    }
}

/// The SHA-256 state after the whole blocks of `bytes` have been taken in,
/// one after the other; bytes beyond the last whole block are left aside.
pub open spec fn sha256_blocks(state: Sha256State, bytes: Seq<u8>) -> Sha256State
    decreases bytes.len(),
{
    if bytes.len() < 64 {
        state
    } else {
        sha256_blocks(sha256_transform(state, bytes.take(64)), bytes.skip(64))
    }
}

/// The eight bytes of `x`, highest first.
pub open spec fn be_bytes64(x: u64) -> Seq<u8> {
    seq![
        byte_of64(x, 7),
        byte_of64(x, 6),
        byte_of64(x, 5),
        byte_of64(x, 4),
        byte_of64(x, 3),
        byte_of64(x, 2),
        byte_of64(x, 1),
        byte_of64(x, 0),
    ]
}

/// What SHA-256 appends to a message of `n` bytes: the byte 0x80, zeros,
/// and the length of the message in bits as eight bytes, highest first.
pub open spec fn sha256_padding(n: nat) -> Seq<u8> {
    seq![0x80u8] + zero_bytes((pad_len(n) - 1) as nat) + be_bytes64((8 * n) as u64)
}

/// The four bytes of `x`, highest first.
pub open spec fn be_bytes32(x: u32) -> Seq<u8> {
    seq![byte_of(x, 3), byte_of(x, 2), byte_of(x, 1), byte_of(x, 0)]
}

/// The eight words of a state as 32 bytes, each word highest byte first.
pub open spec fn sha256_state_bytes(s: Sha256State) -> Seq<u8> {
    be_bytes32(s.a) + be_bytes32(s.b) + be_bytes32(s.c) + be_bytes32(s.d) + be_bytes32(s.e)
        + be_bytes32(s.f) + be_bytes32(s.g) + be_bytes32(s.h)
}

/// The SHA-256 digest of a message: the state after the blocks of the
/// padded message, as bytes.
pub open spec fn sha256_digest(msg: Seq<u8>) -> Seq<u8> {
    sha256_state_bytes(sha256_blocks(sha256_init(), msg + sha256_padding(msg.len())))
}

/// Taking in whole blocks and then more is taking in all at once.
pub proof fn lemma_sha256_blocks_split(s: Sha256State, a: Seq<u8>, b: Seq<u8>)
    requires
        a.len() % 64 == 0,
    ensures
        sha256_blocks(s, a + b) == sha256_blocks(sha256_blocks(s, a), b),
    decreases a.len(),
{
    if a.len() == 0 {
        assert(a + b =~= b);
    } else {
        assert((a + b).take(64) =~= a.take(64));
        assert((a + b).skip(64) =~= a.skip(64) + b);
        lemma_sha256_blocks_split(sha256_transform(s, a.take(64)), a.skip(64), b);
    }
}

/// A SHA-256 hasher: the state after the whole blocks taken in so far, the
/// bytes since the last whole block, and the number of bytes taken in.
pub struct Sha256 {
    pub state: Sha256State,
    pub count: u64,
    pub buffer: Vec<u8>,
    pub history: Ghost<Seq<u8>>,
}

/// The bytes of `x`, highest first, appended to `out`.
fn push_be64(out: &mut Vec<u8>, x: u64)
    ensures
        final(out)@ == old(out)@ + be_bytes64(x),
{
    let ghost before = out@;
    let mut b: u64 = 0;
    while b < 8
        invariant
            b <= 8,
            out@ == before + be_bytes64(x).take(b as int),
        decreases 8 - b,
    {
        let k: u64 = 7 - b;
        let y = (x >> (8 * k)) & 0xff;
        assert(y < 256) by (bit_vector)
            requires
                y == (x >> (8 * k) as u64) & 0xff,
        ;
        out.push(y as u8);
        assert(out@ =~= before + be_bytes64(x).take(b + 1));
        b += 1;
    }
    assert(be_bytes64(x).take(8) =~= be_bytes64(x));
}

/// What SHA-256 appends to a message of `count` bytes.
fn sha256_padding_bytes(count: u64) -> (r: Vec<u8>)
    requires
        count < 0x2000_0000_0000_0000,
    ensures
        r@ == sha256_padding(count as nat),
        r@.len() <= 72,
        (count + r@.len()) % 64 == 0,
{
    let bits: u64 = count * 8;
    let index: usize = (count % 64) as usize;
    let fill: usize = if index < 56 {
        56 - index
    } else {
        120 - index
    };
    let mut padding: Vec<u8> = Vec::new();
    padding.push(0x80);
    let mut k: usize = 1;
    assert(padding@ =~= seq![0x80u8] + zero_bytes(0));
    while k < fill
        invariant
            1 <= k <= fill,
            padding@ == seq![0x80u8] + zero_bytes((k - 1) as nat),
        decreases fill - k,
    {
        padding.push(0);
        assert(padding@ =~= seq![0x80u8] + zero_bytes(k as nat));
        k += 1;
    }
    push_be64(&mut padding, bits);
    padding
}

impl Sha256 {
    /// Whether the hasher stands for its history: the state is that after
    /// the whole blocks of the history, the buffer holds the rest.
    pub open spec fn inv(&self) -> bool {
        &&& self.count == self.history@.len()
        &&& self.count < 0x2000_0000_0000_0000
        &&& self.buffer@.len() == self.history@.len() % 64
        &&& self.buffer@ == self.history@.skip(self.history@.len() - self.buffer@.len())
        &&& self.state == sha256_blocks(sha256_init(), self.history@)
    }

    /// Whether the hasher is valid: it stands for its history, which is
    /// within the limit.
    pub open spec fn valid(&self) -> bool {
        self.inv() && self.history@.len() <= max_input()
    }

    /// The hasher that has taken in nothing.
    pub fn new() -> (r: Sha256)
        ensures
            r.valid(),
            r.history@ == Seq::<u8>::empty(),
    {
        let r = Sha256 {
            state: Sha256State {
                a: 0x6a09e667,
                b: 0xbb67ae85,
                c: 0x3c6ef372,
                d: 0xa54ff53a,
                e: 0x510e527f,
                f: 0x9b05688c,
                g: 0x1f83d9ab,
                h: 0x5be0cd19,
            },
            count: 0,
            buffer: Vec::new(),
            history: Ghost(Seq::empty()),
        };
        assert(r.buffer@ =~= r.history@.skip(0));
        r
    }

    fn absorb_byte(&mut self, b: u8)
        requires
            old(self).inv(),
            old(self).history@.len() + 1 < 0x2000_0000_0000_0000,
        ensures
            final(self).inv(),
            final(self).history@ == old(self).history@.push(b),
    {
        let ghost before = self.history@;
        let ghost tail = self.buffer@;
        let ghost done = before.take(before.len() - tail.len());
        self.buffer.push(b);
        self.count = self.count + 1;
        self.history = Ghost(before.push(b));
        proof {
            assert(before =~= done + tail);
            assert(before.push(b) =~= done + tail.push(b));
            assert(done.len() % 64 == 0);
            lemma_sha256_blocks_split(sha256_init(), done, tail);
            lemma_sha256_blocks_split(sha256_init(), done, tail.push(b));
            assert(sha256_blocks(sha256_blocks(sha256_init(), done), tail) == sha256_blocks(
                sha256_init(),
                done,
            ));
        }
        if self.buffer.len() == 64 {
            self.state = sha256_block(self.state, &self.buffer);
            self.buffer.clear();
            proof {
                let block = tail.push(b);
                let s0 = sha256_blocks(sha256_init(), done);
                assert(block.take(64) =~= block);
                assert(block.skip(64) =~= Seq::<u8>::empty());
                assert(sha256_blocks(sha256_transform(s0, block), block.skip(64))
                    == sha256_transform(s0, block));
                assert(sha256_blocks(s0, block) == sha256_transform(s0, block));
                assert(self.history@.skip(self.history@.len() as int) =~= Seq::<u8>::empty());
            }
        } else {
            proof {
                assert(sha256_blocks(sha256_blocks(sha256_init(), done), tail.push(b))
                    == sha256_blocks(sha256_init(), done));
                assert(self.buffer@ =~= self.history@.skip(
                    self.history@.len() - self.buffer@.len(),
                ));
            }
        }
    }

    fn absorb(&mut self, data: &[u8])
        requires
            old(self).inv(),
            old(self).history@.len() + data@.len() < 0x2000_0000_0000_0000,
        ensures
            final(self).inv(),
            final(self).history@ == old(self).history@ + data@,
    {
        let mut i: usize = 0;
        assert(self.history@ + data@.take(0) =~= self.history@);
        while i < data.len()
            invariant
                i <= data.len(),
                self.inv(),
                old(self).history@.len() + data@.len() < 0x2000_0000_0000_0000,
                self.history@ == old(self).history@ + data@.take(i as int),
            decreases data.len() - i,
        {
            self.absorb_byte(data[i]);
            assert(old(self).history@ + data@.take(i + 1) =~= (old(self).history@ + data@.take(
                i as int,
            )).push(data@[i as int]));
            i += 1;
        }
        assert(data@.take(data@.len() as int) =~= data@);
    }

    /// Takes in `data`.
    pub fn update(&mut self, data: &[u8])
        requires
            old(self).valid(),
            old(self).history@.len() + data@.len() <= max_input(),
        ensures
            final(self).valid(),
            final(self).history@ == old(self).history@ + data@,
    {
        self.absorb(data);
    }

    /// The digest of all that was taken in.
    pub fn finalize(self) -> (r: [u8; 32])
        requires
            self.valid(),
        ensures
            r@ == sha256_digest(self.history@),
    {
        let mut hasher = self;
        let padding = sha256_padding_bytes(hasher.count);
        hasher.absorb(padding.as_slice());
        assert(hasher.history@.len() % 64 == 0);
        assert(hasher.buffer@.len() == 0);
        let s = hasher.state;
        let r = [
            byte(s.a, 3),
            byte(s.a, 2),
            byte(s.a, 1),
            byte(s.a, 0),
            byte(s.b, 3),
            byte(s.b, 2),
            byte(s.b, 1),
            byte(s.b, 0),
            byte(s.c, 3),
            byte(s.c, 2),
            byte(s.c, 1),
            byte(s.c, 0),
            byte(s.d, 3),
            byte(s.d, 2),
            byte(s.d, 1),
            byte(s.d, 0),
            byte(s.e, 3),
            byte(s.e, 2),
            byte(s.e, 1),
            byte(s.e, 0),
            byte(s.f, 3),
            byte(s.f, 2),
            byte(s.f, 1),
            byte(s.f, 0),
            byte(s.g, 3),
            byte(s.g, 2),
            byte(s.g, 1),
            byte(s.g, 0),
            byte(s.h, 3),
            byte(s.h, 2),
            byte(s.h, 1),
            byte(s.h, 0),
        ];
        assert(r@ =~= sha256_state_bytes(s));
        r
    }
}

/// The SHA-256 digest of `data`.
pub fn compute_sha256(data: &[u8]) -> (r: [u8; 32])
    requires
        data@.len() <= max_input(),
    ensures
        r@ == sha256_digest(data@),
{
    let mut hasher = Sha256::new();
    hasher.update(data);
    assert(hasher.history@ =~= data@);
    hasher.finalize()
}

/// The SHA-256 digest of `data` in hexadecimal.
pub fn compute_sha256_hex(data: &[u8]) -> (r: String)
    requires
        data@.len() <= max_input(),
    ensures
        r@ == hex_text(sha256_digest(data@)),
{
    let digest = compute_sha256(data);
    hex_of(digest.as_slice())
}

} // verus!
