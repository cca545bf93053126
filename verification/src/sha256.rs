//! SHA-256, the digest that the checksums of files and cache slots are
//! made with.

use vstd::prelude::*;
use crate::digest::Sha256Hash;

verus! {

/// The constants of the 64 rounds.
pub const ROUND_CONSTANTS: [u32; 64] = [
    0x428a2f98,
    0x71374491,
    0xb5c0fbcf,
    0xe9b5dba5,
    0x3956c25b,
    0x59f111f1,
    0x923f82a4,
    0xab1c5ed5,
    0xd807aa98,
    0x12835b01,
    0x243185be,
    0x550c7dc3,
    0x72be5d74,
    0x80deb1fe,
    0x9bdc06a7,
    0xc19bf174,
    0xe49b69c1,
    0xefbe4786,
    0x0fc19dc6,
    0x240ca1cc,
    0x2de92c6f,
    0x4a7484aa,
    0x5cb0a9dc,
    0x76f988da,
    0x983e5152,
    0xa831c66d,
    0xb00327c8,
    0xbf597fc7,
    0xc6e00bf3,
    0xd5a79147,
    0x06ca6351,
    0x14292967,
    0x27b70a85,
    0x2e1b2138,
    0x4d2c6dfc,
    0x53380d13,
    0x650a7354,
    0x766a0abb,
    0x81c2c92e,
    0x92722c85,
    0xa2bfe8a1,
    0xa81a664b,
    0xc24b8b70,
    0xc76c51a3,
    0xd192e819,
    0xd6990624,
    0xf40e3585,
    0x106aa070,
    0x19a4c116,
    0x1e376c08,
    0x2748774c,
    0x34b0bcb5,
    0x391c0cb3,
    0x4ed8aa4a,
    0x5b9cca4f,
    0x682e6ff3,
    0x748f82ee,
    0x78a5636f,
    0x84c87814,
    0x8cc70208,
    0x90befffa,
    0xa4506ceb,
    0xbef9a3f7,
    0xc67178f2,
];

/// The eight words that are worked on.
#[derive(Debug, Clone, Copy, PartialEq, Eq, Structural)]
pub struct State {
    pub a: u32,
    pub b: u32,
    pub c: u32,
    pub d: u32,
    pub e: u32,
    pub f: u32,
    pub g: u32,
    pub h: u32,
}

/// The state that the digest of every message starts from.
pub open spec fn initial_state() -> State {
    State {
        a: 0x6a09e667,
        b: 0xbb67ae85,
        c: 0x3c6ef372,
        d: 0xa54ff53a,
        e: 0x510e527f,
        f: 0x9b05688c,
        g: 0x1f83d9ab,
        h: 0x5be0cd19,
    }
}

/// The sum of `a` and `b`, cut to 32 bits.
pub open spec fn plus(a: u32, b: u32) -> u32 {
    ((a as int + b as int) % 0x1_0000_0000) as u32
}

/// `x` turned right by `n` bits.
pub open spec fn rotr(x: u32, n: u32) -> u32 {
    (x >> n) | (x << ((32 - n) as u32))
}

/// Bit by bit `y` where `x` has a one, `z` where it has a zero.
pub open spec fn ch(x: u32, y: u32, z: u32) -> u32 {
    (x & y) ^ (!x & z)
}

/// Bit by bit what two of the three at least have.
pub open spec fn maj(x: u32, y: u32, z: u32) -> u32 {
    (x & y) ^ (x & z) ^ (y & z)
}

/// The first of the two mixing functions of a round.
pub open spec fn big_sigma0(x: u32) -> u32 {
    rotr(x, 2) ^ rotr(x, 13) ^ rotr(x, 22)
}

/// The second of the two mixing functions of a round.
pub open spec fn big_sigma1(x: u32) -> u32 {
    rotr(x, 6) ^ rotr(x, 11) ^ rotr(x, 25)
}

/// The first of the two mixing functions of the message schedule.
pub open spec fn small_sigma0(x: u32) -> u32 {
    rotr(x, 7) ^ rotr(x, 18) ^ (x >> 3u32)
}

/// The second of the two mixing functions of the message schedule.
pub open spec fn small_sigma1(x: u32) -> u32 {
    rotr(x, 17) ^ rotr(x, 19) ^ (x >> 10u32)
}

/// The word that the four bytes of `block` from `4 * t` on write, the
/// highest byte first.
pub open spec fn word_at(block: Seq<u8>, t: int) -> u32 {
    (block[4 * t] as int * 0x100_0000 + block[4 * t + 1] as int * 0x1_0000 + block[4 * t + 2] as int
        * 0x100 + block[4 * t + 3] as int) as u32
}

/// The word of the message schedule for the round `t` of a block.
pub open spec fn schedule(block: Seq<u8>, t: int) -> u32
    decreases t,
{
    if t < 16 {
        word_at(block, t)
    } else {
        plus(
            plus(
                plus(small_sigma1(schedule(block, t - 2)), schedule(block, t - 7)),
                small_sigma0(schedule(block, t - 15)),
            ),
            schedule(block, t - 16),
        )
    }
}

/// The state after one round with the constant `k` and the word `w`.
pub open spec fn step(s: State, k: u32, w: u32) -> State {
    let t1 = plus(plus(plus(plus(s.h, big_sigma1(s.e)), ch(s.e, s.f, s.g)), k), w);
    let t2 = plus(big_sigma0(s.a), maj(s.a, s.b, s.c));
    State { a: plus(t1, t2), b: s.a, c: s.b, d: s.c, e: plus(s.d, t1), f: s.e, g: s.f, h: s.g }
}

/// The state after the first `t` rounds on a block.
pub open spec fn rounds(s: State, block: Seq<u8>, t: int) -> State
    decreases t,
{
    if t <= 0 {
        s
    } else {
        step(rounds(s, block, t - 1), ROUND_CONSTANTS@[t - 1], schedule(block, t - 1))
    }
}

/// The state after a block was taken in: the 64 rounds, and their outcome
/// added to the state before.
pub open spec fn compress(s: State, block: Seq<u8>) -> State {
    let r = rounds(s, block, 64);
    State {
        a: plus(s.a, r.a),
        b: plus(s.b, r.b),
        c: plus(s.c, r.c),
        d: plus(s.d, r.d),
        e: plus(s.e, r.e),
        f: plus(s.f, r.f),
        g: plus(s.g, r.g),
        h: plus(s.h, r.h),
    }
}

/// The state after the first `n` blocks of 64 bytes of `bytes` were taken
/// in.
pub open spec fn absorb(bytes: Seq<u8>, n: int) -> State
    decreases n,
{
    if n <= 0 {
        initial_state()
    } else {
        compress(absorb(bytes, n - 1), bytes.subrange(64 * (n - 1), 64 * n))
    }
}

/// The number of zero bytes in the padding of a message of `len` bytes.
pub open spec fn zeros_for(len: nat) -> nat {
    ((119 - len % 64) % 64) as nat
}

/// The eight bytes that write `bits`, the highest first.
pub open spec fn length_bytes(bits: u64) -> Seq<u8> {
    seq![
        (bits / 0x100_0000_0000_0000) as u8,
        (bits / 0x1_0000_0000_0000 % 0x100) as u8,
        (bits / 0x100_0000_0000 % 0x100) as u8,
        (bits / 0x1_0000_0000 % 0x100) as u8,
        (bits / 0x100_0000 % 0x100) as u8,
        (bits / 0x1_0000 % 0x100) as u8,
        (bits / 0x100 % 0x100) as u8,
        (bits % 0x100) as u8,
    ]
}

/// The length of a message of `len` bytes in bits, cut to 64 bits.
pub open spec fn bit_length(len: nat) -> u64 {
    ((len * 8) % 0x1_0000_0000_0000_0000) as u64
}

/// The message with its padding: a byte 0x80, zero bytes, and the length
/// of the message in bits, so that the whole fills blocks of 64 bytes.
pub open spec fn padded(m: Seq<u8>) -> Seq<u8> {
    m + seq![0x80u8] + Seq::new(zeros_for(m.len()), |i: int| 0u8) + length_bytes(
        bit_length(m.len()),
    )
}

/// The four bytes of `w`, the highest first.
pub open spec fn word_bytes(w: u32) -> Seq<u8> {
    seq![
        (w / 0x100_0000) as u8,
        (w / 0x1_0000 % 0x100) as u8,
        (w / 0x100 % 0x100) as u8,
        (w % 0x100) as u8,
    ]
}

/// The 32 bytes of a state.
pub open spec fn state_bytes(s: State) -> Seq<u8> {
    word_bytes(s.a) + word_bytes(s.b) + word_bytes(s.c) + word_bytes(s.d) + word_bytes(s.e)
        + word_bytes(s.f) + word_bytes(s.g) + word_bytes(s.h)
}

/// The SHA-256 digest of the message `m`.
pub open spec fn sha256(m: Seq<u8>) -> Seq<u8> {
    state_bytes(absorb(padded(m), padded(m).len() as int / 64))
}

fn add32(a: u32, b: u32) -> (r: u32)
    ensures
        r == plus(a, b),
{
    ((a as u64 + b as u64) % 0x1_0000_0000) as u32
}

fn turn(x: u32, n: u32) -> (r: u32)
    requires
        0 < n < 32,
    ensures
        r == rotr(x, n),
{
    (x >> n) | (x << (32 - n))
}

fn one_round(s: State, k: u32, w: u32) -> (r: State)
    ensures
        r == step(s, k, w),
{
    let big1 = turn(s.e, 6) ^ turn(s.e, 11) ^ turn(s.e, 25);
    let chosen = (s.e & s.f) ^ (!s.e & s.g);
    let t1 = add32(add32(add32(add32(s.h, big1), chosen), k), w);
    let big0 = turn(s.a, 2) ^ turn(s.a, 13) ^ turn(s.a, 22);
    let major = (s.a & s.b) ^ (s.a & s.c) ^ (s.b & s.c);
    let t2 = add32(big0, major);
    State { a: add32(t1, t2), b: s.a, c: s.b, d: s.c, e: add32(s.d, t1), f: s.e, g: s.f, h: s.g }
}

/// The state after the block of 64 bytes of `bytes` from `from` on was
/// taken in.
fn take_in(s: State, bytes: &Vec<u8>, from: usize) -> (r: State)
    requires
        from + 64 <= bytes.len(),
    ensures
        r == compress(s, bytes@.subrange(from as int, from + 64)),
{
    let ghost block = bytes@.subrange(from as int, from + 64);
    let mut w: Vec<u32> = Vec::new();
    let mut t: usize = 0;
    while t < 16
        invariant
            t <= 16,
            from + 64 <= bytes.len(),
            block == bytes@.subrange(from as int, from + 64),
            w.len() == t,
            forall|j: int| 0 <= j < t ==> w[j] == schedule(block, j),
        decreases 16 - t,
    {
        let b0 = bytes[from + 4 * t] as u32;
        let b1 = bytes[from + 4 * t + 1] as u32;
        let b2 = bytes[from + 4 * t + 2] as u32;
        let b3 = bytes[from + 4 * t + 3] as u32;
        proof {
            assert(block[4 * t] == bytes[from + 4 * t]);
            assert(block[4 * t + 1] == bytes[from + 4 * t + 1]);
            assert(block[4 * t + 2] == bytes[from + 4 * t + 2]);
            assert(block[4 * t + 3] == bytes[from + 4 * t + 3]);
        }
        w.push(b0 * 0x100_0000 + b1 * 0x1_0000 + b2 * 0x100 + b3);
        t += 1;
    }
    while t < 64
        invariant
            16 <= t <= 64,
            w.len() == t,
            forall|j: int| 0 <= j < t ==> w[j] == schedule(block, j),
        decreases 64 - t,
    {
        let x = w[t - 2];
        let y = w[t - 15];
        let s1 = turn(x, 17) ^ turn(x, 19) ^ (x >> 10);
        let s0 = turn(y, 7) ^ turn(y, 18) ^ (y >> 3);
        let next = add32(add32(add32(s1, w[t - 7]), s0), w[t - 16]);
        proof {
            assert(x == schedule(block, t - 2));
            assert(y == schedule(block, t - 15));
            assert(w[t - 7] == schedule(block, t - 7));
            assert(w[t - 16] == schedule(block, t - 16));
            assert(s1 == small_sigma1(x));
            assert(s0 == small_sigma0(y));
            assert(next == schedule(block, t as int));
        }
        w.push(next);
        t += 1;
    }
    let mut r = s;
    let mut i: usize = 0;
    while i < 64
        invariant
            i <= 64,
            w.len() == 64,
            forall|j: int| 0 <= j < 64 ==> w[j] == schedule(block, j),
            r == rounds(s, block, i as int),
        decreases 64 - i,
    {
        r = one_round(r, ROUND_CONSTANTS[i], w[i]);
        i += 1;
    }
    State {
        a: add32(s.a, r.a),
        b: add32(s.b, r.b),
        c: add32(s.c, r.c),
        d: add32(s.d, r.d),
        e: add32(s.e, r.e),
        f: add32(s.f, r.f),
        g: add32(s.g, r.g),
        h: add32(s.h, r.h),
    }
}

/// Appends the four bytes of `w`.
fn push_word(out: &mut Vec<u8>, w: u32)
    ensures
        final(out)@ == old(out)@ + word_bytes(w),
{
    out.push((w / 0x100_0000) as u8);
    out.push((w / 0x1_0000 % 0x100) as u8);
    out.push((w / 0x100 % 0x100) as u8);
    out.push((w % 0x100) as u8);
    assert(out@ =~= old(out)@ + word_bytes(w));
}

/// The padded message fills blocks of 64 bytes.
proof fn lemma_padded_length(len: nat)
    ensures
        (len + 1 + zeros_for(len) + 8) % 64 == 0,
{
    let r = len % 64;
    assert(len == 64 * (len / 64) + r);
    if r <= 55 {
        assert(zeros_for(len) == 55 - r);
    } else {
        assert(zeros_for(len) == 119 - r);
    }
}

/// The length of a message of `len` bytes in bits, cut to 64 bits.
fn bit_count(len: usize) -> (bits: u64)
    ensures
        bits == bit_length(len as nat),
{
    ((len as u128 * 8) % 0x1_0000_0000_0000_0000) as u64
}

/// Appends `n` zero bytes.
fn push_zeros(out: &mut Vec<u8>, n: usize)
    ensures
        final(out)@ == old(out)@ + Seq::new(n as nat, |i: int| 0u8),
{
    let mut z: usize = 0;
    assert(out@ =~= old(out)@ + Seq::new(0, |i: int| 0u8));
    while z < n
        invariant
            z <= n,
            out@ == old(out)@ + Seq::new(z as nat, |i: int| 0u8),
        decreases n - z,
    {
        out.push(0);
        assert(out@ =~= old(out)@ + Seq::new((z + 1) as nat, |i: int| 0u8));
        z += 1;
    }
}

/// A copy of `m`.
fn copy_of(m: &Vec<u8>) -> (p: Vec<u8>)
    ensures
        p@ == m@,
{
    let mut p: Vec<u8> = Vec::new();
    let mut i: usize = 0;
    while i < m.len()
        invariant
            i <= m.len(),
            p@ == m@.take(i as int),
        decreases m.len() - i,
    {
        p.push(m[i]);
        assert(m@.take(i as int).push(m@[i as int]) =~= m@.take(i + 1));
        i += 1;
    }
    assert(m@.take(m.len() as int) =~= m@);
    p
}

/// The message with its padding.
fn pad(m: &Vec<u8>) -> (p: Vec<u8>)
    requires
        m.len() <= usize::MAX - 72,
    ensures
        p@ == padded(m@),
        p.len() % 64 == 0,
{
    let mut p = copy_of(m);
    p.push(0x80);
    assert(p@ =~= m@ + seq![0x80u8]);
    let zeros = (119 - m.len() % 64) % 64;
    push_zeros(&mut p, zeros);
    push_length(&mut p, bit_count(m.len()));
    proof {
        lemma_padded_length(m@.len());
        assert(p@.len() == m@.len() + 1 + zeros + 8);
    }
    p
}

/// Appends the eight bytes that write `bits`.
fn push_length(out: &mut Vec<u8>, bits: u64)
    ensures
        final(out)@ == old(out)@ + length_bytes(bits),
{
    out.push((bits / 0x100_0000_0000_0000) as u8);
    out.push((bits / 0x1_0000_0000_0000 % 0x100) as u8);
    out.push((bits / 0x100_0000_0000 % 0x100) as u8);
    out.push((bits / 0x1_0000_0000 % 0x100) as u8);
    out.push((bits / 0x100_0000 % 0x100) as u8);
    out.push((bits / 0x1_0000 % 0x100) as u8);
    out.push((bits / 0x100 % 0x100) as u8);
    out.push((bits % 0x100) as u8);
    assert(out@ =~= old(out)@ + length_bytes(bits));
}

/// The SHA-256 digest of `m`, for a message that leaves room in memory for
/// its padding.
pub fn digest(m: &Vec<u8>) -> (d: Sha256Hash)
    requires
        m.len() <= usize::MAX - 72,
    ensures
        d@ == sha256(m@),
{
    let p = pad(m);
    let blocks = p.len() / 64;
    let mut s = State {
        a: 0x6a09e667,
        b: 0xbb67ae85,
        c: 0x3c6ef372,
        d: 0xa54ff53a,
        e: 0x510e527f,
        f: 0x9b05688c,
        g: 0x1f83d9ab,
        h: 0x5be0cd19,
    };
    let mut n: usize = 0;
    while n < blocks
        invariant
            n <= blocks,
            blocks * 64 <= p.len(),
            s == absorb(p@, n as int),
        decreases blocks - n,
    {
        let from = 64 * n;
        assert(p@.subrange(from as int, from + 64) == p@.subrange(64 * ((n + 1) - 1), 64 * (n + 1)));
        s = take_in(s, &p, from);
        n += 1;
    }
    match Sha256Hash::from_bytes(bytes_of(s)) {
        Some(d) => d,
        None => Sha256Hash::new(),
    }
}

/// The 32 bytes of a state.
fn bytes_of(s: State) -> (out: Vec<u8>)
    ensures
        out@ == state_bytes(s),
        out.len() == 32,
{
    let mut out: Vec<u8> = Vec::new();
    push_word(&mut out, s.a);
    push_word(&mut out, s.b);
    push_word(&mut out, s.c);
    push_word(&mut out, s.d);
    push_word(&mut out, s.e);
    push_word(&mut out, s.f);
    push_word(&mut out, s.g);
    push_word(&mut out, s.h);
    assert(out@ =~= state_bytes(s));
    out
}

/// The SHA-256 digest of `m`; `None` for a message that leaves no room in
/// memory for its padding.
pub fn checked_digest(m: &Vec<u8>) -> (d: Option<Sha256Hash>)
    ensures
        d is Some <==> m.len() <= usize::MAX - 72,
        d matches Some(h) ==> h@ == sha256(m@),
{
    if m.len() <= usize::MAX - 72 {
        Some(digest(m))
    } else {
        None
    }
}

} // verus!
