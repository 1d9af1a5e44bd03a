//! SHA-256: the digest by which a prompt is recognised.
use vstd::prelude::*;
use vstd::slice::slice_subrange;
use vstd::string::*;
use crate::text::{from_chars, to_chars};

verus! {

pub open spec fn rotr(x: u32, n: u32) -> u32 {
    (x >> n) | (x << ((32 - n) as u32))
}

/// Addition modulo 2^32.
pub open spec fn plus(a: u32, b: u32) -> u32 {
    ((a + b) % 0x1_0000_0000) as u32
}

pub open spec fn ch(x: u32, y: u32, z: u32) -> u32 {
    (x & y) ^ (!x & z)
}

pub open spec fn maj(x: u32, y: u32, z: u32) -> u32 {
    (x & y) ^ (x & z) ^ (y & z)
}

pub open spec fn big_sigma0(x: u32) -> u32 {
    rotr(x, 2) ^ rotr(x, 13) ^ rotr(x, 22)
}

pub open spec fn big_sigma1(x: u32) -> u32 {
    rotr(x, 6) ^ rotr(x, 11) ^ rotr(x, 25)
}

pub open spec fn small_sigma0(x: u32) -> u32 {
    rotr(x, 7) ^ rotr(x, 18) ^ (x >> 3)
}

pub open spec fn small_sigma1(x: u32) -> u32 {
    rotr(x, 17) ^ rotr(x, 19) ^ (x >> 10)
}

/// The round constants.
pub open spec fn constants() -> Seq<u32> {
    seq![
        0x428a2f98u32, 0x71374491u32, 0xb5c0fbcfu32, 0xe9b5dba5u32, 0x3956c25bu32, 0x59f111f1u32,
        0x923f82a4u32, 0xab1c5ed5u32, 0xd807aa98u32, 0x12835b01u32, 0x243185beu32, 0x550c7dc3u32,
        0x72be5d74u32, 0x80deb1feu32, 0x9bdc06a7u32, 0xc19bf174u32, 0xe49b69c1u32, 0xefbe4786u32,
        0x0fc19dc6u32, 0x240ca1ccu32, 0x2de92c6fu32, 0x4a7484aau32, 0x5cb0a9dcu32, 0x76f988dau32,
        0x983e5152u32, 0xa831c66du32, 0xb00327c8u32, 0xbf597fc7u32, 0xc6e00bf3u32, 0xd5a79147u32,
        0x06ca6351u32, 0x14292967u32, 0x27b70a85u32, 0x2e1b2138u32, 0x4d2c6dfcu32, 0x53380d13u32,
        0x650a7354u32, 0x766a0abbu32, 0x81c2c92eu32, 0x92722c85u32, 0xa2bfe8a1u32, 0xa81a664bu32,
        0xc24b8b70u32, 0xc76c51a3u32, 0xd192e819u32, 0xd6990624u32, 0xf40e3585u32, 0x106aa070u32,
        0x19a4c116u32, 0x1e376c08u32, 0x2748774cu32, 0x34b0bcb5u32, 0x391c0cb3u32, 0x4ed8aa4au32,
        0x5b9cca4fu32, 0x682e6ff3u32, 0x748f82eeu32, 0x78a5636fu32, 0x84c87814u32, 0x8cc70208u32,
        0x90befffau32, 0xa4506cebu32, 0xbef9a3f7u32, 0xc67178f2u32,
    ]
}

/// The eight words of the state.
#[derive(Clone, Copy, Debug, PartialEq, Eq)]
pub struct State {
    pub a: u32,
    pub b: u32,
    pub c: u32,
    pub d: u32,
    pub e: u32,
    pub f: u32,
    pub g: u32,
    pub h: u32,
}

pub open spec fn start_state() -> State {
    State {
        a: 0x6a09e667,
        b: 0xbb67ae85,
        c: 0x3c6ef372,
        d: 0xa54ff53a,
        e: 0x510e527f,
        f: 0x9b05688c,
        g: 0x1f83d9ab,
        h: 0x5be0cd19,
    }
}

/// Four bytes as a word, the first byte the highest.
pub open spec fn word_at(m: Seq<u8>, i: int) -> u32 {
    (m[i] as u32 * 0x100_0000 + m[i + 1] as u32 * 0x1_0000 + m[i + 2] as u32 * 0x100 + m[i + 3] as u32) as u32
}

/// The message schedule of the block that starts at `at`.
pub open spec fn schedule(m: Seq<u8>, at: int, t: int) -> u32
    decreases t,
{
    if t < 16 {
        word_at(m, at + 4 * t)
    } else {
        plus(
            plus(small_sigma1(schedule(m, at, t - 2)), schedule(m, at, t - 7)),
            plus(small_sigma0(schedule(m, at, t - 15)), schedule(m, at, t - 16)),
        )
    }
}

/// One round of the compression.
pub open spec fn round(s: State, k: u32, w: u32) -> State {
    let t1 = plus(plus(plus(s.h, big_sigma1(s.e)), plus(ch(s.e, s.f, s.g), k)), w);
    let t2 = plus(big_sigma0(s.a), maj(s.a, s.b, s.c));
    State { a: plus(t1, t2), b: s.a, c: s.b, d: s.c, e: plus(s.d, t1), f: s.e, g: s.f, h: s.g }
}

pub open spec fn rounds(s: State, m: Seq<u8>, at: int, t: int) -> State
    decreases t,
{
    if t <= 0 {
        s
    } else {
        round(rounds(s, m, at, t - 1), constants()[t - 1], schedule(m, at, t - 1))
    }
}

pub open spec fn plus_states(s: State, t: State) -> State {
    State {
        a: plus(s.a, t.a),
        b: plus(s.b, t.b),
        c: plus(s.c, t.c),
        d: plus(s.d, t.d),
        e: plus(s.e, t.e),
        f: plus(s.f, t.f),
        g: plus(s.g, t.g),
        h: plus(s.h, t.h),
    }
}

/// The state after the first `n` blocks of a padded message.
pub open spec fn absorbed(m: Seq<u8>, n: int) -> State
    decreases n,
{
    if n <= 0 {
        start_state()
    } else {
        plus_states(absorbed(m, n - 1), rounds(absorbed(m, n - 1), m, 64 * (n - 1), 64))
    }
}

/// A number in eight bytes, the highest first.
pub open spec fn eight_bytes(n: u64) -> Seq<u8> {
    seq![
        (n / 0x100_0000_0000_0000 % 256) as u8,
        (n / 0x1_0000_0000_0000 % 256) as u8,
        (n / 0x100_0000_0000 % 256) as u8,
        (n / 0x1_0000_0000 % 256) as u8,
        (n / 0x100_0000 % 256) as u8,
        (n / 0x1_0000 % 256) as u8,
        (n / 0x100 % 256) as u8,
        (n % 256) as u8,
    ]
}

/// How many zero bytes go between the end mark and the length.
pub open spec fn gap(len: nat) -> nat {
    ((119 - len % 64) % 64) as nat
}

/// A message with the end mark, zeros, and its length in bits.
pub open spec fn padded(m: Seq<u8>) -> Seq<u8> {
    let bits = (8 * m.len()) % 0x1_0000_0000_0000_0000;
    m + seq![0x80u8] + Seq::new(gap(m.len()), |i: int| 0u8) + eight_bytes(bits as u64)
}

/// The state after a whole message.
pub open spec fn digest(m: Seq<u8>) -> State {
    absorbed(padded(m), padded(m).len() as int / 64)
}

pub open spec fn hex_digit(n: u32) -> char {
    if n < 10 {
        (('0' as u8 + n) as u8) as char
    } else {
        (('a' as u8 + (n - 10)) as u8) as char
    }
}

/// A word in eight hexadecimal digits.
#[verifier::opaque]
pub open spec fn hex_word(w: u32) -> Seq<char> {
    seq![
        hex_digit(w / 0x1000_0000 % 16),
        hex_digit(w / 0x100_0000 % 16),
        hex_digit(w / 0x10_0000 % 16),
        hex_digit(w / 0x1_0000 % 16),
        hex_digit(w / 0x1000 % 16),
        hex_digit(w / 0x100 % 16),
        hex_digit(w / 0x10 % 16),
        hex_digit(w % 16),
    ]
}

/// The digest of a message in hexadecimal digits.
pub open spec fn hex_digest(m: Seq<u8>) -> Seq<char> {
    let s = digest(m);
    hex_word(s.a) + hex_word(s.b) + hex_word(s.c) + hex_word(s.d) + hex_word(s.e) + hex_word(s.f)
        + hex_word(s.g) + hex_word(s.h)
}

// ── Computing it ─────────────────────────────────────────────────────────

fn rot(x: u32, n: u32) -> (r: u32)
    requires
        0 < n < 32,
    ensures
        r == rotr(x, n),
{
    (x >> n) | (x << (32 - n))
}

fn sum(a: u32, b: u32) -> (r: u32)
    ensures
        r == plus(a, b),
{
    ((a as u64 + b as u64) % 0x1_0000_0000) as u32
}

fn round_constants() -> (r: Vec<u32>)
    ensures
        r@ == constants(),
{
    let r: Vec<u32> = vec![
        0x428a2f98u32, 0x71374491u32, 0xb5c0fbcfu32, 0xe9b5dba5u32, 0x3956c25bu32, 0x59f111f1u32,
        0x923f82a4u32, 0xab1c5ed5u32, 0xd807aa98u32, 0x12835b01u32, 0x243185beu32, 0x550c7dc3u32,
        0x72be5d74u32, 0x80deb1feu32, 0x9bdc06a7u32, 0xc19bf174u32, 0xe49b69c1u32, 0xefbe4786u32,
        0x0fc19dc6u32, 0x240ca1ccu32, 0x2de92c6fu32, 0x4a7484aau32, 0x5cb0a9dcu32, 0x76f988dau32,
        0x983e5152u32, 0xa831c66du32, 0xb00327c8u32, 0xbf597fc7u32, 0xc6e00bf3u32, 0xd5a79147u32,
        0x06ca6351u32, 0x14292967u32, 0x27b70a85u32, 0x2e1b2138u32, 0x4d2c6dfcu32, 0x53380d13u32,
        0x650a7354u32, 0x766a0abbu32, 0x81c2c92eu32, 0x92722c85u32, 0xa2bfe8a1u32, 0xa81a664bu32,
        0xc24b8b70u32, 0xc76c51a3u32, 0xd192e819u32, 0xd6990624u32, 0xf40e3585u32, 0x106aa070u32,
        0x19a4c116u32, 0x1e376c08u32, 0x2748774cu32, 0x34b0bcb5u32, 0x391c0cb3u32, 0x4ed8aa4au32,
        0x5b9cca4fu32, 0x682e6ff3u32, 0x748f82eeu32, 0x78a5636fu32, 0x84c87814u32, 0x8cc70208u32,
        0x90befffau32, 0xa4506cebu32, 0xbef9a3f7u32, 0xc67178f2u32,
    ];
    assert(r@ =~= constants());
    r
}

fn read_word(m: &Vec<u8>, i: usize) -> (r: u32)
    requires
        i + 4 <= m@.len(),
    ensures
        r == word_at(m@, i as int),
{
    assert(m.len() >= i + 4);
    m[i] as u32 * 0x100_0000 + m[i + 1] as u32 * 0x1_0000 + m[i + 2] as u32 * 0x100 + m[i + 3] as u32
}

fn expand(m: &Vec<u8>, at: usize) -> (w: Vec<u32>)
    requires
        at + 64 <= m@.len(),
    ensures
        w@.len() == 64,
        forall|t: int| 0 <= t < 64 ==> #[trigger] w@[t] == schedule(m@, at as int, t),
{
    let mut w: Vec<u32> = Vec::new();
    let mut t: usize = 0;
    while t < 64
        invariant
            t <= 64,
            at + 64 <= m@.len(),
            w@.len() == t,
            forall|k: int| 0 <= k < t ==> #[trigger] w@[k] == schedule(m@, at as int, k),
        decreases 64 - t,
    {
        if t < 16 {
            assert(m.len() >= at + 64);
            w.push(read_word(m, at + 4 * t));
        } else {
            let x: u32 = w[t - 2];
            let y: u32 = w[t - 15];
            let s1: u32 = rot(x, 17) ^ rot(x, 19) ^ (x >> 10);
            let s0: u32 = rot(y, 7) ^ rot(y, 18) ^ (y >> 3);
            w.push(sum(sum(s1, w[t - 7]), sum(s0, w[t - 16])));
        }
        t += 1;
    }
    w
}

fn compress(s: State, m: &Vec<u8>, at: usize, k: &Vec<u32>) -> (r: State)
    requires
        at + 64 <= m@.len(),
        k@ == constants(),
    ensures
        r == rounds(s, m@, at as int, 64),
{
    let w = expand(m, at);
    let mut st: State = s;
    let mut t: usize = 0;
    while t < 64
        invariant
            t <= 64,
            k@ == constants(),
            w@.len() == 64,
            forall|i: int| 0 <= i < 64 ==> #[trigger] w@[i] == schedule(m@, at as int, i),
            st == rounds(s, m@, at as int, t as int),
        decreases 64 - t,
    {
        let s1: u32 = rot(st.e, 6) ^ rot(st.e, 11) ^ rot(st.e, 25);
        let c: u32 = (st.e & st.f) ^ (!st.e & st.g);
        let t1: u32 = sum(sum(sum(st.h, s1), sum(c, k[t])), w[t]);
        let s0: u32 = rot(st.a, 2) ^ rot(st.a, 13) ^ rot(st.a, 22);
        let j: u32 = (st.a & st.b) ^ (st.a & st.c) ^ (st.b & st.c);
        let t2: u32 = sum(s0, j);
        assert(w@[t as int] == schedule(m@, at as int, t as int));
        st = State {
            a: sum(t1, t2),
            b: st.a,
            c: st.b,
            d: st.c,
            e: sum(st.d, t1),
            f: st.e,
            g: st.f,
            h: st.g,
        };
        t += 1;
    }
    st
}

fn pad(m: &[u8]) -> (r: Vec<u8>)
    ensures
        r@ == padded(m@),
{
    let mut out: Vec<u8> = Vec::new();
    let len: usize = m.len();
    let mut i: usize = 0;
    while i < len
        invariant
            i <= len,
            len == m@.len(),
            out@ == m@.take(i as int),
        decreases len - i,
    {
        out.push(m[i]);
        i += 1;
    }
    assert(m@.take(len as int) =~= m@);
    out.push(0x80);
    let zeros: usize = (119 - len % 64) % 64;
    let ghost base = m@ + seq![0x80u8];
    let mut j: usize = 0;
    while j < zeros
        invariant
            j <= zeros,
            out@ == base + Seq::new(j as nat, |i: int| 0u8),
        decreases zeros - j,
    {
        out.push(0);
        j += 1;
    }
    let bits: u64 = ((len as u128 * 8) % 0x1_0000_0000_0000_0000) as u64;
    let ghost mid = base + Seq::new(zeros as nat, |i: int| 0u8);
    assert(out@ =~= mid);
    out.push((bits / 0x100_0000_0000_0000 % 256) as u8);
    out.push((bits / 0x1_0000_0000_0000 % 256) as u8);
    out.push((bits / 0x100_0000_0000 % 256) as u8);
    out.push((bits / 0x1_0000_0000 % 256) as u8);
    out.push((bits / 0x100_0000 % 256) as u8);
    out.push((bits / 0x1_0000 % 256) as u8);
    out.push((bits / 0x100 % 256) as u8);
    out.push((bits % 256) as u8);
    assert(out@ =~= mid + eight_bytes(bits));
    out
}

fn hash(m: &[u8]) -> (r: State)
    ensures
        r == digest(m@),
{
    let p = pad(m);
    let k = round_constants();
    let blocks: usize = p.len() / 64;
    let mut st: State = State {
        a: 0x6a09e667,
        b: 0xbb67ae85,
        c: 0x3c6ef372,
        d: 0xa54ff53a,
        e: 0x510e527f,
        f: 0x9b05688c,
        g: 0x1f83d9ab,
        h: 0x5be0cd19,
    };
    let mut n: usize = 0;
    while n < blocks
        invariant
            n <= blocks,
            64 * blocks <= p.len(),
            k@ == constants(),
            st == absorbed(p@, n as int),
        decreases blocks - n,
    {
        let c = compress(st, &p, 64 * n, &k);
        st = State {
            a: sum(st.a, c.a),
            b: sum(st.b, c.b),
            c: sum(st.c, c.c),
            d: sum(st.d, c.d),
            e: sum(st.e, c.e),
            f: sum(st.f, c.f),
            g: sum(st.g, c.g),
            h: sum(st.h, c.h),
        };
        n += 1;
    }
    st
}

fn nibble(n: u32) -> (r: char)
    requires
        n < 16,
    ensures
        r == hex_digit(n),
{
    if n < 10 {
        ('0' as u8 + n as u8) as char
    } else {
        ('a' as u8 + (n as u8 - 10)) as char
    }
}

fn push_word(out: &mut String, w: u32)
    ensures
        final(out)@ == old(out)@ + hex_word(w),
        hex_word(w).len() == 8,
{
    reveal(hex_word);
    out.push(nibble(w / 0x1000_0000 % 16));
    out.push(nibble(w / 0x100_0000 % 16));
    out.push(nibble(w / 0x10_0000 % 16));
    out.push(nibble(w / 0x1_0000 % 16));
    out.push(nibble(w / 0x1000 % 16));
    out.push(nibble(w / 0x100 % 16));
    out.push(nibble(w / 0x10 % 16));
    out.push(nibble(w % 16));
    assert(out@ =~= old(out)@ + hex_word(w));
}

/// The digest of a message in 64 hexadecimal digits.
pub fn hex(m: &[u8]) -> (r: String)
    ensures
        r@ == hex_digest(m@),
        r@.len() == 64,
{
    let s = hash(m);
    let mut out: String = String::new();
    push_word(&mut out, s.a);
    assert(out@ =~= hex_word(s.a));
    push_word(&mut out, s.b);
    push_word(&mut out, s.c);
    push_word(&mut out, s.d);
    push_word(&mut out, s.e);
    push_word(&mut out, s.f);
    push_word(&mut out, s.g);
    push_word(&mut out, s.h);
    out
}

/// The first twelve digits of a digest.
pub fn short(m: &[u8]) -> (r: String)
    ensures
        r@ == hex_digest(m@).take(12),
{
    let full = hex(m);
    let c = to_chars(full.as_str());
    let head = slice_subrange(c.as_slice(), 0, 12);
    assert(head@ =~= hex_digest(m@).take(12));
    from_chars(head)
}

} // verus!
