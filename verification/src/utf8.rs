//! How many bytes a text takes in UTF-8.
use vstd::prelude::*;

verus! {

/// How many bytes a character takes.
pub open spec fn width(c: char) -> nat {
    if (c as u32) < 0x80 {
        1
    } else if (c as u32) < 0x800 {
        2
    } else if (c as u32) < 0x1_0000 {
        3
    } else {
        4
    }
}

/// How many bytes a text takes.
pub open spec fn byte_len(s: Seq<char>) -> nat
    decreases s.len(),
{
    if s.len() == 0 {
        0
    } else {
        byte_len(s.drop_last()) + width(s.last())
    }
}

/// How many bytes a character takes.
pub fn width_of(c: char) -> (r: usize)
    ensures
        r == width(c),
{
    let n: u32 = c as u32;
    if n < 0x80 {
        1
    } else if n < 0x800 {
        2
    } else if n < 0x1_0000 {
        3
    } else {
        4
    }
}

/// One character more.
pub proof fn lemma_byte_len_step(s: Seq<char>, k: int)
    requires
        0 <= k < s.len(),
    ensures
        byte_len(s.take(k + 1)) == byte_len(s.take(k)) + width(s[k]),
{
    assert(s.take(k + 1).drop_last() =~= s.take(k));
    assert(s.take(k + 1).last() == s[k]);
}

/// Every character takes a byte at least.
pub proof fn lemma_byte_len_grows(s: Seq<char>, a: int, b: int)
    requires
        0 <= a <= b <= s.len(),
    ensures
        byte_len(s.take(a)) + (b - a) <= byte_len(s.take(b)),
    decreases b - a,
{
    if a < b {
        lemma_byte_len_step(s, b - 1);
        lemma_byte_len_grows(s, a, b - 1);
    }
}

/// How many bytes a text takes.
pub fn count_bytes(c: &[char]) -> (r: u128)
    ensures
        r == byte_len(c@),
{
    let mut n: u128 = 0;
    let mut i: usize = 0;
    assert(c@.take(0) =~= Seq::<char>::empty());
    while i < c.len()
        invariant
            i <= c@.len(),
            n == byte_len(c@.take(i as int)),
            n <= 4 * i,
        decreases c.len() - i,
    {
        proof {
            lemma_byte_len_step(c@, i as int);
        }
        n = n + width_of(c[i]) as u128;
        i += 1;
    }
    assert(c@.take(c@.len() as int) =~= c@);
    n
}

} // verus!
