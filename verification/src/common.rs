//! Field widths and the big-endian reading of the fixed-width fields.

use vstd::prelude::*;

verus! {

/// Width in bytes of a one-byte field.
pub const U8_SIZE: usize = 1;

/// Width in bytes of a two-byte field.
pub const U16_SIZE: usize = 2;

/// Width in bytes of a four-byte field.
pub const U32_SIZE: usize = 4;

/// Width in bytes of an eight-byte field.
pub const U64_SIZE: usize = 8;

/// The number that the first two bytes of `s` spell, most significant byte
/// first.
pub open spec fn be_u16(s: Seq<u8>) -> u16
    recommends
        s.len() >= 2,
{
    (s[0] as int * 0x100 + s[1] as int) as u16
}

/// The number that the first four bytes of `s` spell, most significant byte
/// first.
pub open spec fn be_u32(s: Seq<u8>) -> u32
    recommends
        s.len() >= 4,
{
    (((s[0] as int * 0x100 + s[1] as int) * 0x100 + s[2] as int) * 0x100 + s[3] as int) as u32
}

/// The number that the first eight bytes of `s` spell, most significant byte
/// first.
pub open spec fn be_u64(s: Seq<u8>) -> u64
    recommends
        s.len() >= 8,
{
    (be_u32(s) as int * 0x1_0000_0000 + be_u32(s.skip(4)) as int) as u64
}

/// The two bytes that spell `n`, most significant byte first.
pub open spec fn u16_be(n: u16) -> Seq<u8> {
    seq![(n / 0x100) as u8, (n % 0x100) as u8]
}

/// The four bytes that spell `n`, most significant byte first.
pub open spec fn u32_be(n: u32) -> Seq<u8> {
    seq![
        (n / 0x100_0000) as u8,
        (n / 0x1_0000 % 0x100) as u8,
        (n / 0x100 % 0x100) as u8,
        (n % 0x100) as u8,
    ]
}

/// The eight bytes that spell `n`, most significant byte first.
pub open spec fn u64_be(n: u64) -> Seq<u8> {
    u32_be((n / 0x1_0000_0000) as u32) + u32_be((n % 0x1_0000_0000) as u32)
}

/// Reading back the two bytes written for `n` gives `n`, whatever follows them.
pub proof fn lemma_u16_round_trip(n: u16, rest: Seq<u8>)
    ensures
        u16_be(n).len() == 2,
        be_u16(u16_be(n) + rest) == n,
{
    let s = u16_be(n) + rest;
    assert(s[0] == (n / 0x100) as u8);
    assert(s[1] == (n % 0x100) as u8);
}

/// Reading back the four bytes written for `n` gives `n`, whatever follows
/// them.
pub proof fn lemma_u32_round_trip(n: u32, rest: Seq<u8>)
    ensures
        u32_be(n).len() == 4,
        be_u32(u32_be(n) + rest) == n,
{
    let s = u32_be(n) + rest;
    assert(s[0] == (n / 0x100_0000) as u8);
    assert(s[1] == (n / 0x1_0000 % 0x100) as u8);
    assert(s[2] == (n / 0x100 % 0x100) as u8);
    assert(s[3] == (n % 0x100) as u8);
}

/// Reading back the eight bytes written for `n` gives `n`, whatever follows
/// them.
pub proof fn lemma_u64_round_trip(n: u64, rest: Seq<u8>)
    ensures
        u64_be(n).len() == 8,
        be_u64(u64_be(n) + rest) == n,
{
    let hi = (n / 0x1_0000_0000) as u32;
    let lo = (n % 0x1_0000_0000) as u32;
    let s = u64_be(n) + rest;
    lemma_u32_round_trip(hi, u32_be(lo) + rest);
    lemma_u32_round_trip(lo, rest);
    assert(s =~= u32_be(hi) + (u32_be(lo) + rest));
    assert(s.skip(4) =~= u32_be(lo) + rest);
}

/// A number is spelled by the bytes it is read from: writing what was read
/// from the front of `s` gives the front of `s` again.
pub proof fn lemma_be_bytes_are_read_bytes(s: Seq<u8>)
    ensures
        s.len() >= 2 ==> u16_be(be_u16(s)) == s.take(2),
        s.len() >= 4 ==> u32_be(be_u32(s)) == s.take(4),
        s.len() >= 8 ==> u64_be(be_u64(s)) == s.take(8),
{
    if s.len() >= 2 {
        assert(u16_be(be_u16(s)) =~= s.take(2));
    }
    if s.len() >= 4 {
        assert(u32_be(be_u32(s)) =~= s.take(4));
    }
    if s.len() >= 8 {
        let t = s.skip(4);
        assert(u32_be(be_u32(t)) =~= t.take(4));
        let n = be_u64(s);
        assert((n / 0x1_0000_0000) as u32 == be_u32(s));
        assert((n % 0x1_0000_0000) as u32 == be_u32(t));
        assert(u64_be(n) =~= s.take(8));
    }
}

} // verus!
