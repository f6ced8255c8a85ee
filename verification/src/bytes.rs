//! Little-endian integers in byte sequences.
use vstd::prelude::*;

verus! {

/// The unsigned 16-bit little-endian integer at `i`.
pub open spec fn le16(s: Seq<u8>, i: int) -> int {
    s[i] + 0x100 * s[i + 1]
}

/// The unsigned 32-bit little-endian integer at `i`.
pub open spec fn le32(s: Seq<u8>, i: int) -> int {
    le16(s, i) + 0x1_0000 * le16(s, i + 2)
}

/// The unsigned 64-bit little-endian integer at `i`.
pub open spec fn le64(s: Seq<u8>, i: int) -> int {
    le32(s, i) + 0x1_0000_0000 * le32(s, i + 4)
}

/// The two bytes of `x`, low byte first; bits above the sixteenth are dropped.
pub open spec fn le16_bytes(x: int) -> Seq<u8> {
    seq![(x % 0x100) as u8, (x / 0x100 % 0x100) as u8]
}

/// The four bytes of `x`, low byte first; bits above the thirty-second are dropped.
#[verifier::opaque]
pub open spec fn le32_bytes(x: int) -> Seq<u8> {
    le16_bytes(x) + le16_bytes(x / 0x1_0000)
}

/// The eight bytes of `x`, low byte first.
#[verifier::opaque]
pub open spec fn le64_bytes(x: int) -> Seq<u8> {
    le32_bytes(x) + le32_bytes(x / 0x1_0000_0000)
}

pub fn read_le16(s: &[u8], i: usize) -> (r: u16)
    requires
        i + 2 <= s@.len(),
    ensures
        r == le16(s@, i as int),
{
    s[i] as u16 + 0x100 * (s[i + 1] as u16)
}

pub fn read_le32(s: &[u8], i: usize) -> (r: u32)
    requires
        i + 4 <= s@.len(),
    ensures
        r == le32(s@, i as int),
{
    assert(s.len() == s@.len());
    read_le16(s, i) as u32 + 0x1_0000 * (read_le16(s, i + 2) as u32)
}

pub fn read_le64(s: &[u8], i: usize) -> (r: u64)
    requires
        i + 8 <= s@.len(),
    ensures
        r == le64(s@, i as int),
{
    assert(s.len() == s@.len());
    read_le32(s, i) as u64 + 0x1_0000_0000 * (read_le32(s, i + 4) as u64)
}

pub fn push_le16(out: &mut Vec<u8>, x: u64)
    ensures
        final(out)@ == old(out)@ + le16_bytes(x as int),
{
    out.push((x % 0x100) as u8);
    out.push((x / 0x100 % 0x100) as u8);
}

pub fn push_le32(out: &mut Vec<u8>, x: u64)
    ensures
        final(out)@ == old(out)@ + le32_bytes(x as int),
{
    push_le16(out, x);
    push_le16(out, x / 0x1_0000);
    proof {
        reveal(le32_bytes);
    }
}

pub fn push_le64(out: &mut Vec<u8>, x: u64)
    ensures
        final(out)@ == old(out)@ + le64_bytes(x as int),
{
    push_le32(out, x);
    push_le32(out, x / 0x1_0000_0000);
    proof {
        reveal(le64_bytes);
    }
}

/// How many bytes each width takes.
pub proof fn lemma_le_lens()
    ensures
        forall|x: int| (#[trigger] le32_bytes(x)).len() == 4,
        forall|x: int| (#[trigger] le64_bytes(x)).len() == 8,
{
    reveal(le32_bytes);
    reveal(le64_bytes);
}

/// Sixteen written bits read back.
pub proof fn lemma_le16_round_trip(s: Seq<u8>, i: int, x: int)
    requires
        0 <= i,
        i + 2 <= s.len(),
        0 <= x,
        s.subrange(i, i + 2) == le16_bytes(x),
    ensures
        le16(s, i) == x % 0x1_0000,
{
    assert(s[i] == s.subrange(i, i + 2)[0]);
    assert(s[i + 1] == s.subrange(i, i + 2)[1]);
}

/// Thirty-two written bits read back.
pub proof fn lemma_le32_round_trip(s: Seq<u8>, i: int, x: int)
    requires
        0 <= i,
        i + 4 <= s.len(),
        0 <= x,
        s.subrange(i, i + 4) == le32_bytes(x),
    ensures
        le32(s, i) == x % 0x1_0000_0000,
{
    reveal(le32_bytes);
    let b = s.subrange(i, i + 4);
    assert(s.subrange(i, i + 2) =~= b.subrange(0, 2));
    assert(b.subrange(0, 2) =~= le16_bytes(x));
    assert(s.subrange(i + 2, i + 4) =~= b.subrange(2, 4));
    assert(b.subrange(2, 4) =~= le16_bytes(x / 0x1_0000));
    lemma_le16_round_trip(s, i, x);
    lemma_le16_round_trip(s, i + 2, x / 0x1_0000);
}

/// Sixty-four written bits read back.
pub proof fn lemma_le64_round_trip(s: Seq<u8>, i: int, x: int)
    requires
        0 <= i,
        i + 8 <= s.len(),
        0 <= x <= u64::MAX,
        s.subrange(i, i + 8) == le64_bytes(x),
    ensures
        le64(s, i) == x,
{
    reveal(le64_bytes);
    lemma_le_lens();
    let b = s.subrange(i, i + 8);
    assert(s.subrange(i, i + 4) =~= b.subrange(0, 4));
    assert(b.subrange(0, 4) =~= le32_bytes(x));
    assert(s.subrange(i + 4, i + 8) =~= b.subrange(4, 8));
    assert(b.subrange(4, 8) =~= le32_bytes(x / 0x1_0000_0000));
    lemma_le32_round_trip(s, i, x);
    lemma_le32_round_trip(s, i + 4, x / 0x1_0000_0000);
}

/// Numbers are stored with their lowest byte first.
pub proof fn law_lowest_byte_first(s: Seq<u8>, i: int, x: int)
    requires
        0 <= i,
        i + 8 <= s.len(),
        x >= 0,
    ensures
        le16(s, i) == s[i] + 256 * s[i + 1],
        le32(s, i) == s[i] + 256 * s[i + 1] + 65_536 * s[i + 2] + 16_777_216 * s[i + 3],
        le64(s, i) == s[i] + 256 * s[i + 1] + 65_536 * s[i + 2] + 16_777_216 * s[i + 3]
            + 4_294_967_296 * (s[i + 4] + 256 * s[i + 5] + 65_536 * s[i + 6] + 16_777_216 * s[i
            + 7]),
        x < 0x1_0000 ==> le16_bytes(x).len() == 2 && le16(le16_bytes(x), 0) == x,
        x < 0x1_0000_0000 ==> le32_bytes(x).len() == 4 && le32(le32_bytes(x), 0) == x,
        x < 0x1_0000_0000_0000_0000 ==> le64_bytes(x).len() == 8 && le64(le64_bytes(x), 0) == x,
{
    lemma_le_lens();
    assert(le16_bytes(x).subrange(0, 2) =~= le16_bytes(x));
    lemma_le16_round_trip(le16_bytes(x), 0, x);
    assert(le32_bytes(x).subrange(0, 4) =~= le32_bytes(x));
    lemma_le32_round_trip(le32_bytes(x), 0, x);
    assert(le64_bytes(x).subrange(0, 8) =~= le64_bytes(x));
    if x <= u64::MAX {
        lemma_le64_round_trip(le64_bytes(x), 0, x);
    }
}

} // verus!
