//! Big-endian integers and byte buffers.
use vstd::prelude::*;

verus! {

/// The two bytes of `v`, most significant first.
pub open spec fn be16(v: u16) -> Seq<u8> {
    seq![(v / 0x100) as u8, (v % 0x100) as u8]
}

/// The four bytes of `v`, most significant first.
pub open spec fn be32(v: u32) -> Seq<u8> {
    seq![
        (v / 0x100_0000) as u8,
        (v / 0x1_0000 % 0x100) as u8,
        (v / 0x100 % 0x100) as u8,
        (v % 0x100) as u8,
    ]
}

/// The number that two bytes spell, most significant first.
pub open spec fn be16_value(hi: u8, lo: u8) -> u16 {
    (hi * 0x100 + lo) as u16
}

/// The number that the first four bytes of `s` spell, most significant first.
pub open spec fn be32_value(s: Seq<u8>) -> u32 {
    (s[0] * 0x100_0000 + s[1] * 0x1_0000 + s[2] * 0x100 + s[3]) as u32
}

/// Reading back the two bytes of a number gives the number.
pub proof fn law_be16_read_back(v: u16)
    ensures
        be16(v).len() == 2,
        be16_value(be16(v)[0], be16(v)[1]) == v,
{
}

/// Reading back the four bytes of a number gives the number.
pub proof fn law_be32_read_back(v: u32)
    ensures
        be32(v).len() == 4,
        be32_value(be32(v)) == v,
{
}

/// The first of two bytes counts 256 times as much as the second, in writing and in reading.
pub proof fn law_be16_is_positional(v: u16, hi: u8, lo: u8)
    ensures
        be16(v).len() == 2,
        be16(v)[0] * 256 + be16(v)[1] == v,
        be16_value(hi, lo) == hi * 256 + lo,
{
}

/// Each of four bytes counts 256 times as much as the one after it, in writing and in reading;
/// what follows the four bytes counts for nothing.
pub proof fn law_be32_is_positional(v: u32, s: Seq<u8>)
    requires
        s.len() >= 4,
    ensures
        be32(v).len() == 4,
        ((be32(v)[0] * 256 + be32(v)[1]) * 256 + be32(v)[2]) * 256 + be32(v)[3] == v,
        be32_value(s) == ((s[0] * 256 + s[1]) * 256 + s[2]) * 256 + s[3],
{
}

/// Appends the two bytes of `v` to `out`.
pub fn push_be16(out: &mut Vec<u8>, v: u16)
    ensures
        final(out)@ == old(out)@ + be16(v),
{
    out.push((v / 0x100) as u8);
    out.push((v % 0x100) as u8);
}

/// Appends the four bytes of `v` to `out`.
pub fn push_be32(out: &mut Vec<u8>, v: u32)
    ensures
        final(out)@ == old(out)@ + be32(v),
{
    out.push((v / 0x100_0000) as u8);
    out.push((v / 0x1_0000 % 0x100) as u8);
    out.push((v / 0x100 % 0x100) as u8);
    out.push((v % 0x100) as u8);
}

/// Appends all of `more` to `out`.
pub fn push_bytes(out: &mut Vec<u8>, more: &[u8])
    ensures
        final(out)@ == old(out)@ + more@,
{
    let n: usize = more.len();
    let mut i: usize = 0;
    assert(out@ =~= old(out)@ + more@.take(0));
    while i < n
        invariant
            n == more@.len(),
            i <= n,
            out@ == old(out)@ + more@.take(i as int),
        decreases n - i,
    {
        out.push(more[i]);
        assert(more@.take(i as int).push(more@[i as int]) =~= more@.take(i + 1));
        i = i + 1;
    }
    assert(more@.take(n as int) =~= more@);
}

/// The number that two bytes spell, most significant first.
pub fn read_be16(hi: u8, lo: u8) -> (v: u16)
    ensures
        v == be16_value(hi, lo),
{
    (hi as u16) * 0x100 + lo as u16
}

/// The number in the first four bytes of `s`.
pub fn read_be32(s: &[u8]) -> (v: u32)
    requires
        s@.len() >= 4,
    ensures
        v == be32_value(s@),
{
    (s[0] as u32) * 0x100_0000 + (s[1] as u32) * 0x1_0000 + (s[2] as u32) * 0x100 + s[3] as u32
}

/// Whether two byte strings are the same.
pub fn same_bytes(a: &[u8], b: &[u8]) -> (same: bool)
    ensures
        same == (a@ == b@),
{
    if a.len() != b.len() {
        return false;
    }
    let n: usize = a.len();
    let mut i: usize = 0;
    while i < n
        invariant
            n == a@.len(),
            n == b@.len(),
            i <= n,
            forall|k: int| 0 <= k < i ==> a@[k] == b@[k],
        decreases n - i,
    {
        if a[i] != b[i] {
            return false;
        }
        i = i + 1;
    }
    assert(a@ =~= b@);
    true
}

/// Whether `byte` occurs in `s`.
pub fn has_byte(s: &[u8], byte: u8) -> (found: bool)
    ensures
        found == s@.contains(byte),
{
    let n: usize = s.len();
    let mut i: usize = 0;
    while i < n
        invariant
            n == s@.len(),
            i <= n,
            forall|k: int| 0 <= k < i ==> s@[k] != byte,
        decreases n - i,
    {
        if s[i] == byte {
            return true;
        }
        i = i + 1;
    }
    false
}

} // verus!
