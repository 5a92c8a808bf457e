//! Fixed-width integers inside byte sequences.

use vstd::prelude::*;

verus! {

/// Big-endian 16 bits at `i`.
pub open spec fn be16(d: Seq<u8>, i: int) -> u16 {
    (d[i] * 0x100 + d[i + 1]) as u16
}

/// Big-endian 24 bits at `i`.
pub open spec fn be24(d: Seq<u8>, i: int) -> u32 {
    (d[i] * 0x1_0000 + d[i + 1] * 0x100 + d[i + 2]) as u32
}

/// Big-endian 32 bits at `i`.
pub open spec fn be32(d: Seq<u8>, i: int) -> u32 {
    (d[i] * 0x100_0000 + d[i + 1] * 0x1_0000 + d[i + 2] * 0x100 + d[i + 3]) as u32
}

/// Big-endian 64 bits at `i`.
pub open spec fn be64(d: Seq<u8>, i: int) -> u64 {
    (be32(d, i) * 0x1_0000_0000 + be32(d, i + 4)) as u64
}

/// Little-endian 16 bits at `i`.
pub open spec fn le16(d: Seq<u8>, i: int) -> u16 {
    (d[i] + d[i + 1] * 0x100) as u16
}

/// Little-endian 32 bits at `i`.
pub open spec fn le32(d: Seq<u8>, i: int) -> u32 {
    (d[i] + d[i + 1] * 0x100 + d[i + 2] * 0x1_0000 + d[i + 3] * 0x100_0000) as u32
}

/// Little-endian 64 bits at `i`.
pub open spec fn le64(d: Seq<u8>, i: int) -> u64 {
    (le32(d, i) + le32(d, i + 4) * 0x1_0000_0000) as u64
}

/// 16 bits at `i`, least significant byte first if `little`.
pub open spec fn word16(d: Seq<u8>, i: int, little: bool) -> u16 {
    if little {
        le16(d, i)
    } else {
        be16(d, i)
    }
}

/// 32 bits at `i`, least significant byte first if `little`.
pub open spec fn word32(d: Seq<u8>, i: int, little: bool) -> u32 {
    if little {
        le32(d, i)
    } else {
        be32(d, i)
    }
}

/// The two bytes of `v`, least significant first.
#[verifier::opaque]
pub open spec fn le16_bytes(v: u16) -> Seq<u8> {
    seq![(v % 0x100) as u8, (v / 0x100) as u8]
}

/// The four bytes of `v`, least significant first.
#[verifier::opaque]
pub open spec fn le32_bytes(v: u32) -> Seq<u8> {
    seq![
        (v % 0x100) as u8,
        (v / 0x100 % 0x100) as u8,
        (v / 0x1_0000 % 0x100) as u8,
        (v / 0x100_0000) as u8,
    ]
}

/// The eight bytes of `v`, least significant first.
pub open spec fn le64_bytes(v: u64) -> Seq<u8> {
    le32_bytes((v % 0x1_0000_0000) as u32) + le32_bytes((v / 0x1_0000_0000) as u32)
}

/// The two bytes of `v`, most significant first.
pub open spec fn be16_bytes(v: u16) -> Seq<u8> {
    seq![(v / 0x100) as u8, (v % 0x100) as u8]
}

/// The four bytes of `v`, most significant first.
pub open spec fn be32_bytes(v: u32) -> Seq<u8> {
    seq![
        (v / 0x100_0000) as u8,
        (v / 0x1_0000 % 0x100) as u8,
        (v / 0x100 % 0x100) as u8,
        (v % 0x100) as u8,
    ]
}

/// Read a big-endian `u16`.
pub fn get_be16(d: &[u8], i: usize) -> (r: u16)
    requires
        i + 2 <= d@.len(),
    ensures
        r == be16(d@, i as int),
{
    d[i] as u16 * 0x100 + d[i + 1] as u16
}

/// Read a big-endian 24-bit number.
pub fn get_be24(d: &[u8], i: usize) -> (r: u32)
    requires
        i + 3 <= d@.len(),
    ensures
        r == be24(d@, i as int),
        r < 0x100_0000,
{
    d[i] as u32 * 0x1_0000 + d[i + 1] as u32 * 0x100 + d[i + 2] as u32
}

/// Read a big-endian `u32`.
pub fn get_be32(d: &[u8], i: usize) -> (r: u32)
    requires
        i + 4 <= d@.len(),
    ensures
        r == be32(d@, i as int),
{
    d[i] as u32 * 0x100_0000 + d[i + 1] as u32 * 0x1_0000 + d[i + 2] as u32 * 0x100 + d[i + 3]
        as u32
}

/// Read a big-endian `u64`.
pub fn get_be64(d: &[u8], i: usize) -> (r: u64)
    requires
        i + 8 <= d@.len(),
    ensures
        r == be64(d@, i as int),
{
    assert(d.len() == d@.len());
    get_be32(d, i) as u64 * 0x1_0000_0000 + get_be32(d, i + 4) as u64
}

/// Read a little-endian `u16`.
pub fn get_le16(d: &[u8], i: usize) -> (r: u16)
    requires
        i + 2 <= d@.len(),
    ensures
        r == le16(d@, i as int),
{
    d[i] as u16 + d[i + 1] as u16 * 0x100
}

/// Read a little-endian `u32`.
pub fn get_le32(d: &[u8], i: usize) -> (r: u32)
    requires
        i + 4 <= d@.len(),
    ensures
        r == le32(d@, i as int),
{
    d[i] as u32 + d[i + 1] as u32 * 0x100 + d[i + 2] as u32 * 0x1_0000 + d[i + 3] as u32
        * 0x100_0000
}

/// Read a little-endian `u64`.
pub fn get_le64(d: &[u8], i: usize) -> (r: u64)
    requires
        i + 8 <= d@.len(),
    ensures
        r == le64(d@, i as int),
{
    assert(d.len() == d@.len());
    get_le32(d, i) as u64 + get_le32(d, i + 4) as u64 * 0x1_0000_0000
}

/// Append `v`, least significant byte first.
pub fn get_word16(d: &[u8], i: usize, little: bool) -> (r: u16)
    requires
        i + 2 <= d@.len(),
    ensures
        r == word16(d@, i as int, little),
{
    if little {
        get_le16(d, i)
    } else {
        get_be16(d, i)
    }
}

pub fn get_word32(d: &[u8], i: usize, little: bool) -> (r: u32)
    requires
        i + 4 <= d@.len(),
    ensures
        r == word32(d@, i as int, little),
{
    if little {
        get_le32(d, i)
    } else {
        get_be32(d, i)
    }
}

pub fn put_le16(out: &mut Vec<u8>, v: u16)
    ensures
        final(out)@ == old(out)@ + le16_bytes(v),
{
    out.push((v % 0x100) as u8);
    out.push((v / 0x100) as u8);
    proof {
        reveal(le16_bytes);
        assert(out@ =~= old(out)@ + le16_bytes(v));
    }
}

/// Append `v`, least significant byte first.
pub fn put_le32(out: &mut Vec<u8>, v: u32)
    ensures
        final(out)@ == old(out)@ + le32_bytes(v),
{
    out.push((v % 0x100) as u8);
    out.push((v / 0x100 % 0x100) as u8);
    out.push((v / 0x1_0000 % 0x100) as u8);
    out.push((v / 0x100_0000) as u8);
    proof {
        reveal(le32_bytes);
        assert(out@ =~= old(out)@ + le32_bytes(v));
    }
}

/// Append `v`, least significant byte first.
pub fn put_le64(out: &mut Vec<u8>, v: u64)
    ensures
        final(out)@ == old(out)@ + le64_bytes(v),
{
    put_le32(out, (v % 0x1_0000_0000) as u32);
    put_le32(out, (v / 0x1_0000_0000) as u32);
    assert(out@ =~= old(out)@ + le64_bytes(v));
}

/// Append `v`, most significant byte first.
pub fn put_be16(out: &mut Vec<u8>, v: u16)
    ensures
        final(out)@ == old(out)@ + be16_bytes(v),
{
    out.push((v / 0x100) as u8);
    out.push((v % 0x100) as u8);
    assert(out@ =~= old(out)@ + be16_bytes(v));
}

/// Append `v`, most significant byte first.
pub fn put_be32(out: &mut Vec<u8>, v: u32)
    ensures
        final(out)@ == old(out)@ + be32_bytes(v),
{
    out.push((v / 0x100_0000) as u8);
    out.push((v / 0x1_0000 % 0x100) as u8);
    out.push((v / 0x100 % 0x100) as u8);
    out.push((v % 0x100) as u8);
    assert(out@ =~= old(out)@ + be32_bytes(v));
}

/// Append a slice.
pub fn put_all(out: &mut Vec<u8>, b: &[u8])
    ensures
        final(out)@ == old(out)@ + b@,
{
    out.extend_from_slice(b);
    assert(out@ =~= old(out)@ + b@);
}

/// A copy of a slice.
pub fn copy_of(b: &[u8]) -> (r: Vec<u8>)
    ensures
        r@ == b@,
{
    let mut out: Vec<u8> = Vec::new();
    put_all(&mut out, b);
    assert(out@ =~= b@);
    out
}

/// The bytes from `i` up to `j`.
pub fn part(b: &[u8], i: usize, j: usize) -> (r: &[u8])
    requires
        i <= j <= b@.len(),
    ensures
        r@ == b@.subrange(i as int, j as int),
{
    vstd::slice::slice_subrange(b, i, j)
}

/// Whether two slices hold the same bytes.
pub fn same(a: &[u8], b: &[u8]) -> (r: bool)
    ensures
        r == (a@ == b@),
{
    if a.len() != b.len() {
        return false;
    }
    let mut i: usize = 0;
    while i < a.len()
        invariant
            i <= a.len(),
            a.len() == b.len(),
            forall|j: int| 0 <= j < i ==> a@[j] == b@[j],
        decreases a.len() - i,
    {
        if a[i] != b[i] {
            return false;
        }
        i += 1;
    }
    assert(a@ =~= b@);
    true
}

/// Whether `d` begins with `p`.
pub open spec fn begins(d: Seq<u8>, p: Seq<u8>) -> bool {
    p.len() <= d.len() && d.subrange(0, p.len() as int) == p
}

/// Whether `d` begins with `p`.
pub fn starts_with(d: &[u8], p: &[u8]) -> (r: bool)
    ensures
        r == begins(d@, p@),
{
    p.len() <= d.len() && same(part(d, 0, p.len()), p)
}

/// A 32-bit number takes four bytes.
pub broadcast proof fn le32_takes_four(v: u32)
    ensures
        #[trigger] le32_bytes(v).len() == 4,
{
    reveal(le32_bytes);
}

/// A 16-bit number takes two bytes.
pub broadcast proof fn le16_takes_two(v: u16)
    ensures
        #[trigger] le16_bytes(v).len() == 2,
{
    reveal(le16_bytes);
}

/// A number written least significant byte first reads back as itself.
pub proof fn le32_reads_back(v: u32)
    ensures
        le32(le32_bytes(v), 0) == v,
{
    reveal(le32_bytes);
}

/// A 16-bit number written least significant byte first reads back as itself.
pub proof fn le16_reads_back(v: u16)
    ensures
        le16(le16_bytes(v), 0) == v,
{
    reveal(le16_bytes);
}

/// A 64-bit number written least significant byte first reads back as itself.
pub proof fn le64_reads_back(v: u64)
    ensures
        le64(le64_bytes(v), 0) == v,
{
    broadcast use le32_takes_four;
    let (a, b) = ((v % 0x1_0000_0000) as u32, (v / 0x1_0000_0000) as u32);
    le32_reads_back(a);
    le32_reads_back(b);
    let s = le64_bytes(v);
    le32_moves(s, le32_bytes(a), 0);
    le32_moves(s, le32_bytes(b), 4);
}

proof fn le32_moves(d: Seq<u8>, s: Seq<u8>, at: int)
    requires
        0 <= at,
        at + 4 <= d.len(),
        s.len() == 4,
        forall|i: int| 0 <= i < 4 ==> d[at + i] == s[i],
    ensures
        le32(d, at) == le32(s, 0),
{
    assert(d[at + 0] == s[0] && d[at + 1] == s[1] && d[at + 2] == s[2] && d[at + 3] == s[3]);
}

/// A number found in place reads as what was written there.
pub proof fn le32_found(d: Seq<u8>, at: int, v: u32)
    requires
        0 <= at,
        at + 4 <= d.len(),
        d.subrange(at, at + 4) == le32_bytes(v),
    ensures
        le32(d, at) == v,
{
    le32_reads_back(v);
    let s = d.subrange(at, at + 4);
    assert(s[0] == d[at] && s[1] == d[at + 1] && s[2] == d[at + 2] && s[3] == d[at + 3]);
}

/// A 16-bit number found in place reads as what was written there.
pub proof fn le16_found(d: Seq<u8>, at: int, v: u16)
    requires
        0 <= at,
        at + 2 <= d.len(),
        d.subrange(at, at + 2) == le16_bytes(v),
    ensures
        le16(d, at) == v,
{
    le16_reads_back(v);
    let s = d.subrange(at, at + 2);
    assert(s[0] == d[at] && s[1] == d[at + 1]);
}

// ---- order ----------------------------------------------------------------------

/// How one value compares with another.
#[derive(Debug, Clone, Copy, PartialEq, Eq, Structural)]
pub enum Order {
    Less,
    Equal,
    Greater,
}

/// The order of numbers.
pub open spec fn order_of(a: int, b: int) -> Order {
    if a < b {
        Order::Less
    } else if a == b {
        Order::Equal
    } else {
        Order::Greater
    }
}

/// The order of byte strings from position `i` on: the first byte that differs
/// decides, and a string comes before what it begins.
pub open spec fn order_from(a: Seq<u8>, b: Seq<u8>, i: int) -> Order
    decreases a.len() - i,
{
    if i < 0 || i >= a.len() || i >= b.len() {
        order_of(a.len() as int, b.len() as int)
    } else if a[i] != b[i] {
        order_of(a[i] as int, b[i] as int)
    } else {
        order_from(a, b, i + 1)
    }
}

/// The order of numbers.
pub fn order_numbers(a: i128, b: i128) -> (r: Order)
    ensures
        r == order_of(a as int, b as int),
{
    if a < b {
        Order::Less
    } else if a == b {
        Order::Equal
    } else {
        Order::Greater
    }
}

/// The order of byte strings.
pub fn order_bytes(a: &[u8], b: &[u8]) -> (r: Order)
    ensures
        r == order_from(a@, b@, 0),
{
    let mut i: usize = 0;
    while i < a.len() && i < b.len()
        invariant
            i <= a@.len(),
            order_from(a@, b@, 0) == order_from(a@, b@, i as int),
        decreases a.len() - i,
    {
        if a[i] != b[i] {
            return order_numbers(a[i] as i128, b[i] as i128);
        }
        i += 1;
    }
    order_numbers(a.len() as i128, b.len() as i128)
}

/// Comparing byte strings the other way round gives the opposite order, and
/// only equal byte strings compare as equal.
pub proof fn order_is_total(a: Seq<u8>, b: Seq<u8>)
    ensures
        order_from(a, b, 0) == Order::Less <==> order_from(b, a, 0) == Order::Greater,
        order_from(a, b, 0) == Order::Greater <==> order_from(b, a, 0) == Order::Less,
        order_from(a, b, 0) == Order::Equal <==> a == b,
{
    lemma_order(a, b, 0);
}

proof fn lemma_order(a: Seq<u8>, b: Seq<u8>, i: int)
    requires
        0 <= i <= a.len(),
        i <= b.len(),
        forall|k: int| 0 <= k < i ==> a[k] == b[k],
    ensures
        order_from(a, b, i) == Order::Less <==> order_from(b, a, i) == Order::Greater,
        order_from(a, b, i) == Order::Greater <==> order_from(b, a, i) == Order::Less,
        order_from(a, b, i) == Order::Equal <==> a == b,
    decreases a.len() - i,
{
    if i < a.len() && i < b.len() && a[i] == b[i] {
        lemma_order(a, b, i + 1);
    } else if i == a.len() && i == b.len() {
        assert(a =~= b);
    }
}

} // verus!
