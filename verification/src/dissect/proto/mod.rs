//! One hand-written dissector per protocol. Each has the shape
//! `fn(&[u8], &mut Ctx) -> Result<(), DissectError>`, bounds-checks every
//! read, and hands its payload on via `Ctx::call_next`.
//!
//! What a dissector does is a function from the slice and the frame so far to
//! the frame after it and the error, if any: an `Outcome`.

use vstd::prelude::*;
use vstd::utf8::*;

use crate::bytes;
use crate::bytes::be32_bytes;
use crate::text;
use crate::text::joined;

use super::ctx::{AddrsView, Ctx, Model, NetAddrs, Proto};
use super::cursor::DissectError;
use super::expert::{Group, Severity};
use super::node::{Value, ValueView};

pub mod arp;
pub mod dhcp;
pub mod dns;
pub mod eth;
pub mod http;
pub mod icmp;
pub mod icmpv6;
pub mod ipv4;
pub mod ipv6;
pub mod llc;
pub mod null;
pub mod tcp;
pub mod tls;
pub mod udp;
pub mod vlan;

verus! {

/// A frame after a dissector ran, and why it stopped short if it did.
pub type Outcome = (Model, Option<DissectError>);

/// What reading one option of a list came to.
#[derive(Debug, Clone, Copy)]
pub enum Step {
    /// Another option may follow.
    Next,
    /// This option ends the list.
    Last,
    /// The option could not be read.
    Failed(DissectError),
}

/// The error for `need` bytes at absolute offset `at` where `have` are left.
pub open spec fn cut(at: int, need: int, have: int) -> DissectError {
    DissectError::Truncated { at: at as usize, need: need as usize, have: have as usize }
}

/// Where reading stopped with an error.
pub open spec fn stop_of(e: DissectError) -> int {
    match e {
        DissectError::Truncated { at, .. } => at as int,
        DissectError::Invalid { at, .. } => at as int,
    }
}

/// Where reading stopped with an error.
pub fn stop_at(e: &DissectError) -> (r: usize)
    ensures
        r == stop_of(*e),
{
    match e {
        DissectError::Truncated { at, .. } => *at,
        DissectError::Invalid { at, .. } => *at,
    }
}

/// The label of a layer that could not be read.
pub open spec fn bad_packet(proto: Proto, e: DissectError) -> Seq<char> {
    "[Malformed Packet: "@ + proto.called() + "] "@ + e.message()
}

/// The label of a layer that could not be read.
pub fn bad_packet_text(proto: Proto, e: DissectError) -> (r: String)
    ensures
        r@ == bad_packet(proto, e),
{
    let mut out: String = text::cat("[Malformed Packet: ", proto.name());
    out.push_str("] ");
    out.push_str(e.text().as_str());
    out
}

/// The label of an option that could not be read.
pub open spec fn bad_option(e: DissectError) -> Seq<char> {
    "[Malformed option: "@ + e.message() + "]"@
}

/// The label of an option that could not be read.
pub fn bad_option_text(e: DissectError) -> (r: String)
    ensures
        r@ == bad_option(e),
{
    let mut out: String = text::cat("[Malformed option: ", e.text().as_str());
    out.push_str("]");
    out
}

/// The error in a result, if any.
pub open spec fn error_of<T>(r: Result<T, DissectError>) -> Option<DissectError> {
    match r {
        Ok(_) => None,
        Err(e) => Some(e),
    }
}

/// The slice has absolute offsets the machine can hold.
pub open spec fn addressable(d: Seq<u8>, m: Model) -> bool {
    m.base + d.len() <= usize::MAX
}

/// Reading fields of the given widths one after the other, with `left` bytes
/// from absolute offset `at` on, fails at the first that does not fit.
pub open spec fn shortfall(at: int, left: int, widths: Seq<usize>) -> DissectError
    decreases widths.len(),
{
    if widths.len() <= 1 || left < widths[0] {
        DissectError::Truncated { at: at as usize, need: widths[0], have: left as usize }
    } else {
        shortfall(at + widths[0], left - widths[0], widths.drop_first())
    }
}

/// The error for the first of several fields that does not fit.
pub fn first_short(at: usize, left: usize, widths: &[usize]) -> (r: DissectError)
    requires
        widths@.len() > 0,
        at + left <= usize::MAX,
    ensures
        r == shortfall(at as int, left as int, widths@),
{
    let mut at: usize = at;
    let mut left: usize = left;
    let mut i: usize = 0;
    let ghost at0 = at as int;
    let ghost left0 = left as int;
    assert(widths@.skip(0) =~= widths@);
    while i < widths.len() - 1 && left >= widths[i]
        invariant
            i < widths@.len(),
            at + left <= usize::MAX,
            shortfall(at0, left0, widths@) == shortfall(
                at as int,
                left as int,
                widths@.skip(i as int),
            ),
        decreases widths.len() - i,
    {
        assert(widths@.skip(i as int).drop_first() =~= widths@.skip(i + 1));
        at = at + widths[i];
        left = left - widths[i];
        i += 1;
    }
    DissectError::Truncated { at, need: widths[i], have: left }
}

/// The `data` pseudo-protocol: whatever no dissector claimed.
pub open spec fn data_layer(d: Seq<u8>, m: Model) -> Model {
    let (a, b) = (m.base, m.base + d.len());
    m.push_protocol("data"@).begin("data"@, a, b).leaf("data.data"@, a, b, ValueView::Bytes).leaf(
        "data.len"@,
        a,
        b,
        ValueView::Unsigned(d.len() as u64),
    ).end()
}

/// The `data` pseudo-protocol: whatever no dissector claimed.
pub fn data(rest: &[u8], ctx: &mut Ctx) -> (r: Result<(), DissectError>)
    requires
        addressable(rest@, old(ctx)@),
    ensures
        r is Ok,
        final(ctx)@ == data_layer(rest@, old(ctx)@),
{
    let a: usize = ctx.base();
    let b: usize = a + rest.len();
    ctx.push_protocol("data");
    let _ = ctx.begin("data", a..b);
    let _ = ctx.leaf("data.data", a..b, Value::Bytes);
    let _ = ctx.leaf("data.len", a..b, Value::Unsigned(rest.len() as u64));
    ctx.end();
    Ok(())
}

/// The dissector for an EtherType.
pub open spec fn next_by_ethertype(ethertype: u16) -> Proto {
    if ethertype == 0x0800 {
        Proto::Ipv4
    } else if ethertype == 0x0806 {
        Proto::Arp
    } else if ethertype == 0x8100 || ethertype == 0x88A8 {
        Proto::Vlan
    } else if ethertype == 0x86DD {
        Proto::Ipv6
    } else {
        Proto::Data
    }
}

/// Dispatch on an EtherType, shared by Ethernet, 802.1Q and SNAP.
pub fn ethertype_next(ethertype: u16) -> (r: Proto)
    ensures
        r == next_by_ethertype(ethertype),
{
    match ethertype {
        0x0800 => Proto::Ipv4,
        0x0806 => Proto::Arp,
        0x8100 | 0x88A8 => Proto::Vlan,
        0x86DD => Proto::Ipv6,
        _ => Proto::Data,
    }
}

/// The dissector for an IP protocol number.
pub open spec fn next_by_ipproto(proto: u8) -> Proto {
    if proto == 1 {
        Proto::Icmp
    } else if proto == 6 {
        Proto::Tcp
    } else if proto == 17 {
        Proto::Udp
    } else if proto == 58 {
        Proto::Icmpv6
    } else {
        Proto::Data
    }
}

/// Dispatch on an IP protocol number, shared by IPv4 and IPv6.
pub fn ipproto_next(proto: u8) -> (r: Proto)
    ensures
        r == next_by_ipproto(proto),
{
    match proto {
        1 => Proto::Icmp,
        6 => Proto::Tcp,
        17 => Proto::Udp,
        58 => Proto::Icmpv6,
        _ => Proto::Data,
    }
}

// ---- checksums ----------------------------------------------------------------

/// Checksum verification result; the numeric value stored in a
/// `*.checksum.status` field.
pub const CK_BAD: u64 = 0;

pub const CK_GOOD: u64 = 1;

pub const CK_UNVERIFIED: u64 = 2;

pub const CK_NOT_PRESENT: u64 = 3;

/// The first `n` bytes summed as big-endian 16-bit words, an odd byte at the
/// end padded with zero: bytes at even offsets count 256-fold.
pub open spec fn word_sum(b: Seq<u8>, n: int) -> int
    decreases n,
{
    if n <= 0 {
        0
    } else {
        word_sum(b, n - 1) + (if n % 2 == 1 {
            256 * b[n - 1]
        } else {
            b[n - 1] as int
        })
    }
}

/// A sum folded into 16 bits with end-around carry.
pub open spec fn end_around(sum: int) -> int {
    if sum == 0 {
        0
    } else {
        (sum - 1) % 65535 + 1
    }
}

/// The internet checksum (RFC 1071) of `b`.
pub open spec fn checksum_of(b: Seq<u8>) -> u16 {
    (0xffff - end_around(word_sum(b, b.len() as int))) as u16
}

/// Several slices one after the other.
pub open spec fn flat(parts: Seq<&[u8]>) -> Seq<u8>
    decreases parts.len(),
{
    if parts.len() == 0 {
        Seq::empty()
    } else {
        flat(parts.drop_last()) + parts.last()@
    }
}

proof fn lemma_word_sum_prefix(a: Seq<u8>, b: Seq<u8>, n: int)
    requires
        n <= a.len(),
        n <= b.len(),
        forall|i: int| 0 <= i < n ==> a[i] == b[i],
    ensures
        word_sum(a, n) == word_sum(b, n),
    decreases n,
{
    if n > 0 {
        lemma_word_sum_prefix(a, b, n - 1);
    }
}

proof fn lemma_word_sum_bound(b: Seq<u8>, n: int)
    requires
        n <= b.len(),
    ensures
        0 <= word_sum(b, n),
        n >= 0 ==> word_sum(b, n) <= 65280 * n,
    decreases n,
{
    if n > 0 {
        lemma_word_sum_bound(b, n - 1);
    }
}

/// Fold a sum into 16 bits with end-around carry.
fn fold(sum: u128) -> (r: u16)
    ensures
        r == end_around(sum as int),
{
    let mut s: u128 = sum;
    while s > 0xffff
        invariant
            end_around(s as int) == end_around(sum as int),
        decreases s,
    {
        let q: u128 = s / 65536;
        let rest: u128 = s % 65536;
        proof {
            vstd::arithmetic::div_mod::lemma_mod_multiples_vanish(
                -(q as int),
                s as int - 1,
                65535,
            );
            assert(65535 * (-(q as int)) + (s as int - 1) == q as int + rest as int - 1);
        }
        s = rest + q;
    }
    s as u16
}

/// Internet checksum (RFC 1071) over `parts`, in order.
pub fn inet_checksum(parts: &[&[u8]]) -> (r: u16)
    ensures
        r == checksum_of(flat(parts@)),
{
    let mut sum: u128 = 0;
    let mut even: bool = true;
    let mut i: usize = 0;
    let ghost mut done = Seq::<u8>::empty();
    assert(flat(parts@.take(0)) =~= Seq::empty());
    while i < parts.len()
        invariant
            i <= parts@.len(),
            done == flat(parts@.take(i as int)),
            even == (done.len() % 2 == 0),
            end_around(sum as int) == end_around(word_sum(done, done.len() as int)),
        decreases parts.len() - i,
    {
        let part: &[u8] = parts[i];
        let ghost before = done;
        let mut j: usize = 0;
        assert(before + part@.take(0) =~= before);
        while j < part.len()
            invariant
                j <= part@.len(),
                done == before + part@.take(j as int),
                even == (done.len() % 2 == 0),
                end_around(sum as int) == end_around(word_sum(done, done.len() as int)),
            decreases part.len() - j,
        {
            let ghost more = done.push(part@[j as int]);
            proof {
                lemma_word_sum_prefix(done, more, done.len() as int);
                lemma_word_sum_bound(done, done.len() as int);
                assert(before + part@.take(j + 1) =~= more);
            }
            let low: u128 = fold(sum) as u128;
            let w: u128 = if even {
                256 * (part[j] as u128)
            } else {
                part[j] as u128
            };
            proof {
                lemma_end_around_step(
                    sum as int,
                    word_sum(done, done.len() as int),
                    w as int,
                );
            }
            sum = low + w;
            even = !even;
            proof {
                done = more;
            }
            j += 1;
        }
        assert(part@.take(part@.len() as int) =~= part@);
        assert(parts@.take(i + 1).drop_last() =~= parts@.take(i as int));
        i += 1;
    }
    assert(parts@.take(parts@.len() as int) =~= parts@);
    0xffff - fold(sum)
}

proof fn lemma_end_around_step(sum: int, words: int, w: int)
    requires
        0 <= sum,
        0 <= words,
        0 <= w,
        end_around(sum) == end_around(words),
    ensures
        end_around(end_around(sum) + w) == end_around(words + w),
{
    lemma_end_around_plus(words, w);
}

proof fn lemma_end_around_plus(a: int, w: int)
    requires
        0 <= a,
        0 <= w,
    ensures
        end_around(end_around(a) + w) == end_around(a + w),
{
    if a > 0 {
        let q = (a - 1) / 65535;
        vstd::arithmetic::div_mod::lemma_fundamental_div_mod(a - 1, 65535);
        vstd::arithmetic::div_mod::lemma_mod_multiples_vanish(q, (a - 1) % 65535 + w, 65535);
        assert(65535 * q + ((a - 1) % 65535 + w) == a + w - 1);
        assert(end_around(a) + w > 0);
    }
}

/// A checksum stored in the (even) place it was computed with as zero makes
/// the whole check to zero.
pub proof fn stored_checksum_verifies(b: Seq<u8>, i: int, sum: u16)
    requires
        0 <= i,
        i % 2 == 0,
        i + 1 < b.len(),
        b[i] == sum / 256,
        b[i + 1] == sum % 256,
        sum == checksum_of(b.update(i, 0).update(i + 1, 0)),
    ensures
        checksum_of(b) == 0,
{
    let z = b.update(i, 0).update(i + 1, 0);
    let s = word_sum(z, z.len() as int);
    lemma_word_sum_bound(z, z.len() as int);
    lemma_word_sum_stored(b, i, b.len() as int);
    assert(word_sum(b, b.len() as int) == s + sum);
    lemma_end_around_plus(s, sum as int);
}

proof fn lemma_word_sum_stored(b: Seq<u8>, i: int, n: int)
    requires
        0 <= i,
        i % 2 == 0,
        i + 1 < b.len(),
        0 <= n <= b.len(),
    ensures
        word_sum(b, n) == word_sum(b.update(i, 0).update(i + 1, 0), n) + (if n > i {
            256 * b[i]
        } else {
            0
        }) + (if n > i + 1 {
            b[i + 1] as int
        } else {
            0
        }),
    decreases n,
{
    if n > 0 {
        lemma_word_sum_stored(b, i, n - 1);
    }
}

/// The pseudo-header that TCP, UDP and ICMPv6 checksums cover.
pub open spec fn pseudo_header(addrs: AddrsView, proto: u8, len: nat) -> Seq<u8> {
    let n = be32_bytes(len as u32);
    match addrs {
        AddrsView::V4(s, d) => s + d + seq![0u8, proto, n[2], n[3]],
        AddrsView::V6(s, d) => s + d + seq![n[0], n[1], n[2], n[3], 0u8, 0u8, 0u8, proto],
    }
}

/// The checksum over a segment and its pseudo-header, zero if it verifies;
/// none without a network layer.
pub open spec fn segment_checksum(m: Model, proto: u8, segment: Seq<u8>) -> Option<u16> {
    match m.addrs {
        Some(a) => Some(checksum_of(pseudo_header(a, proto, segment.len()) + segment)),
        None => None,
    }
}

/// Pseudo-header checksum for TCP/UDP over the addresses in `ctx`.
pub fn transport_checksum(ctx: &Ctx, proto: u8, segment: &[u8]) -> (r: Option<u16>)
    ensures
        r == segment_checksum(ctx@, proto, segment@),
{
    let mut len: Vec<u8> = Vec::new();
    #[verifier::truncate]
    let n: u32 = segment.len() as u32;
    bytes::put_be32(&mut len, n);
    assert(len@ =~= be32_bytes(segment@.len() as u32));
    match ctx.net_addrs() {
        Some(NetAddrs::V4(src, dst)) => {
            let pseudo: [u8; 4] = [0, proto, len[2], len[3]];
            let parts: [&[u8]; 4] = [&src, &dst, &pseudo, segment];
            proof {
                reveal_with_fuel(flat, 5);
                assert(pseudo@ =~= seq![0u8, proto, len@[2], len@[3]]);
                assert(parts@.drop_last().drop_last().drop_last().drop_last() =~= Seq::empty());
                assert(flat(parts@) =~= pseudo_header(
                    AddrsView::V4(src@, dst@),
                    proto,
                    segment@.len(),
                ) + segment@);
            }
            Some(inet_checksum(&parts))
        },
        Some(NetAddrs::V6(src, dst)) => {
            let pseudo: [u8; 8] = [len[0], len[1], len[2], len[3], 0, 0, 0, proto];
            let parts: [&[u8]; 4] = [&src, &dst, &pseudo, segment];
            proof {
                reveal_with_fuel(flat, 5);
                assert(pseudo@ =~= seq![
                    len@[0],
                    len@[1],
                    len@[2],
                    len@[3],
                    0u8,
                    0u8,
                    0u8,
                    proto,
                ]);
                assert(parts@.drop_last().drop_last().drop_last().drop_last() =~= Seq::empty());
                assert(flat(parts@) =~= pseudo_header(
                    AddrsView::V6(src@, dst@),
                    proto,
                    segment@.len(),
                ) + segment@);
            }
            Some(inet_checksum(&parts))
        },
        None => None,
    }
}

/// The status of a checksum that came to `sum`: it verifies if that is zero,
/// and cannot be judged without one.
pub open spec fn verdict(sum: Option<u16>) -> u64 {
    match sum {
        Some(s) => if s == 0 {
            CK_GOOD
        } else {
            CK_BAD
        },
        None => CK_UNVERIFIED,
    }
}

/// The status of a checksum that came to `sum`.
pub fn judge(sum: Option<u16>) -> (r: u64)
    ensures
        r == verdict(sum),
{
    match sum {
        Some(s) => if s == 0 {
            CK_GOOD
        } else {
            CK_BAD
        },
        None => CK_UNVERIFIED,
    }
}

/// What a segment of an unfinished message is shown as.
pub const SEGMENT: &'static str = "[TCP segment of a reassembled PDU]";

/// What a wrong checksum is reported as.
pub const BAD_CHECKSUM: &'static str = "Bad checksum";

/// A checksum status field; a bad one is also an expert finding.
pub open spec fn checked(m: Model, abbrev: Seq<char>, start: int, end: int, status: u64) -> Model {
    let m = m.leaf(abbrev, start, end, ValueView::Unsigned(status));
    if status == CK_BAD {
        m.expert(
            "_ws.checksum.bad"@,
            start,
            end,
            Severity::Error,
            Group::Checksum,
            BAD_CHECKSUM@,
        )
    } else {
        m
    }
}

/// Write a checksum status field; a bad one is also an expert finding.
pub fn report_checksum(
    ctx: &mut Ctx,
    abbrev: &'static str,
    start: usize,
    end: usize,
    status: u64,
)
    ensures
        final(ctx)@ == checked(old(ctx)@, abbrev@, start as int, end as int, status),
        final(ctx)@.count() >= old(ctx)@.count(),
        final(ctx)@.base == old(ctx)@.base,
{
    let _ = ctx.leaf(abbrev, start..end, Value::Unsigned(status));
    if status == CK_BAD {
        ctx.expert(
            "_ws.checksum.bad",
            start..end,
            Severity::Error,
            Group::Checksum,
            BAD_CHECKSUM,
        );
    }
}

// ---- fixed-size fields ----------------------------------------------------------

/// The six bytes at `i`.
pub fn mac_at(data: &[u8], i: usize) -> (r: [u8; 6])
    requires
        i + 6 <= data@.len(),
    ensures
        r@ == data@.subrange(i as int, i + 6),
{
    let r: [u8; 6] = [data[i], data[i + 1], data[i + 2], data[i + 3], data[i + 4], data[i + 5]];
    assert(r@ =~= data@.subrange(i as int, i + 6));
    r
}

/// The four bytes at `i`.
pub fn ipv4_at(data: &[u8], i: usize) -> (r: [u8; 4])
    requires
        i + 4 <= data@.len(),
    ensures
        r@ == data@.subrange(i as int, i + 4),
{
    let r: [u8; 4] = [data[i], data[i + 1], data[i + 2], data[i + 3]];
    assert(r@ =~= data@.subrange(i as int, i + 4));
    r
}

/// The sixteen bytes at `i`.
pub fn ipv6_at(data: &[u8], i: usize) -> (r: [u8; 16])
    requires
        i + 16 <= data@.len(),
    ensures
        r@ == data@.subrange(i as int, i + 16),
{
    let r: [u8; 16] = [
        data[i],
        data[i + 1],
        data[i + 2],
        data[i + 3],
        data[i + 4],
        data[i + 5],
        data[i + 6],
        data[i + 7],
        data[i + 8],
        data[i + 9],
        data[i + 10],
        data[i + 11],
        data[i + 12],
        data[i + 13],
        data[i + 14],
        data[i + 15],
    ];
    assert(r@ =~= data@.subrange(i as int, i + 16));
    r
}

// ---- short name lists -----------------------------------------------------------

/// The most bytes a name list holds.
pub const NAME_LIST_LEN: usize = 96;

/// Joins short names ("SYN, ACK") up to a small ceiling; anything longer is
/// truncated.
#[derive(Debug)]
pub struct NameList {
    buf: Vec<u8>,
}

impl NameList {
    #[verifier::type_invariant]
    spec fn inv(self) -> bool {
        self.buf@.len() <= NAME_LIST_LEN
    }
}

/// The first bytes of `b`, as many as a name list holds.
pub open spec fn clipped(b: Seq<u8>) -> Seq<u8> {
    if b.len() <= NAME_LIST_LEN {
        b
    } else {
        b.take(NAME_LIST_LEN as int)
    }
}

/// A list with one more name, after a comma unless it is the first.
pub open spec fn with_name(b: Seq<u8>, name: Seq<char>) -> Seq<u8> {
    if b.len() == 0 {
        clipped(encode_utf8(name))
    } else {
        clipped(b + encode_utf8(", "@) + encode_utf8(name))
    }
}

/// A list as text, empty if it was cut in the middle of a character.
pub open spec fn list_text(b: Seq<u8>) -> Seq<char> {
    if valid_utf8(b) {
        decode_utf8(b)
    } else {
        ""@
    }
}

impl View for NameList {
    type V = Seq<u8>;

    closed spec fn view(&self) -> Seq<u8> {
        self.buf@
    }
}

impl Default for NameList {
    fn default() -> (r: Self)
        ensures
            r@ == Seq::<u8>::empty(),
    {
        NameList::new()
    }
}

impl NameList {
    pub fn new() -> (r: NameList)
        ensures
            r@ == Seq::<u8>::empty(),
    {
        NameList { buf: Vec::new() }
    }

    pub fn is_empty(&self) -> (r: bool)
        ensures
            r == (self@.len() == 0),
    {
        self.buf.len() == 0
    }

    pub fn push(&mut self, name: &str)
        ensures
            final(self)@ == with_name(old(self)@, name@),
            final(self)@.len() <= NAME_LIST_LEN,
    {
        let ghost sep = encode_utf8(", "@);
        if !self.is_empty() {
            self.extend(", ".as_bytes());
        }
        self.extend(name.as_bytes());
        assert(self@ =~= with_name(old(self)@, name@));
    }

    fn extend(&mut self, bytes: &[u8])
        ensures
            final(self)@ == clipped(old(self)@ + bytes@),
            final(self)@.len() <= NAME_LIST_LEN,
    {
        proof {
            use_type_invariant(&*self);
        }
        let mut buf: Vec<u8> = Vec::new();
        std::mem::swap(&mut buf, &mut self.buf);
        let room: usize = NAME_LIST_LEN - buf.len();
        if bytes.len() <= room {
            crate::bytes::put_all(&mut buf, bytes);
        } else {
            crate::bytes::put_all(&mut buf, crate::bytes::part(bytes, 0, room));
        }
        assert(buf@ =~= clipped(old(self)@ + bytes@));
        self.buf = buf;
    }

    pub fn as_str(&self) -> (r: &str)
        ensures
            r@ == list_text(self@),
    {
        // Only ASCII names are ever pushed, so this cannot fail; the fallback
        // keeps the function total.
        match text::from_utf8(self.buf.as_slice()) {
            Some(s) => s,
            None => "",
        }
    }
}

/// A list of the names pushed one after the other.
pub open spec fn all_named(names: Seq<Seq<char>>) -> Seq<u8>
    decreases names.len(),
{
    if names.len() == 0 {
        Seq::empty()
    } else {
        with_name(all_named(names.drop_last()), names.last())
    }
}

proof fn lemma_encode_joins(a: Seq<char>, b: Seq<char>)
    ensures
        encode_utf8(a + b) == encode_utf8(a) + encode_utf8(b),
    decreases a.len(),
{
    if a.len() == 0 {
        assert(a + b =~= b);
        assert(encode_utf8(a) + encode_utf8(b) =~= encode_utf8(b));
    } else {
        assert((a + b).drop_first() =~= a.drop_first() + b);
        lemma_encode_joins(a.drop_first(), b);
        let first = vstd::utf8::encode_scalar(a[0] as u32);
        assert(first + (encode_utf8(a.drop_first()) + encode_utf8(b)) =~= (first + encode_utf8(
            a.drop_first(),
        )) + encode_utf8(b));
    }
}

/// Names pushed one after the other are listed with commas between them, as
/// far as the list goes; where it holds all of them, that is what it shows.
pub proof fn names_are_listed(names: Seq<Seq<char>>)
    requires
        forall|i: int| 0 <= i < names.len() ==> encode_utf8(#[trigger] names[i]).len() > 0,
    ensures
        all_named(names) == clipped(encode_utf8(joined(names, ", "@))),
        names.len() > 0 ==> all_named(names).len() > 0,
        encode_utf8(joined(names, ", "@)).len() <= NAME_LIST_LEN ==> list_text(all_named(names))
            == joined(names, ", "@),
    decreases names.len(),
{
    broadcast use {vstd::utf8::encode_utf8_valid_utf8, vstd::utf8::encode_utf8_decode_utf8};

    if names.len() > 0 {
        let front = names.drop_last();
        assert(names[names.len() - 1] == names.last());
        assert forall|i: int| 0 <= i < front.len() implies encode_utf8(#[trigger] front[i]).len()
            > 0 by {
            assert(front[i] == names[i]);
        }
        names_are_listed(front);
        if names.len() == 1 {
            assert(all_named(front) =~= Seq::empty());
        } else {
            let (x, sep, y) = (joined(front, ", "@), ", "@, names.last());
            lemma_encode_joins(x + sep, y);
            lemma_encode_joins(x, sep);
            let whole = encode_utf8(x);
            assert(clipped(clipped(whole) + encode_utf8(sep) + encode_utf8(y)) =~= clipped(
                whole + encode_utf8(sep) + encode_utf8(y),
            ));
        }
    } else {
        assert(encode_utf8(joined(names, ", "@)) =~= Seq::empty());
    }
}

} // verus!
