//! Names of fields that say nothing about a checksum's verdict.

use vstd::prelude::*;

use crate::dissect::ctx::Options;
use crate::dissect::node::{Row, ValueView};
use crate::dissect::proto::{CK_NOT_PRESENT, CK_UNVERIFIED};
use crate::dissect::registry::{index_from, index_of};
use crate::dissect::reporting::is_status;
use crate::dissect::reporting::verdicts::no_verdict;
use crate::dissect::tables::{abbrev_at, FIELD_COUNT};

verus! {

/// The name of a registered field.
#[verifier::opaque]
pub open spec fn known(abbrev: Seq<char>) -> bool {
    index_of(abbrev) is Some
}

/// A registered field that neither holds a verdict nor is a finding about a
/// checksum.
#[verifier::opaque]
pub open spec fn tame(abbrev: Seq<char>) -> bool {
    known(abbrev) && abbrev != "_ws.checksum.bad"@ && !is_status(abbrev)
}

/// Nobody asked to verify a checksum.
pub open spec fn unasked(o: Options) -> bool {
    !o.validate_ip_checksums && !o.validate_transport_checksums
}

/// The row says more of a checksum than that it is unverified or not present.
pub open spec fn gives_verdict(r: Row) -> bool {
    ||| r.abbrev == "_ws.checksum.bad"@
    ||| is_status(r.abbrev) && r.value != ValueView::Unsigned(CK_UNVERIFIED) && r.value
        != ValueView::Unsigned(CK_NOT_PRESENT)
}

/// A row that may be written under settings `o`.
pub open spec fn allowed(o: Options, abbrev: Seq<char>, value: ValueView) -> bool {
    ||| tame(abbrev)
    ||| known(abbrev) && !unasked(o)
    ||| known(abbrev) && is_status(abbrev) && (value matches ValueView::Unsigned(v) && no_verdict(
        v,
    ))
}

pub broadcast proof fn tame_is_known(abbrev: Seq<char>)
    requires
        tame(abbrev),
    ensures
        #[trigger] known(abbrev),
{
    reveal(tame);
}

proof fn lemma_found_before(abbrev: Seq<char>, i: int, k: int)
    requires
        0 <= i <= k < FIELD_COUNT,
        abbrev_at(k) == abbrev,
    ensures
        index_from(abbrev, i) is Some,
    decreases k - i,
{
    if i < k {
        lemma_found_before(abbrev, i + 1, k);
    }
}

/// The field in place `i` of the table is registered.
proof fn listed(abbrev: Seq<char>, i: int)
    requires
        0 <= i < FIELD_COUNT,
        abbrev_at(i) == abbrev,
    ensures
        known(abbrev),
{
    reveal(known);
    lemma_found_before(abbrev, 0, i);
}

pub broadcast proof fn tame_gives_none(r: Row)
    requires
        tame(r.abbrev),
    ensures
        !(#[trigger] gives_verdict(r)),
{
    reveal(tame);
}

pub broadcast proof fn unverified_gives_none(r: Row)
    requires
        is_status(r.abbrev),
        r.value matches ValueView::Unsigned(v) && no_verdict(v),
    ensures
        !(#[trigger] gives_verdict(r)),
{
    reveal_strlit("_ws.checksum.bad");
    reveal_strlit("ip.checksum.status");
    reveal_strlit("icmp.checksum.status");
    reveal_strlit("icmpv6.checksum.status");
    reveal_strlit("tcp.checksum.status");
    reveal_strlit("udp.checksum.status");
    assert("_ws.checksum.bad"@.len() == 16 && "ip.checksum.status"@.len() == 18);
    assert("tcp.checksum.status"@.len() == 19 && "udp.checksum.status"@.len() == 19);
    assert("icmp.checksum.status"@.len() == 20 && "icmpv6.checksum.status"@.len() == 22);
}

pub broadcast group giving_none {
    tame_gives_none,
    unverified_gives_none,
    tame_is_known,
}

/// The names of verdicts have 16, 18, 19, 20 or 22 characters.
proof fn by_length(abbrev: Seq<char>)
    requires
        known(abbrev),
        abbrev.len() < 16 || abbrev.len() == 17 || abbrev.len() == 21 || abbrev.len() > 22,
    ensures
        tame(abbrev),
{
    reveal(tame);
    reveal_strlit("_ws.checksum.bad");
    reveal_strlit("ip.checksum.status");
    reveal_strlit("icmp.checksum.status");
    reveal_strlit("icmpv6.checksum.status");
    reveal_strlit("tcp.checksum.status");
    reveal_strlit("udp.checksum.status");
}

/// Each of them has `checksum` in its place.
proof fn by_letters(abbrev: Seq<char>)
    requires
        known(abbrev),
        abbrev.len() == 16 ==> abbrev[0] != '_' || abbrev[4] != 'c',
        abbrev.len() == 18 ==> abbrev[0] != 'i' || abbrev[3] != 'c',
        abbrev.len() == 19 ==> abbrev[4] != 'c' || abbrev[5] != 'h',
        abbrev.len() == 20 ==> abbrev[5] != 'c' || abbrev[6] != 'h',
        abbrev.len() == 22 ==> abbrev[7] != 'c' || abbrev[8] != 'h',
    ensures
        tame(abbrev),
{
    reveal(tame);
    reveal_strlit("_ws.checksum.bad");
    reveal_strlit("ip.checksum.status");
    reveal_strlit("icmp.checksum.status");
    reveal_strlit("icmpv6.checksum.status");
    reveal_strlit("tcp.checksum.status");
    reveal_strlit("udp.checksum.status");
    assert("_ws.checksum.bad"@[0] == '_' && "_ws.checksum.bad"@[4] == 'c');
    assert("ip.checksum.status"@[0] == 'i' && "ip.checksum.status"@[3] == 'c');
    assert("tcp.checksum.status"@[4] == 'c' && "tcp.checksum.status"@[5] == 'h');
    assert("udp.checksum.status"@[4] == 'c' && "udp.checksum.status"@[5] == 'h');
    assert("icmp.checksum.status"@[5] == 'c' && "icmp.checksum.status"@[6] == 'h');
    assert("icmpv6.checksum.status"@[7] == 'c' && "icmpv6.checksum.status"@[8] == 'h');
}

pub proof fn link_names()
    ensures
        tame("eth"@),
        tame("eth.dst"@),
        tame("eth.src"@),
        tame("eth.len"@),
        tame("eth.type"@),
        tame("null"@),
        tame("null.family"@),
        tame("vlan"@),
        tame("vlan.priority"@),
        tame("vlan.dei"@),
        tame("vlan.id"@),
        tame("vlan.etype"@),
        tame("llc"@),
        tame("llc.dsap"@),
        tame("llc.ssap"@),
        tame("llc.control"@),
        tame("llc.oui"@),
        tame("llc.type"@),
        tame("llc.pid"@),
        tame("arp"@),
        tame("arp.hw.type"@),
        tame("arp.proto.type"@),
        tame("arp.hw.size"@),
        tame("arp.proto.size"@),
        tame("arp.opcode"@),
        tame("arp.src.hw_mac"@),
        tame("arp.src.proto_ipv4"@),
        tame("arp.dst.hw_mac"@),
        tame("arp.dst.proto_ipv4"@),
        tame("arp.src.hw"@),
        tame("arp.src.proto"@),
        tame("arp.dst.hw"@),
        tame("arp.dst.proto"@),
        tame("data"@),
        tame("data.data"@),
        tame("data.len"@),
{
    reveal(abbrev_at);
    listed("eth"@, 17);
    reveal_strlit("eth");
    by_length("eth"@);
    listed("eth.dst"@, 19);
    reveal_strlit("eth.dst");
    by_length("eth.dst"@);
    listed("eth.src"@, 20);
    reveal_strlit("eth.src");
    by_length("eth.src"@);
    listed("eth.len"@, 22);
    reveal_strlit("eth.len");
    by_length("eth.len"@);
    listed("eth.type"@, 21);
    reveal_strlit("eth.type");
    by_length("eth.type"@);
    listed("null"@, 15);
    reveal_strlit("null");
    by_length("null"@);
    listed("null.family"@, 16);
    reveal_strlit("null.family");
    by_length("null.family"@);
    listed("vlan"@, 25);
    reveal_strlit("vlan");
    by_length("vlan"@);
    listed("vlan.priority"@, 26);
    reveal_strlit("vlan.priority");
    by_length("vlan.priority"@);
    listed("vlan.dei"@, 27);
    reveal_strlit("vlan.dei");
    by_length("vlan.dei"@);
    listed("vlan.id"@, 28);
    reveal_strlit("vlan.id");
    by_length("vlan.id"@);
    listed("vlan.etype"@, 29);
    reveal_strlit("vlan.etype");
    by_length("vlan.etype"@);
    listed("llc"@, 30);
    reveal_strlit("llc");
    by_length("llc"@);
    listed("llc.dsap"@, 31);
    reveal_strlit("llc.dsap");
    by_length("llc.dsap"@);
    listed("llc.ssap"@, 32);
    reveal_strlit("llc.ssap");
    by_length("llc.ssap"@);
    listed("llc.control"@, 33);
    reveal_strlit("llc.control");
    by_length("llc.control"@);
    listed("llc.oui"@, 34);
    reveal_strlit("llc.oui");
    by_length("llc.oui"@);
    listed("llc.type"@, 35);
    reveal_strlit("llc.type");
    by_length("llc.type"@);
    listed("llc.pid"@, 36);
    reveal_strlit("llc.pid");
    by_length("llc.pid"@);
    listed("arp"@, 37);
    reveal_strlit("arp");
    by_length("arp"@);
    listed("arp.hw.type"@, 38);
    reveal_strlit("arp.hw.type");
    by_length("arp.hw.type"@);
    listed("arp.proto.type"@, 39);
    reveal_strlit("arp.proto.type");
    by_length("arp.proto.type"@);
    listed("arp.hw.size"@, 40);
    reveal_strlit("arp.hw.size");
    by_length("arp.hw.size"@);
    listed("arp.proto.size"@, 41);
    reveal_strlit("arp.proto.size");
    by_length("arp.proto.size"@);
    listed("arp.opcode"@, 42);
    reveal_strlit("arp.opcode");
    by_length("arp.opcode"@);
    listed("arp.src.hw_mac"@, 43);
    reveal_strlit("arp.src.hw_mac");
    by_length("arp.src.hw_mac"@);
    listed("arp.src.proto_ipv4"@, 45);
    reveal_strlit("arp.src.proto_ipv4");
    by_letters("arp.src.proto_ipv4"@);
    listed("arp.dst.hw_mac"@, 46);
    reveal_strlit("arp.dst.hw_mac");
    by_length("arp.dst.hw_mac"@);
    listed("arp.dst.proto_ipv4"@, 47);
    reveal_strlit("arp.dst.proto_ipv4");
    by_letters("arp.dst.proto_ipv4"@);
    listed("arp.src.hw"@, 48);
    reveal_strlit("arp.src.hw");
    by_length("arp.src.hw"@);
    listed("arp.src.proto"@, 49);
    reveal_strlit("arp.src.proto");
    by_length("arp.src.proto"@);
    listed("arp.dst.hw"@, 50);
    reveal_strlit("arp.dst.hw");
    by_length("arp.dst.hw"@);
    listed("arp.dst.proto"@, 51);
    reveal_strlit("arp.dst.proto");
    by_length("arp.dst.proto"@);
    listed("data"@, 12);
    reveal_strlit("data");
    by_length("data"@);
    listed("data.data"@, 13);
    reveal_strlit("data.data");
    by_length("data.data"@);
    listed("data.len"@, 14);
    reveal_strlit("data.len");
    by_length("data.len"@);
}

pub proof fn ipv4_names()
    ensures
        tame("ip.opt.route"@),
        tame("ip.opt.ra"@),
        tame("ip.opt.ptr"@),
        tame("ip.opt.data"@),
        tame("ip.opt"@),
        tame("ip.opt.type"@),
        tame("ip.opt.len"@),
        tame("ip.opt.padding"@),
        tame("_ws.malformed"@),
        tame("ip"@),
        tame("ip.version"@),
        tame("ip.hdr_len"@),
        tame("ip.dsfield"@),
        tame("ip.dsfield.dscp"@),
        tame("ip.dsfield.ecn"@),
        tame("ip.len"@),
        tame("ip.len_tso"@),
        tame("ip.id"@),
        tame("ip.flags"@),
        tame("ip.flags.rb"@),
        tame("ip.flags.df"@),
        tame("ip.flags.mf"@),
        tame("ip.frag_offset"@),
        tame("ip.ttl"@),
        tame("ip.proto"@),
        tame("ip.checksum"@),
        tame("ip.src"@),
        tame("ip.dst"@),
        tame("ip.fragment"@),
        tame("ip.fragments"@),
        tame("ip.fragment.count"@),
        tame("ip.reassembled.length"@),
        tame("ip.reassembled.data"@),
        tame("ip.options"@),
{
    reveal(abbrev_at);
    listed("ip.opt.route"@, 81);
    reveal_strlit("ip.opt.route");
    by_length("ip.opt.route"@);
    listed("ip.opt.ra"@, 78);
    reveal_strlit("ip.opt.ra");
    by_length("ip.opt.ra"@);
    listed("ip.opt.ptr"@, 80);
    reveal_strlit("ip.opt.ptr");
    by_length("ip.opt.ptr"@);
    listed("ip.opt.data"@, 77);
    reveal_strlit("ip.opt.data");
    by_length("ip.opt.data"@);
    listed("ip.opt"@, 74);
    reveal_strlit("ip.opt");
    by_length("ip.opt"@);
    listed("ip.opt.type"@, 75);
    reveal_strlit("ip.opt.type");
    by_length("ip.opt.type"@);
    listed("ip.opt.len"@, 76);
    reveal_strlit("ip.opt.len");
    by_length("ip.opt.len"@);
    listed("ip.opt.padding"@, 79);
    reveal_strlit("ip.opt.padding");
    by_length("ip.opt.padding"@);
    listed("_ws.malformed"@, 7);
    reveal_strlit("_ws.malformed");
    by_length("_ws.malformed"@);
    listed("ip"@, 52);
    reveal_strlit("ip");
    by_length("ip"@);
    listed("ip.version"@, 53);
    reveal_strlit("ip.version");
    by_length("ip.version"@);
    listed("ip.hdr_len"@, 54);
    reveal_strlit("ip.hdr_len");
    by_length("ip.hdr_len"@);
    listed("ip.dsfield"@, 55);
    reveal_strlit("ip.dsfield");
    by_length("ip.dsfield"@);
    listed("ip.dsfield.dscp"@, 56);
    reveal_strlit("ip.dsfield.dscp");
    by_length("ip.dsfield.dscp"@);
    listed("ip.dsfield.ecn"@, 57);
    reveal_strlit("ip.dsfield.ecn");
    by_length("ip.dsfield.ecn"@);
    listed("ip.len"@, 58);
    reveal_strlit("ip.len");
    by_length("ip.len"@);
    listed("ip.len_tso"@, 59);
    reveal_strlit("ip.len_tso");
    by_length("ip.len_tso"@);
    listed("ip.id"@, 60);
    reveal_strlit("ip.id");
    by_length("ip.id"@);
    listed("ip.flags"@, 61);
    reveal_strlit("ip.flags");
    by_length("ip.flags"@);
    listed("ip.flags.rb"@, 62);
    reveal_strlit("ip.flags.rb");
    by_length("ip.flags.rb"@);
    listed("ip.flags.df"@, 63);
    reveal_strlit("ip.flags.df");
    by_length("ip.flags.df"@);
    listed("ip.flags.mf"@, 64);
    reveal_strlit("ip.flags.mf");
    by_length("ip.flags.mf"@);
    listed("ip.frag_offset"@, 65);
    reveal_strlit("ip.frag_offset");
    by_length("ip.frag_offset"@);
    listed("ip.ttl"@, 66);
    reveal_strlit("ip.ttl");
    by_length("ip.ttl"@);
    listed("ip.proto"@, 67);
    reveal_strlit("ip.proto");
    by_length("ip.proto"@);
    listed("ip.checksum"@, 68);
    reveal_strlit("ip.checksum");
    by_length("ip.checksum"@);
    listed("ip.src"@, 71);
    reveal_strlit("ip.src");
    by_length("ip.src"@);
    listed("ip.dst"@, 72);
    reveal_strlit("ip.dst");
    by_length("ip.dst"@);
    listed("ip.fragment"@, 82);
    reveal_strlit("ip.fragment");
    by_length("ip.fragment"@);
    listed("ip.fragments"@, 83);
    reveal_strlit("ip.fragments");
    by_length("ip.fragments"@);
    listed("ip.fragment.count"@, 84);
    reveal_strlit("ip.fragment.count");
    by_length("ip.fragment.count"@);
    listed("ip.reassembled.length"@, 85);
    reveal_strlit("ip.reassembled.length");
    by_length("ip.reassembled.length"@);
    listed("ip.reassembled.data"@, 86);
    reveal_strlit("ip.reassembled.data");
    by_letters("ip.reassembled.data"@);
    listed("ip.options"@, 73);
    reveal_strlit("ip.options");
    by_length("ip.options"@);
}

pub proof fn ipv6_names()
    ensures
        tame("ipv6.opt"@),
        tame("ipv6.opt.type"@),
        tame("ipv6.opt.length"@),
        tame("ipv6.opt.router_alert"@),
        tame("ipv6.opt.data"@),
        tame("_ws.malformed"@),
        tame("ipv6.hopopts"@),
        tame("ipv6.hopopts.nxt"@),
        tame("ipv6.hopopts.len"@),
        tame("ipv6.dstopts"@),
        tame("ipv6.dstopts.nxt"@),
        tame("ipv6.dstopts.len"@),
        tame("ipv6.routing.addr"@),
        tame("ipv6.routing.data"@),
        tame("ipv6.routing"@),
        tame("ipv6.routing.nxt"@),
        tame("ipv6.routing.len"@),
        tame("ipv6.routing.type"@),
        tame("ipv6.routing.segleft"@),
        tame("ipv6.fraghdr"@),
        tame("ipv6.fraghdr.nxt"@),
        tame("ipv6.fraghdr.reserved_octet"@),
        tame("ipv6.fraghdr.offset"@),
        tame("ipv6.fraghdr.reserved_bits"@),
        tame("ipv6.fraghdr.more"@),
        tame("ipv6.fraghdr.ident"@),
        tame("ipv6"@),
        tame("ipv6.version"@),
        tame("ipv6.tclass"@),
        tame("ipv6.flow"@),
        tame("ipv6.plen"@),
        tame("ipv6.nxt"@),
        tame("ipv6.hlim"@),
        tame("ipv6.src"@),
        tame("ipv6.dst"@),
{
    reveal(abbrev_at);
    listed("ipv6.opt"@, 103);
    reveal_strlit("ipv6.opt");
    by_length("ipv6.opt"@);
    listed("ipv6.opt.type"@, 104);
    reveal_strlit("ipv6.opt.type");
    by_length("ipv6.opt.type"@);
    listed("ipv6.opt.length"@, 105);
    reveal_strlit("ipv6.opt.length");
    by_length("ipv6.opt.length"@);
    listed("ipv6.opt.router_alert"@, 107);
    reveal_strlit("ipv6.opt.router_alert");
    by_length("ipv6.opt.router_alert"@);
    listed("ipv6.opt.data"@, 106);
    reveal_strlit("ipv6.opt.data");
    by_length("ipv6.opt.data"@);
    listed("_ws.malformed"@, 7);
    reveal_strlit("_ws.malformed");
    by_length("_ws.malformed"@);
    listed("ipv6.hopopts"@, 97);
    reveal_strlit("ipv6.hopopts");
    by_length("ipv6.hopopts"@);
    listed("ipv6.hopopts.nxt"@, 98);
    reveal_strlit("ipv6.hopopts.nxt");
    by_letters("ipv6.hopopts.nxt"@);
    listed("ipv6.hopopts.len"@, 99);
    reveal_strlit("ipv6.hopopts.len");
    by_letters("ipv6.hopopts.len"@);
    listed("ipv6.dstopts"@, 100);
    reveal_strlit("ipv6.dstopts");
    by_length("ipv6.dstopts"@);
    listed("ipv6.dstopts.nxt"@, 101);
    reveal_strlit("ipv6.dstopts.nxt");
    by_letters("ipv6.dstopts.nxt"@);
    listed("ipv6.dstopts.len"@, 102);
    reveal_strlit("ipv6.dstopts.len");
    by_letters("ipv6.dstopts.len"@);
    listed("ipv6.routing.addr"@, 114);
    reveal_strlit("ipv6.routing.addr");
    by_length("ipv6.routing.addr"@);
    listed("ipv6.routing.data"@, 113);
    reveal_strlit("ipv6.routing.data");
    by_length("ipv6.routing.data"@);
    listed("ipv6.routing"@, 108);
    reveal_strlit("ipv6.routing");
    by_length("ipv6.routing"@);
    listed("ipv6.routing.nxt"@, 109);
    reveal_strlit("ipv6.routing.nxt");
    by_letters("ipv6.routing.nxt"@);
    listed("ipv6.routing.len"@, 110);
    reveal_strlit("ipv6.routing.len");
    by_letters("ipv6.routing.len"@);
    listed("ipv6.routing.type"@, 111);
    reveal_strlit("ipv6.routing.type");
    by_length("ipv6.routing.type"@);
    listed("ipv6.routing.segleft"@, 112);
    reveal_strlit("ipv6.routing.segleft");
    by_letters("ipv6.routing.segleft"@);
    listed("ipv6.fraghdr"@, 115);
    reveal_strlit("ipv6.fraghdr");
    by_length("ipv6.fraghdr"@);
    listed("ipv6.fraghdr.nxt"@, 116);
    reveal_strlit("ipv6.fraghdr.nxt");
    by_letters("ipv6.fraghdr.nxt"@);
    listed("ipv6.fraghdr.reserved_octet"@, 117);
    reveal_strlit("ipv6.fraghdr.reserved_octet");
    by_length("ipv6.fraghdr.reserved_octet"@);
    listed("ipv6.fraghdr.offset"@, 118);
    reveal_strlit("ipv6.fraghdr.offset");
    by_letters("ipv6.fraghdr.offset"@);
    listed("ipv6.fraghdr.reserved_bits"@, 119);
    reveal_strlit("ipv6.fraghdr.reserved_bits");
    by_length("ipv6.fraghdr.reserved_bits"@);
    listed("ipv6.fraghdr.more"@, 120);
    reveal_strlit("ipv6.fraghdr.more");
    by_length("ipv6.fraghdr.more"@);
    listed("ipv6.fraghdr.ident"@, 121);
    reveal_strlit("ipv6.fraghdr.ident");
    by_letters("ipv6.fraghdr.ident"@);
    listed("ipv6"@, 87);
    reveal_strlit("ipv6");
    by_length("ipv6"@);
    listed("ipv6.version"@, 88);
    reveal_strlit("ipv6.version");
    by_length("ipv6.version"@);
    listed("ipv6.tclass"@, 89);
    reveal_strlit("ipv6.tclass");
    by_length("ipv6.tclass"@);
    listed("ipv6.flow"@, 90);
    reveal_strlit("ipv6.flow");
    by_length("ipv6.flow"@);
    listed("ipv6.plen"@, 91);
    reveal_strlit("ipv6.plen");
    by_length("ipv6.plen"@);
    listed("ipv6.nxt"@, 92);
    reveal_strlit("ipv6.nxt");
    by_length("ipv6.nxt"@);
    listed("ipv6.hlim"@, 93);
    reveal_strlit("ipv6.hlim");
    by_length("ipv6.hlim"@);
    listed("ipv6.src"@, 95);
    reveal_strlit("ipv6.src");
    by_length("ipv6.src"@);
    listed("ipv6.dst"@, 96);
    reveal_strlit("ipv6.dst");
    by_length("ipv6.dst"@);
}

pub proof fn control_names()
    ensures
        tame("icmp.unused"@),
        tame("icmp.mtu"@),
        tame("icmp.gateway"@),
        tame("icmp.pointer"@),
        tame("_ws.malformed"@),
        tame("icmp"@),
        tame("icmp.type"@),
        tame("icmp.code"@),
        tame("icmp.checksum"@),
        tame("icmp.ident"@),
        tame("icmp.seq"@),
        tame("icmp.data"@),
{
    reveal(abbrev_at);
    listed("icmp.unused"@, 129);
    reveal_strlit("icmp.unused");
    by_length("icmp.unused"@);
    listed("icmp.mtu"@, 130);
    reveal_strlit("icmp.mtu");
    by_length("icmp.mtu"@);
    listed("icmp.gateway"@, 131);
    reveal_strlit("icmp.gateway");
    by_length("icmp.gateway"@);
    listed("icmp.pointer"@, 132);
    reveal_strlit("icmp.pointer");
    by_length("icmp.pointer"@);
    listed("_ws.malformed"@, 7);
    reveal_strlit("_ws.malformed");
    by_length("_ws.malformed"@);
    listed("icmp"@, 122);
    reveal_strlit("icmp");
    by_length("icmp"@);
    listed("icmp.type"@, 123);
    reveal_strlit("icmp.type");
    by_length("icmp.type"@);
    listed("icmp.code"@, 124);
    reveal_strlit("icmp.code");
    by_length("icmp.code"@);
    listed("icmp.checksum"@, 125);
    reveal_strlit("icmp.checksum");
    by_length("icmp.checksum"@);
    listed("icmp.ident"@, 127);
    reveal_strlit("icmp.ident");
    by_length("icmp.ident"@);
    listed("icmp.seq"@, 128);
    reveal_strlit("icmp.seq");
    by_length("icmp.seq"@);
    listed("icmp.data"@, 133);
    reveal_strlit("icmp.data");
    by_length("icmp.data"@);
}

pub proof fn control6_names()
    ensures
        tame("icmpv6.opt.linkaddr"@),
        tame("icmpv6.opt.prefix.length"@),
        tame("icmpv6.opt.prefix.valid_lifetime"@),
        tame("icmpv6.opt.prefix.preferred_lifetime"@),
        tame("icmpv6.opt.prefix"@),
        tame("icmpv6.opt.mtu"@),
        tame("icmpv6.opt.data"@),
        tame("icmpv6.opt"@),
        tame("icmpv6.opt.type"@),
        tame("icmpv6.opt.length"@),
        tame("_ws.malformed"@),
        tame("icmpv6.data"@),
        tame("icmpv6.nd.ra.cur_hop_limit"@),
        tame("icmpv6.nd.ra.flag"@),
        tame("icmpv6.nd.ra.flag.m"@),
        tame("icmpv6.nd.ra.flag.o"@),
        tame("icmpv6.nd.ra.router_lifetime"@),
        tame("icmpv6.nd.ra.reachable_time"@),
        tame("icmpv6.nd.ra.retrans_timer"@),
        tame("icmpv6.nd.na.flag"@),
        tame("icmpv6.nd.na.flag.r"@),
        tame("icmpv6.nd.na.flag.s"@),
        tame("icmpv6.nd.na.flag.o"@),
        tame("icmpv6.nd.na.target_address"@),
        tame("icmpv6.mtu"@),
        tame("icmpv6.pointer"@),
        tame("icmpv6.reserved"@),
        tame("icmpv6.echo.identifier"@),
        tame("icmpv6.echo.sequence_number"@),
        tame("icmpv6.nd.ns.target_address"@),
        tame("icmpv6.nd.rd.target_address"@),
        tame("icmpv6.nd.rd.destination_address"@),
        tame("icmpv6"@),
        tame("icmpv6.type"@),
        tame("icmpv6.code"@),
        tame("icmpv6.checksum"@),
{
    reveal(abbrev_at);
    listed("icmpv6.opt.linkaddr"@, 162);
    reveal_strlit("icmpv6.opt.linkaddr");
    by_letters("icmpv6.opt.linkaddr"@);
    listed("icmpv6.opt.prefix.length"@, 164);
    reveal_strlit("icmpv6.opt.prefix.length");
    by_length("icmpv6.opt.prefix.length"@);
    listed("icmpv6.opt.prefix.valid_lifetime"@, 165);
    reveal_strlit("icmpv6.opt.prefix.valid_lifetime");
    by_length("icmpv6.opt.prefix.valid_lifetime"@);
    listed("icmpv6.opt.prefix.preferred_lifetime"@, 166);
    reveal_strlit("icmpv6.opt.prefix.preferred_lifetime");
    by_length("icmpv6.opt.prefix.preferred_lifetime"@);
    listed("icmpv6.opt.prefix"@, 167);
    reveal_strlit("icmpv6.opt.prefix");
    by_length("icmpv6.opt.prefix"@);
    listed("icmpv6.opt.mtu"@, 163);
    reveal_strlit("icmpv6.opt.mtu");
    by_length("icmpv6.opt.mtu"@);
    listed("icmpv6.opt.data"@, 168);
    reveal_strlit("icmpv6.opt.data");
    by_length("icmpv6.opt.data"@);
    listed("icmpv6.opt"@, 159);
    reveal_strlit("icmpv6.opt");
    by_length("icmpv6.opt"@);
    listed("icmpv6.opt.type"@, 160);
    reveal_strlit("icmpv6.opt.type");
    by_length("icmpv6.opt.type"@);
    listed("icmpv6.opt.length"@, 161);
    reveal_strlit("icmpv6.opt.length");
    by_length("icmpv6.opt.length"@);
    listed("_ws.malformed"@, 7);
    reveal_strlit("_ws.malformed");
    by_length("_ws.malformed"@);
    listed("icmpv6.data"@, 169);
    reveal_strlit("icmpv6.data");
    by_length("icmpv6.data"@);
    listed("icmpv6.nd.ra.cur_hop_limit"@, 150);
    reveal_strlit("icmpv6.nd.ra.cur_hop_limit");
    by_length("icmpv6.nd.ra.cur_hop_limit"@);
    listed("icmpv6.nd.ra.flag"@, 151);
    reveal_strlit("icmpv6.nd.ra.flag");
    by_length("icmpv6.nd.ra.flag"@);
    listed("icmpv6.nd.ra.flag.m"@, 152);
    reveal_strlit("icmpv6.nd.ra.flag.m");
    by_letters("icmpv6.nd.ra.flag.m"@);
    listed("icmpv6.nd.ra.flag.o"@, 153);
    reveal_strlit("icmpv6.nd.ra.flag.o");
    by_letters("icmpv6.nd.ra.flag.o"@);
    listed("icmpv6.nd.ra.router_lifetime"@, 154);
    reveal_strlit("icmpv6.nd.ra.router_lifetime");
    by_length("icmpv6.nd.ra.router_lifetime"@);
    listed("icmpv6.nd.ra.reachable_time"@, 155);
    reveal_strlit("icmpv6.nd.ra.reachable_time");
    by_length("icmpv6.nd.ra.reachable_time"@);
    listed("icmpv6.nd.ra.retrans_timer"@, 156);
    reveal_strlit("icmpv6.nd.ra.retrans_timer");
    by_length("icmpv6.nd.ra.retrans_timer"@);
    listed("icmpv6.nd.na.flag"@, 146);
    reveal_strlit("icmpv6.nd.na.flag");
    by_length("icmpv6.nd.na.flag"@);
    listed("icmpv6.nd.na.flag.r"@, 147);
    reveal_strlit("icmpv6.nd.na.flag.r");
    by_letters("icmpv6.nd.na.flag.r"@);
    listed("icmpv6.nd.na.flag.s"@, 148);
    reveal_strlit("icmpv6.nd.na.flag.s");
    by_letters("icmpv6.nd.na.flag.s"@);
    listed("icmpv6.nd.na.flag.o"@, 149);
    reveal_strlit("icmpv6.nd.na.flag.o");
    by_letters("icmpv6.nd.na.flag.o"@);
    listed("icmpv6.nd.na.target_address"@, 145);
    reveal_strlit("icmpv6.nd.na.target_address");
    by_length("icmpv6.nd.na.target_address"@);
    listed("icmpv6.mtu"@, 142);
    reveal_strlit("icmpv6.mtu");
    by_length("icmpv6.mtu"@);
    listed("icmpv6.pointer"@, 143);
    reveal_strlit("icmpv6.pointer");
    by_length("icmpv6.pointer"@);
    listed("icmpv6.reserved"@, 139);
    reveal_strlit("icmpv6.reserved");
    by_length("icmpv6.reserved"@);
    listed("icmpv6.echo.identifier"@, 140);
    reveal_strlit("icmpv6.echo.identifier");
    by_letters("icmpv6.echo.identifier"@);
    listed("icmpv6.echo.sequence_number"@, 141);
    reveal_strlit("icmpv6.echo.sequence_number");
    by_length("icmpv6.echo.sequence_number"@);
    listed("icmpv6.nd.ns.target_address"@, 144);
    reveal_strlit("icmpv6.nd.ns.target_address");
    by_length("icmpv6.nd.ns.target_address"@);
    listed("icmpv6.nd.rd.target_address"@, 157);
    reveal_strlit("icmpv6.nd.rd.target_address");
    by_length("icmpv6.nd.rd.target_address"@);
    listed("icmpv6.nd.rd.destination_address"@, 158);
    reveal_strlit("icmpv6.nd.rd.destination_address");
    by_length("icmpv6.nd.rd.destination_address"@);
    listed("icmpv6"@, 134);
    reveal_strlit("icmpv6");
    by_length("icmpv6"@);
    listed("icmpv6.type"@, 135);
    reveal_strlit("icmpv6.type");
    by_length("icmpv6.type"@);
    listed("icmpv6.code"@, 136);
    reveal_strlit("icmpv6.code");
    by_length("icmpv6.code"@);
    listed("icmpv6.checksum"@, 137);
    reveal_strlit("icmpv6.checksum");
    by_length("icmpv6.checksum"@);
}

pub proof fn udp_names()
    ensures
        tame("udp"@),
        tame("udp.srcport"@),
        tame("udp.dstport"@),
        tame("udp.length"@),
        tame("udp.checksum"@),
        tame("udp.stream"@),
{
    reveal(abbrev_at);
    listed("udp"@, 170);
    reveal_strlit("udp");
    by_length("udp"@);
    listed("udp.srcport"@, 171);
    reveal_strlit("udp.srcport");
    by_length("udp.srcport"@);
    listed("udp.dstport"@, 172);
    reveal_strlit("udp.dstport");
    by_length("udp.dstport"@);
    listed("udp.length"@, 175);
    reveal_strlit("udp.length");
    by_length("udp.length"@);
    listed("udp.checksum"@, 176);
    reveal_strlit("udp.checksum");
    by_length("udp.checksum"@);
    listed("udp.stream"@, 174);
    reveal_strlit("udp.stream");
    by_length("udp.stream"@);
}

pub proof fn tcp_names()
    ensures
        tame("tcp.options.mss"@),
        tame("tcp.options.wscale"@),
        tame("tcp.options.sack_perm"@),
        tame("tcp.options.sack"@),
        tame("tcp.options.timestamp"@),
        tame("tcp.options.unknown"@),
        tame("tcp.options.sack_le"@),
        tame("tcp.options.sack_re"@),
        tame("tcp.options.timestamp.tsval"@),
        tame("tcp.options.timestamp.tsecr"@),
        tame("tcp.options.mss_val"@),
        tame("tcp.options.wscale.shift"@),
        tame("tcp.options.wscale.multiplier"@),
        tame("tcp.options.data"@),
        tame("tcp.options.eol"@),
        tame("tcp.options.nop"@),
        tame("tcp.option_kind"@),
        tame("tcp.option_len"@),
        tame("_ws.malformed"@),
        tame("tcp.analysis"@),
        tame("tcp.analysis.duplicate_ack"@),
        tame("tcp.analysis.duplicate_ack_num"@),
        tame("tcp.analysis.duplicate_ack_frame"@),
        tame("tcp.analysis.zero_window"@),
        tame("tcp.analysis.window_full"@),
        tame("tcp.analysis.keep_alive"@),
        tame("tcp.analysis.ack_lost_segment"@),
        tame("tcp.analysis.bytes_in_flight"@),
        tame("tcp.payload"@),
        tame("tcp"@),
        tame("tcp.srcport"@),
        tame("tcp.dstport"@),
        tame("tcp.stream"@),
        tame("tcp.len"@),
        tame("tcp.seq"@),
        tame("tcp.ack"@),
        tame("tcp.hdr_len"@),
        tame("tcp.flags"@),
        tame("tcp.window_size_value"@),
        tame("tcp.checksum"@),
        tame("tcp.urgent_pointer"@),
        tame("tcp.options"@),
        tame("tcp.analysis.retransmission"@),
        tame("tcp.analysis.fast_retransmission"@),
        tame("tcp.analysis.spurious_retransmission"@),
        tame("tcp.analysis.out_of_order"@),
        tame("tcp.analysis.overlap"@),
        tame("tcp.analysis.lost_segment"@),
        tame("tcp.flags.res"@),
        tame("tcp.flags.ae"@),
        tame("tcp.flags.cwr"@),
        tame("tcp.flags.ece"@),
        tame("tcp.flags.urg"@),
        tame("tcp.flags.ack"@),
        tame("tcp.flags.push"@),
        tame("tcp.flags.reset"@),
        tame("tcp.flags.syn"@),
        tame("tcp.flags.fin"@),
{
    reveal(abbrev_at);
    listed("tcp.options.mss"@, 223);
    reveal_strlit("tcp.options.mss");
    by_length("tcp.options.mss"@);
    listed("tcp.options.wscale"@, 225);
    reveal_strlit("tcp.options.wscale");
    by_letters("tcp.options.wscale"@);
    listed("tcp.options.sack_perm"@, 228);
    reveal_strlit("tcp.options.sack_perm");
    by_length("tcp.options.sack_perm"@);
    listed("tcp.options.sack"@, 229);
    reveal_strlit("tcp.options.sack");
    by_letters("tcp.options.sack"@);
    listed("tcp.options.timestamp"@, 232);
    reveal_strlit("tcp.options.timestamp");
    by_length("tcp.options.timestamp"@);
    listed("tcp.options.unknown"@, 235);
    reveal_strlit("tcp.options.unknown");
    by_letters("tcp.options.unknown"@);
    listed("tcp.options.sack_le"@, 230);
    reveal_strlit("tcp.options.sack_le");
    by_letters("tcp.options.sack_le"@);
    listed("tcp.options.sack_re"@, 231);
    reveal_strlit("tcp.options.sack_re");
    by_letters("tcp.options.sack_re"@);
    listed("tcp.options.timestamp.tsval"@, 233);
    reveal_strlit("tcp.options.timestamp.tsval");
    by_length("tcp.options.timestamp.tsval"@);
    listed("tcp.options.timestamp.tsecr"@, 234);
    reveal_strlit("tcp.options.timestamp.tsecr");
    by_length("tcp.options.timestamp.tsecr"@);
    listed("tcp.options.mss_val"@, 224);
    reveal_strlit("tcp.options.mss_val");
    by_letters("tcp.options.mss_val"@);
    listed("tcp.options.wscale.shift"@, 226);
    reveal_strlit("tcp.options.wscale.shift");
    by_length("tcp.options.wscale.shift"@);
    listed("tcp.options.wscale.multiplier"@, 227);
    reveal_strlit("tcp.options.wscale.multiplier");
    by_length("tcp.options.wscale.multiplier"@);
    listed("tcp.options.data"@, 236);
    reveal_strlit("tcp.options.data");
    by_letters("tcp.options.data"@);
    listed("tcp.options.eol"@, 221);
    reveal_strlit("tcp.options.eol");
    by_length("tcp.options.eol"@);
    listed("tcp.options.nop"@, 222);
    reveal_strlit("tcp.options.nop");
    by_length("tcp.options.nop"@);
    listed("tcp.option_kind"@, 219);
    reveal_strlit("tcp.option_kind");
    by_length("tcp.option_kind"@);
    listed("tcp.option_len"@, 220);
    reveal_strlit("tcp.option_len");
    by_length("tcp.option_len"@);
    listed("_ws.malformed"@, 7);
    reveal_strlit("_ws.malformed");
    by_length("_ws.malformed"@);
    listed("tcp.analysis"@, 184);
    reveal_strlit("tcp.analysis");
    by_length("tcp.analysis"@);
    listed("tcp.analysis.duplicate_ack"@, 191);
    reveal_strlit("tcp.analysis.duplicate_ack");
    by_length("tcp.analysis.duplicate_ack"@);
    listed("tcp.analysis.duplicate_ack_num"@, 192);
    reveal_strlit("tcp.analysis.duplicate_ack_num");
    by_length("tcp.analysis.duplicate_ack_num"@);
    listed("tcp.analysis.duplicate_ack_frame"@, 193);
    reveal_strlit("tcp.analysis.duplicate_ack_frame");
    by_length("tcp.analysis.duplicate_ack_frame"@);
    listed("tcp.analysis.zero_window"@, 194);
    reveal_strlit("tcp.analysis.zero_window");
    by_length("tcp.analysis.zero_window"@);
    listed("tcp.analysis.window_full"@, 195);
    reveal_strlit("tcp.analysis.window_full");
    by_length("tcp.analysis.window_full"@);
    listed("tcp.analysis.keep_alive"@, 196);
    reveal_strlit("tcp.analysis.keep_alive");
    by_length("tcp.analysis.keep_alive"@);
    listed("tcp.analysis.ack_lost_segment"@, 197);
    reveal_strlit("tcp.analysis.ack_lost_segment");
    by_length("tcp.analysis.ack_lost_segment"@);
    listed("tcp.analysis.bytes_in_flight"@, 198);
    reveal_strlit("tcp.analysis.bytes_in_flight");
    by_length("tcp.analysis.bytes_in_flight"@);
    listed("tcp.payload"@, 237);
    reveal_strlit("tcp.payload");
    by_length("tcp.payload"@);
    listed("tcp"@, 179);
    reveal_strlit("tcp");
    by_length("tcp"@);
    listed("tcp.srcport"@, 180);
    reveal_strlit("tcp.srcport");
    by_length("tcp.srcport"@);
    listed("tcp.dstport"@, 181);
    reveal_strlit("tcp.dstport");
    by_length("tcp.dstport"@);
    listed("tcp.stream"@, 183);
    reveal_strlit("tcp.stream");
    by_length("tcp.stream"@);
    listed("tcp.len"@, 199);
    reveal_strlit("tcp.len");
    by_length("tcp.len"@);
    listed("tcp.seq"@, 200);
    reveal_strlit("tcp.seq");
    by_length("tcp.seq"@);
    listed("tcp.ack"@, 201);
    reveal_strlit("tcp.ack");
    by_length("tcp.ack"@);
    listed("tcp.hdr_len"@, 202);
    reveal_strlit("tcp.hdr_len");
    by_length("tcp.hdr_len"@);
    listed("tcp.flags"@, 203);
    reveal_strlit("tcp.flags");
    by_length("tcp.flags"@);
    listed("tcp.window_size_value"@, 214);
    reveal_strlit("tcp.window_size_value");
    by_length("tcp.window_size_value"@);
    listed("tcp.checksum"@, 215);
    reveal_strlit("tcp.checksum");
    by_length("tcp.checksum"@);
    listed("tcp.urgent_pointer"@, 217);
    reveal_strlit("tcp.urgent_pointer");
    by_letters("tcp.urgent_pointer"@);
    listed("tcp.options"@, 218);
    reveal_strlit("tcp.options");
    by_length("tcp.options"@);
    listed("tcp.analysis.retransmission"@, 185);
    reveal_strlit("tcp.analysis.retransmission");
    by_length("tcp.analysis.retransmission"@);
    listed("tcp.analysis.fast_retransmission"@, 186);
    reveal_strlit("tcp.analysis.fast_retransmission");
    by_length("tcp.analysis.fast_retransmission"@);
    listed("tcp.analysis.spurious_retransmission"@, 187);
    reveal_strlit("tcp.analysis.spurious_retransmission");
    by_length("tcp.analysis.spurious_retransmission"@);
    listed("tcp.analysis.out_of_order"@, 188);
    reveal_strlit("tcp.analysis.out_of_order");
    by_length("tcp.analysis.out_of_order"@);
    listed("tcp.analysis.overlap"@, 189);
    reveal_strlit("tcp.analysis.overlap");
    by_letters("tcp.analysis.overlap"@);
    listed("tcp.analysis.lost_segment"@, 190);
    reveal_strlit("tcp.analysis.lost_segment");
    by_length("tcp.analysis.lost_segment"@);
    listed("tcp.flags.res"@, 204);
    reveal_strlit("tcp.flags.res");
    by_length("tcp.flags.res"@);
    listed("tcp.flags.ae"@, 205);
    reveal_strlit("tcp.flags.ae");
    by_length("tcp.flags.ae"@);
    listed("tcp.flags.cwr"@, 206);
    reveal_strlit("tcp.flags.cwr");
    by_length("tcp.flags.cwr"@);
    listed("tcp.flags.ece"@, 207);
    reveal_strlit("tcp.flags.ece");
    by_length("tcp.flags.ece"@);
    listed("tcp.flags.urg"@, 208);
    reveal_strlit("tcp.flags.urg");
    by_length("tcp.flags.urg"@);
    listed("tcp.flags.ack"@, 209);
    reveal_strlit("tcp.flags.ack");
    by_length("tcp.flags.ack"@);
    listed("tcp.flags.push"@, 210);
    reveal_strlit("tcp.flags.push");
    by_length("tcp.flags.push"@);
    listed("tcp.flags.reset"@, 211);
    reveal_strlit("tcp.flags.reset");
    by_length("tcp.flags.reset"@);
    listed("tcp.flags.syn"@, 212);
    reveal_strlit("tcp.flags.syn");
    by_length("tcp.flags.syn"@);
    listed("tcp.flags.fin"@, 213);
    reveal_strlit("tcp.flags.fin");
    by_length("tcp.flags.fin"@);
}

pub proof fn dns_names()
    ensures
        tame("dns.qry"@),
        tame("dns.qry.name"@),
        tame("dns.qry.type"@),
        tame("dns.qry.class"@),
        tame("dns.txt"@),
        tame("dns.soa.mname"@),
        tame("dns.soa.rname"@),
        tame("dns.soa.serial_number"@),
        tame("dns.soa.refresh_interval"@),
        tame("dns.soa.retry_interval"@),
        tame("dns.soa.expire_limit"@),
        tame("dns.soa.minimum_ttl"@),
        tame("dns.ns"@),
        tame("dns.cname"@),
        tame("dns.ptr.domain_name"@),
        tame("dns.a"@),
        tame("dns.aaaa"@),
        tame("dns.mx.preference"@),
        tame("dns.mx.mail_exchange"@),
        tame("dns.srv.priority"@),
        tame("dns.srv.weight"@),
        tame("dns.srv.port"@),
        tame("dns.srv.target"@),
        tame("dns.resp.data"@),
        tame("dns.resp"@),
        tame("dns.resp.name"@),
        tame("dns.resp.type"@),
        tame("dns.resp.class"@),
        tame("dns.resp.ttl"@),
        tame("dns.resp.len"@),
        tame("_ws.malformed"@),
        tame("dns"@),
        tame("dns.id"@),
        tame("dns.flags"@),
        tame("dns.flags.response"@),
        tame("dns.flags.opcode"@),
        tame("dns.flags.authoritative"@),
        tame("dns.flags.truncated"@),
        tame("dns.flags.recdesired"@),
        tame("dns.flags.recavail"@),
        tame("dns.flags.z"@),
        tame("dns.flags.authenticated"@),
        tame("dns.flags.checkdisable"@),
        tame("dns.flags.rcode"@),
        tame("dns.count.queries"@),
        tame("dns.count.answers"@),
        tame("dns.count.auth_rr"@),
        tame("dns.count.add_rr"@),
        tame("dns.queries"@),
        tame("dns.answers"@),
        tame("dns.authority"@),
        tame("dns.additional"@),
{
    reveal(abbrev_at);
    listed("dns.qry"@, 259);
    reveal_strlit("dns.qry");
    by_length("dns.qry"@);
    listed("dns.qry.name"@, 260);
    reveal_strlit("dns.qry.name");
    by_length("dns.qry.name"@);
    listed("dns.qry.type"@, 261);
    reveal_strlit("dns.qry.type");
    by_length("dns.qry.type"@);
    listed("dns.qry.class"@, 262);
    reveal_strlit("dns.qry.class");
    by_length("dns.qry.class"@);
    listed("dns.txt"@, 276);
    reveal_strlit("dns.txt");
    by_length("dns.txt"@);
    listed("dns.soa.mname"@, 277);
    reveal_strlit("dns.soa.mname");
    by_length("dns.soa.mname"@);
    listed("dns.soa.rname"@, 278);
    reveal_strlit("dns.soa.rname");
    by_length("dns.soa.rname"@);
    listed("dns.soa.serial_number"@, 279);
    reveal_strlit("dns.soa.serial_number");
    by_length("dns.soa.serial_number"@);
    listed("dns.soa.refresh_interval"@, 280);
    reveal_strlit("dns.soa.refresh_interval");
    by_length("dns.soa.refresh_interval"@);
    listed("dns.soa.retry_interval"@, 281);
    reveal_strlit("dns.soa.retry_interval");
    by_letters("dns.soa.retry_interval"@);
    listed("dns.soa.expire_limit"@, 282);
    reveal_strlit("dns.soa.expire_limit");
    by_letters("dns.soa.expire_limit"@);
    listed("dns.soa.minimum_ttl"@, 283);
    reveal_strlit("dns.soa.minimum_ttl");
    by_letters("dns.soa.minimum_ttl"@);
    listed("dns.ns"@, 272);
    reveal_strlit("dns.ns");
    by_length("dns.ns"@);
    listed("dns.cname"@, 271);
    reveal_strlit("dns.cname");
    by_length("dns.cname"@);
    listed("dns.ptr.domain_name"@, 273);
    reveal_strlit("dns.ptr.domain_name");
    by_letters("dns.ptr.domain_name"@);
    listed("dns.a"@, 269);
    reveal_strlit("dns.a");
    by_length("dns.a"@);
    listed("dns.aaaa"@, 270);
    reveal_strlit("dns.aaaa");
    by_length("dns.aaaa"@);
    listed("dns.mx.preference"@, 274);
    reveal_strlit("dns.mx.preference");
    by_length("dns.mx.preference"@);
    listed("dns.mx.mail_exchange"@, 275);
    reveal_strlit("dns.mx.mail_exchange");
    by_letters("dns.mx.mail_exchange"@);
    listed("dns.srv.priority"@, 284);
    reveal_strlit("dns.srv.priority");
    by_letters("dns.srv.priority"@);
    listed("dns.srv.weight"@, 285);
    reveal_strlit("dns.srv.weight");
    by_length("dns.srv.weight"@);
    listed("dns.srv.port"@, 286);
    reveal_strlit("dns.srv.port");
    by_length("dns.srv.port"@);
    listed("dns.srv.target"@, 287);
    reveal_strlit("dns.srv.target");
    by_length("dns.srv.target"@);
    listed("dns.resp.data"@, 288);
    reveal_strlit("dns.resp.data");
    by_length("dns.resp.data"@);
    listed("dns.resp"@, 263);
    reveal_strlit("dns.resp");
    by_length("dns.resp"@);
    listed("dns.resp.name"@, 264);
    reveal_strlit("dns.resp.name");
    by_length("dns.resp.name"@);
    listed("dns.resp.type"@, 265);
    reveal_strlit("dns.resp.type");
    by_length("dns.resp.type"@);
    listed("dns.resp.class"@, 266);
    reveal_strlit("dns.resp.class");
    by_length("dns.resp.class"@);
    listed("dns.resp.ttl"@, 267);
    reveal_strlit("dns.resp.ttl");
    by_length("dns.resp.ttl"@);
    listed("dns.resp.len"@, 268);
    reveal_strlit("dns.resp.len");
    by_length("dns.resp.len"@);
    listed("_ws.malformed"@, 7);
    reveal_strlit("_ws.malformed");
    by_length("_ws.malformed"@);
    listed("dns"@, 238);
    reveal_strlit("dns");
    by_length("dns"@);
    listed("dns.id"@, 239);
    reveal_strlit("dns.id");
    by_length("dns.id"@);
    listed("dns.flags"@, 240);
    reveal_strlit("dns.flags");
    by_length("dns.flags"@);
    listed("dns.flags.response"@, 241);
    reveal_strlit("dns.flags.response");
    by_letters("dns.flags.response"@);
    listed("dns.flags.opcode"@, 242);
    reveal_strlit("dns.flags.opcode");
    by_letters("dns.flags.opcode"@);
    listed("dns.flags.authoritative"@, 243);
    reveal_strlit("dns.flags.authoritative");
    by_length("dns.flags.authoritative"@);
    listed("dns.flags.truncated"@, 244);
    reveal_strlit("dns.flags.truncated");
    by_letters("dns.flags.truncated"@);
    listed("dns.flags.recdesired"@, 245);
    reveal_strlit("dns.flags.recdesired");
    by_letters("dns.flags.recdesired"@);
    listed("dns.flags.recavail"@, 246);
    reveal_strlit("dns.flags.recavail");
    by_letters("dns.flags.recavail"@);
    listed("dns.flags.z"@, 247);
    reveal_strlit("dns.flags.z");
    by_length("dns.flags.z"@);
    listed("dns.flags.authenticated"@, 248);
    reveal_strlit("dns.flags.authenticated");
    by_length("dns.flags.authenticated"@);
    listed("dns.flags.checkdisable"@, 249);
    reveal_strlit("dns.flags.checkdisable");
    by_letters("dns.flags.checkdisable"@);
    listed("dns.flags.rcode"@, 250);
    reveal_strlit("dns.flags.rcode");
    by_length("dns.flags.rcode"@);
    listed("dns.count.queries"@, 251);
    reveal_strlit("dns.count.queries");
    by_length("dns.count.queries"@);
    listed("dns.count.answers"@, 252);
    reveal_strlit("dns.count.answers");
    by_length("dns.count.answers"@);
    listed("dns.count.auth_rr"@, 253);
    reveal_strlit("dns.count.auth_rr");
    by_length("dns.count.auth_rr"@);
    listed("dns.count.add_rr"@, 254);
    reveal_strlit("dns.count.add_rr");
    by_letters("dns.count.add_rr"@);
    listed("dns.queries"@, 255);
    reveal_strlit("dns.queries");
    by_length("dns.queries"@);
    listed("dns.answers"@, 256);
    reveal_strlit("dns.answers");
    by_length("dns.answers"@);
    listed("dns.authority"@, 257);
    reveal_strlit("dns.authority");
    by_length("dns.authority"@);
    listed("dns.additional"@, 258);
    reveal_strlit("dns.additional");
    by_length("dns.additional"@);
}

pub proof fn dhcp_names()
    ensures
        tame("dhcp.option.request_list_item"@),
        tame("dhcp.option.subnet_mask"@),
        tame("dhcp.option.router"@),
        tame("dhcp.option.domain_name_server"@),
        tame("dhcp.option.broadcast_address"@),
        tame("dhcp.option.ntp_server"@),
        tame("dhcp.option.requested_ip_address"@),
        tame("dhcp.option.dhcp_server_id"@),
        tame("dhcp.option.ip_address_lease_time"@),
        tame("dhcp.option.renewal_time_value"@),
        tame("dhcp.option.rebinding_time_value"@),
        tame("dhcp.option.hostname"@),
        tame("dhcp.option.domain_name"@),
        tame("dhcp.option.vendor_class_id"@),
        tame("dhcp.option.dhcp"@),
        tame("dhcp.option.dhcp_max_message_size"@),
        tame("dhcp.option.client_id"@),
        tame("dhcp.option.value"@),
        tame("dhcp.option"@),
        tame("dhcp.option.type"@),
        tame("dhcp.option.end"@),
        tame("dhcp.option.length"@),
        tame("dhcp.option.padding"@),
        tame("_ws.malformed"@),
        tame("dhcp"@),
        tame("dhcp.type"@),
        tame("dhcp.hw.type"@),
        tame("dhcp.hw.len"@),
        tame("dhcp.hops"@),
        tame("dhcp.id"@),
        tame("dhcp.secs"@),
        tame("dhcp.flags"@),
        tame("dhcp.flags.bc"@),
        tame("dhcp.ip.client"@),
        tame("dhcp.ip.your"@),
        tame("dhcp.ip.server"@),
        tame("dhcp.ip.relay"@),
        tame("dhcp.hw.mac_addr"@),
        tame("dhcp.hw.addr_padding"@),
        tame("dhcp.server"@),
        tame("dhcp.file"@),
        tame("dhcp.cookie"@),
{
    reveal(abbrev_at);
    listed("dhcp.option.request_list_item"@, 327);
    reveal_strlit("dhcp.option.request_list_item");
    by_length("dhcp.option.request_list_item"@);
    listed("dhcp.option.subnet_mask"@, 312);
    reveal_strlit("dhcp.option.subnet_mask");
    by_length("dhcp.option.subnet_mask"@);
    listed("dhcp.option.router"@, 313);
    reveal_strlit("dhcp.option.router");
    by_letters("dhcp.option.router"@);
    listed("dhcp.option.domain_name_server"@, 314);
    reveal_strlit("dhcp.option.domain_name_server");
    by_length("dhcp.option.domain_name_server"@);
    listed("dhcp.option.broadcast_address"@, 315);
    reveal_strlit("dhcp.option.broadcast_address");
    by_length("dhcp.option.broadcast_address"@);
    listed("dhcp.option.ntp_server"@, 316);
    reveal_strlit("dhcp.option.ntp_server");
    by_letters("dhcp.option.ntp_server"@);
    listed("dhcp.option.requested_ip_address"@, 317);
    reveal_strlit("dhcp.option.requested_ip_address");
    by_length("dhcp.option.requested_ip_address"@);
    listed("dhcp.option.dhcp_server_id"@, 321);
    reveal_strlit("dhcp.option.dhcp_server_id");
    by_length("dhcp.option.dhcp_server_id"@);
    listed("dhcp.option.ip_address_lease_time"@, 318);
    reveal_strlit("dhcp.option.ip_address_lease_time");
    by_length("dhcp.option.ip_address_lease_time"@);
    listed("dhcp.option.renewal_time_value"@, 319);
    reveal_strlit("dhcp.option.renewal_time_value");
    by_length("dhcp.option.renewal_time_value"@);
    listed("dhcp.option.rebinding_time_value"@, 320);
    reveal_strlit("dhcp.option.rebinding_time_value");
    by_length("dhcp.option.rebinding_time_value"@);
    listed("dhcp.option.hostname"@, 323);
    reveal_strlit("dhcp.option.hostname");
    by_letters("dhcp.option.hostname"@);
    listed("dhcp.option.domain_name"@, 324);
    reveal_strlit("dhcp.option.domain_name");
    by_length("dhcp.option.domain_name"@);
    listed("dhcp.option.vendor_class_id"@, 325);
    reveal_strlit("dhcp.option.vendor_class_id");
    by_length("dhcp.option.vendor_class_id"@);
    listed("dhcp.option.dhcp"@, 311);
    reveal_strlit("dhcp.option.dhcp");
    by_letters("dhcp.option.dhcp"@);
    listed("dhcp.option.dhcp_max_message_size"@, 322);
    reveal_strlit("dhcp.option.dhcp_max_message_size");
    by_length("dhcp.option.dhcp_max_message_size"@);
    listed("dhcp.option.client_id"@, 326);
    reveal_strlit("dhcp.option.client_id");
    by_length("dhcp.option.client_id"@);
    listed("dhcp.option.value"@, 310);
    reveal_strlit("dhcp.option.value");
    by_length("dhcp.option.value"@);
    listed("dhcp.option"@, 307);
    reveal_strlit("dhcp.option");
    by_length("dhcp.option"@);
    listed("dhcp.option.type"@, 308);
    reveal_strlit("dhcp.option.type");
    by_letters("dhcp.option.type"@);
    listed("dhcp.option.end"@, 328);
    reveal_strlit("dhcp.option.end");
    by_length("dhcp.option.end"@);
    listed("dhcp.option.length"@, 309);
    reveal_strlit("dhcp.option.length");
    by_letters("dhcp.option.length"@);
    listed("dhcp.option.padding"@, 329);
    reveal_strlit("dhcp.option.padding");
    by_letters("dhcp.option.padding"@);
    listed("_ws.malformed"@, 7);
    reveal_strlit("_ws.malformed");
    by_length("_ws.malformed"@);
    listed("dhcp"@, 289);
    reveal_strlit("dhcp");
    by_length("dhcp"@);
    listed("dhcp.type"@, 290);
    reveal_strlit("dhcp.type");
    by_length("dhcp.type"@);
    listed("dhcp.hw.type"@, 291);
    reveal_strlit("dhcp.hw.type");
    by_length("dhcp.hw.type"@);
    listed("dhcp.hw.len"@, 292);
    reveal_strlit("dhcp.hw.len");
    by_length("dhcp.hw.len"@);
    listed("dhcp.hops"@, 293);
    reveal_strlit("dhcp.hops");
    by_length("dhcp.hops"@);
    listed("dhcp.id"@, 294);
    reveal_strlit("dhcp.id");
    by_length("dhcp.id"@);
    listed("dhcp.secs"@, 295);
    reveal_strlit("dhcp.secs");
    by_length("dhcp.secs"@);
    listed("dhcp.flags"@, 296);
    reveal_strlit("dhcp.flags");
    by_length("dhcp.flags"@);
    listed("dhcp.flags.bc"@, 297);
    reveal_strlit("dhcp.flags.bc");
    by_length("dhcp.flags.bc"@);
    listed("dhcp.ip.client"@, 298);
    reveal_strlit("dhcp.ip.client");
    by_length("dhcp.ip.client"@);
    listed("dhcp.ip.your"@, 299);
    reveal_strlit("dhcp.ip.your");
    by_length("dhcp.ip.your"@);
    listed("dhcp.ip.server"@, 300);
    reveal_strlit("dhcp.ip.server");
    by_length("dhcp.ip.server"@);
    listed("dhcp.ip.relay"@, 301);
    reveal_strlit("dhcp.ip.relay");
    by_length("dhcp.ip.relay"@);
    listed("dhcp.hw.mac_addr"@, 302);
    reveal_strlit("dhcp.hw.mac_addr");
    by_letters("dhcp.hw.mac_addr"@);
    listed("dhcp.hw.addr_padding"@, 303);
    reveal_strlit("dhcp.hw.addr_padding");
    by_letters("dhcp.hw.addr_padding"@);
    listed("dhcp.server"@, 304);
    reveal_strlit("dhcp.server");
    by_length("dhcp.server"@);
    listed("dhcp.file"@, 305);
    reveal_strlit("dhcp.file");
    by_length("dhcp.file"@);
    listed("dhcp.cookie"@, 306);
    reveal_strlit("dhcp.cookie");
    by_length("dhcp.cookie"@);
}

pub proof fn http_names()
    ensures
        tame("http.content_length"@),
        tame("http.transfer_encoding"@),
        tame("http.response"@),
        tame("http.response.version"@),
        tame("http.response.code"@),
        tame("http.response.phrase"@),
        tame("http.request"@),
        tame("http.request.method"@),
        tame("http.request.uri"@),
        tame("http.request.version"@),
        tame("http"@),
        tame("http.file_data"@),
        tame("http.response.line"@),
        tame("http.request.line"@),
        tame("http.segment"@),
        tame("http.segment.len"@),
        tame("http.host"@),
        tame("http.user_agent"@),
        tame("http.content_type"@),
        tame("http.server"@),
        tame("http.connection"@),
{
    reveal(abbrev_at);
    listed("http.content_length"@, 344);
    reveal_strlit("http.content_length");
    by_letters("http.content_length"@);
    listed("http.transfer_encoding"@, 348);
    reveal_strlit("http.transfer_encoding");
    by_letters("http.transfer_encoding"@);
    listed("http.response"@, 336);
    reveal_strlit("http.response");
    by_length("http.response"@);
    listed("http.response.version"@, 337);
    reveal_strlit("http.response.version");
    by_length("http.response.version"@);
    listed("http.response.code"@, 338);
    reveal_strlit("http.response.code");
    by_letters("http.response.code"@);
    listed("http.response.phrase"@, 339);
    reveal_strlit("http.response.phrase");
    by_letters("http.response.phrase"@);
    listed("http.request"@, 331);
    reveal_strlit("http.request");
    by_length("http.request"@);
    listed("http.request.method"@, 332);
    reveal_strlit("http.request.method");
    by_letters("http.request.method"@);
    listed("http.request.uri"@, 333);
    reveal_strlit("http.request.uri");
    by_letters("http.request.uri"@);
    listed("http.request.version"@, 334);
    reveal_strlit("http.request.version");
    by_letters("http.request.version"@);
    listed("http"@, 330);
    reveal_strlit("http");
    by_length("http"@);
    listed("http.file_data"@, 347);
    reveal_strlit("http.file_data");
    by_length("http.file_data"@);
    listed("http.response.line"@, 340);
    reveal_strlit("http.response.line");
    by_letters("http.response.line"@);
    listed("http.request.line"@, 335);
    reveal_strlit("http.request.line");
    by_length("http.request.line"@);
    listed("http.segment"@, 349);
    reveal_strlit("http.segment");
    by_length("http.segment"@);
    listed("http.segment.len"@, 350);
    reveal_strlit("http.segment.len");
    by_letters("http.segment.len"@);
    listed("http.host"@, 341);
    reveal_strlit("http.host");
    by_length("http.host"@);
    listed("http.user_agent"@, 342);
    reveal_strlit("http.user_agent");
    by_length("http.user_agent"@);
    listed("http.content_type"@, 343);
    reveal_strlit("http.content_type");
    by_length("http.content_type"@);
    listed("http.server"@, 345);
    reveal_strlit("http.server");
    by_length("http.server"@);
    listed("http.connection"@, 346);
    reveal_strlit("http.connection");
    by_length("http.connection"@);
}

pub proof fn tls_names()
    ensures
        tame("tls.handshake.extensions_server_name_type"@),
        tame("tls.handshake.extensions_server_name_len"@),
        tame("tls.handshake.extensions_server_name"@),
        tame("tls.handshake.extensions_server_name_list_len"@),
        tame("tls.handshake.extensions_alpn_str_len"@),
        tame("tls.handshake.extensions_alpn_str"@),
        tame("tls.handshake.extensions_alpn_len"@),
        tame("tls.handshake.extensions.supported_version"@),
        tame("tls.handshake.extensions.supported_versions_len"@),
        tame("tls.handshake.extension.data"@),
        tame("tls.handshake.extension"@),
        tame("tls.handshake.extension.type"@),
        tame("tls.handshake.extension.len"@),
        tame("_ws.malformed"@),
        tame("tls.handshake.extensions_length"@),
        tame("tls.handshake.ciphersuite"@),
        tame("tls.handshake.comp_method"@),
        tame("tls.handshake.version"@),
        tame("tls.handshake.random"@),
        tame("tls.handshake.session_id_length"@),
        tame("tls.handshake.session_id"@),
        tame("tls.handshake.cipher_suites_length"@),
        tame("tls.handshake.ciphersuites"@),
        tame("tls.handshake.comp_methods_length"@),
        tame("tls.handshake.comp_methods"@),
        tame("tls.handshake.certificate_length"@),
        tame("tls.handshake.certificate"@),
        tame("tls.handshake.certificates_length"@),
        tame("tls.handshake.encrypted"@),
        tame("tls.handshake"@),
        tame("tls.handshake.type"@),
        tame("tls.handshake.length"@),
        tame("tls.change_cipher_spec"@),
        tame("tls.app_data"@),
        tame("tls.alert_message"@),
        tame("tls.alert_message.level"@),
        tame("tls.alert_message.desc"@),
        tame("tls.record"@),
        tame("tls.record.content_type"@),
        tame("tls.record.version"@),
        tame("tls.record.length"@),
        tame("tls.continuation_data"@),
        tame("tls"@),
        tame("tls.segment"@),
        tame("tls.segment.len"@),
{
    reveal(abbrev_at);
    listed("tls.handshake.extensions_server_name_type"@, 380);
    reveal_strlit("tls.handshake.extensions_server_name_type");
    by_length("tls.handshake.extensions_server_name_type"@);
    listed("tls.handshake.extensions_server_name_len"@, 381);
    reveal_strlit("tls.handshake.extensions_server_name_len");
    by_length("tls.handshake.extensions_server_name_len"@);
    listed("tls.handshake.extensions_server_name"@, 382);
    reveal_strlit("tls.handshake.extensions_server_name");
    by_length("tls.handshake.extensions_server_name"@);
    listed("tls.handshake.extensions_server_name_list_len"@, 379);
    reveal_strlit("tls.handshake.extensions_server_name_list_len");
    by_length("tls.handshake.extensions_server_name_list_len"@);
    listed("tls.handshake.extensions_alpn_str_len"@, 386);
    reveal_strlit("tls.handshake.extensions_alpn_str_len");
    by_length("tls.handshake.extensions_alpn_str_len"@);
    listed("tls.handshake.extensions_alpn_str"@, 387);
    reveal_strlit("tls.handshake.extensions_alpn_str");
    by_length("tls.handshake.extensions_alpn_str"@);
    listed("tls.handshake.extensions_alpn_len"@, 385);
    reveal_strlit("tls.handshake.extensions_alpn_len");
    by_length("tls.handshake.extensions_alpn_len"@);
    listed("tls.handshake.extensions.supported_version"@, 384);
    reveal_strlit("tls.handshake.extensions.supported_version");
    by_length("tls.handshake.extensions.supported_version"@);
    listed("tls.handshake.extensions.supported_versions_len"@, 383);
    reveal_strlit("tls.handshake.extensions.supported_versions_len");
    by_length("tls.handshake.extensions.supported_versions_len"@);
    listed("tls.handshake.extension.data"@, 378);
    reveal_strlit("tls.handshake.extension.data");
    by_length("tls.handshake.extension.data"@);
    listed("tls.handshake.extension"@, 375);
    reveal_strlit("tls.handshake.extension");
    by_length("tls.handshake.extension"@);
    listed("tls.handshake.extension.type"@, 376);
    reveal_strlit("tls.handshake.extension.type");
    by_length("tls.handshake.extension.type"@);
    listed("tls.handshake.extension.len"@, 377);
    reveal_strlit("tls.handshake.extension.len");
    by_length("tls.handshake.extension.len"@);
    listed("_ws.malformed"@, 7);
    reveal_strlit("_ws.malformed");
    by_length("_ws.malformed"@);
    listed("tls.handshake.extensions_length"@, 374);
    reveal_strlit("tls.handshake.extensions_length");
    by_length("tls.handshake.extensions_length"@);
    listed("tls.handshake.ciphersuite"@, 370);
    reveal_strlit("tls.handshake.ciphersuite");
    by_length("tls.handshake.ciphersuite"@);
    listed("tls.handshake.comp_method"@, 373);
    reveal_strlit("tls.handshake.comp_method");
    by_length("tls.handshake.comp_method"@);
    listed("tls.handshake.version"@, 364);
    reveal_strlit("tls.handshake.version");
    by_length("tls.handshake.version"@);
    listed("tls.handshake.random"@, 365);
    reveal_strlit("tls.handshake.random");
    by_letters("tls.handshake.random"@);
    listed("tls.handshake.session_id_length"@, 366);
    reveal_strlit("tls.handshake.session_id_length");
    by_length("tls.handshake.session_id_length"@);
    listed("tls.handshake.session_id"@, 367);
    reveal_strlit("tls.handshake.session_id");
    by_length("tls.handshake.session_id"@);
    listed("tls.handshake.cipher_suites_length"@, 368);
    reveal_strlit("tls.handshake.cipher_suites_length");
    by_length("tls.handshake.cipher_suites_length"@);
    listed("tls.handshake.ciphersuites"@, 369);
    reveal_strlit("tls.handshake.ciphersuites");
    by_length("tls.handshake.ciphersuites"@);
    listed("tls.handshake.comp_methods_length"@, 371);
    reveal_strlit("tls.handshake.comp_methods_length");
    by_length("tls.handshake.comp_methods_length"@);
    listed("tls.handshake.comp_methods"@, 372);
    reveal_strlit("tls.handshake.comp_methods");
    by_length("tls.handshake.comp_methods"@);
    listed("tls.handshake.certificate_length"@, 389);
    reveal_strlit("tls.handshake.certificate_length");
    by_length("tls.handshake.certificate_length"@);
    listed("tls.handshake.certificate"@, 390);
    reveal_strlit("tls.handshake.certificate");
    by_length("tls.handshake.certificate"@);
    listed("tls.handshake.certificates_length"@, 388);
    reveal_strlit("tls.handshake.certificates_length");
    by_length("tls.handshake.certificates_length"@);
    listed("tls.handshake.encrypted"@, 392);
    reveal_strlit("tls.handshake.encrypted");
    by_length("tls.handshake.encrypted"@);
    listed("tls.handshake"@, 361);
    reveal_strlit("tls.handshake");
    by_length("tls.handshake"@);
    listed("tls.handshake.type"@, 362);
    reveal_strlit("tls.handshake.type");
    by_letters("tls.handshake.type"@);
    listed("tls.handshake.length"@, 363);
    reveal_strlit("tls.handshake.length");
    by_letters("tls.handshake.length"@);
    listed("tls.change_cipher_spec"@, 357);
    reveal_strlit("tls.change_cipher_spec");
    by_letters("tls.change_cipher_spec"@);
    listed("tls.app_data"@, 391);
    reveal_strlit("tls.app_data");
    by_length("tls.app_data"@);
    listed("tls.alert_message"@, 358);
    reveal_strlit("tls.alert_message");
    by_length("tls.alert_message"@);
    listed("tls.alert_message.level"@, 359);
    reveal_strlit("tls.alert_message.level");
    by_length("tls.alert_message.level"@);
    listed("tls.alert_message.desc"@, 360);
    reveal_strlit("tls.alert_message.desc");
    by_letters("tls.alert_message.desc"@);
    listed("tls.record"@, 352);
    reveal_strlit("tls.record");
    by_length("tls.record"@);
    listed("tls.record.content_type"@, 353);
    reveal_strlit("tls.record.content_type");
    by_length("tls.record.content_type"@);
    listed("tls.record.version"@, 354);
    reveal_strlit("tls.record.version");
    by_letters("tls.record.version"@);
    listed("tls.record.length"@, 355);
    reveal_strlit("tls.record.length");
    by_length("tls.record.length"@);
    listed("tls.continuation_data"@, 393);
    reveal_strlit("tls.continuation_data");
    by_length("tls.continuation_data"@);
    listed("tls"@, 351);
    reveal_strlit("tls");
    by_length("tls"@);
    listed("tls.segment"@, 394);
    reveal_strlit("tls.segment");
    by_length("tls.segment"@);
    listed("tls.segment.len"@, 395);
    reveal_strlit("tls.segment.len");
    by_length("tls.segment.len"@);
}

pub proof fn frame_names()
    ensures
        tame("frame"@),
        tame("frame.number"@),
        tame("frame.time_epoch"@),
        tame("frame.len"@),
        tame("frame.cap_len"@),
        tame("frame.encap_type"@),
        tame("frame.protocols"@),
        tame("_ws.malformed"@),
        tame("eth.padding"@),
        tame("eth.trailer"@),
        tame("data.data"@),
        tame("_ws.expert"@),
        tame("_ws.expert.severity"@),
        tame("_ws.expert.group"@),
{
    reveal(abbrev_at);
    listed("frame"@, 0);
    reveal_strlit("frame");
    by_length("frame"@);
    listed("frame.number"@, 1);
    reveal_strlit("frame.number");
    by_length("frame.number"@);
    listed("frame.time_epoch"@, 2);
    reveal_strlit("frame.time_epoch");
    by_letters("frame.time_epoch"@);
    listed("frame.len"@, 3);
    reveal_strlit("frame.len");
    by_length("frame.len"@);
    listed("frame.cap_len"@, 4);
    reveal_strlit("frame.cap_len");
    by_length("frame.cap_len"@);
    listed("frame.encap_type"@, 5);
    reveal_strlit("frame.encap_type");
    by_letters("frame.encap_type"@);
    listed("frame.protocols"@, 6);
    reveal_strlit("frame.protocols");
    by_length("frame.protocols"@);
    listed("_ws.malformed"@, 7);
    reveal_strlit("_ws.malformed");
    by_length("_ws.malformed"@);
    listed("eth.padding"@, 23);
    reveal_strlit("eth.padding");
    by_length("eth.padding"@);
    listed("eth.trailer"@, 24);
    reveal_strlit("eth.trailer");
    by_length("eth.trailer"@);
    listed("data.data"@, 13);
    reveal_strlit("data.data");
    by_length("data.data"@);
    listed("_ws.expert"@, 8);
    reveal_strlit("_ws.expert");
    by_length("_ws.expert"@);
    listed("_ws.expert.severity"@, 9);
    reveal_strlit("_ws.expert.severity");
    by_letters("_ws.expert.severity"@);
    listed("_ws.expert.group"@, 10);
    reveal_strlit("_ws.expert.group");
    by_letters("_ws.expert.group"@);
}

/// The fields that say something about a checksum are registered too.
pub proof fn verdict_names()
    ensures
        known("_ws.checksum.bad"@),
        known("ip.checksum.status"@),
        known("icmp.checksum.status"@),
        known("icmpv6.checksum.status"@),
        known("tcp.checksum.status"@),
        known("udp.checksum.status"@),
{
    reveal(abbrev_at);
    listed("_ws.checksum.bad"@, 11);
    listed("ip.checksum.status"@, 69);
    listed("icmp.checksum.status"@, 126);
    listed("icmpv6.checksum.status"@, 138);
    listed("tcp.checksum.status"@, 216);
    listed("udp.checksum.status"@, 177);
}

} // verus!
