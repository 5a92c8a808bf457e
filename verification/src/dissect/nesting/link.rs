//! The link layers, ARP and unclaimed data.

use vstd::prelude::*;

use super::ops::{keeping_nested, moving};
use super::{begins, kids, nests, opened, shut, wrote};
use crate::bytes::{be16, be24};
use crate::dissect::ctx::{Model, Proto};
use crate::dissect::node::ValueView;
use crate::dissect::proto::{arp, data_layer, eth, llc, next_by_ethertype, null, vlan};
use crate::dissect::AddrView;
use crate::text::{dec, hex_pad};

verus! {

pub proof fn data_nests(d: Seq<u8>, m: Model)
    requires
        begins(d, m),
    ensures
        wrote(m, data_layer(d, m), m.base, m.base + d.len()),
{
    broadcast use {keeping_nested, moving};

}

pub proof fn null_nests(d: Seq<u8>, m: Model)
    requires
        begins(d, m),
    ensures
        nests(d, m, null::layer(d, m)),
{
    let a = m.base;
    let end = a + d.len();
    assert(wrote(m, m, a, end));
    if d.len() >= 4 {
        let top = m.set_protocol("null"@);
        let x = top.begin("null"@, a, a + 4).leaf(
            "null.family"@,
            a,
            a + 4,
            ValueView::Unsigned(null::family_of(d) as u64),
        );
        assert(wrote(m, x, a, end) && x.trace.depth == m.trace.depth + 1 && opened(
            x,
            m.trace.depth,
            top.count(),
            m.source,
            a,
        ) && kids(x, top.count(), m.source, a, a + 4) && top.count() == m.count()) by {
            broadcast use {keeping_nested, moving};

        }
        shut(m, x, top.count(), a, a + 4, a, end);
        broadcast use {keeping_nested, moving};

    }
}

pub proof fn eth_nests(d: Seq<u8>, m: Model)
    requires
        begins(d, m),
    ensures
        nests(d, m, eth::layer(d, m)),
{
    let a = m.base;
    let end = a + d.len();
    assert(wrote(m, m, a, end));
    if d.len() >= 14 {
        let dst = d.subrange(0, 6);
        let src = d.subrange(6, 12);
        let tl = be16(d, 12);
        let top = m.set_protocol("eth"@).between(AddrView::Mac(src), AddrView::Mac(dst));
        let id = top.count();
        let y = top.begin("eth"@, a, a + 14).leaf("eth.dst"@, a, a + 6, ValueView::Mac(dst)).leaf(
            "eth.src"@,
            a + 6,
            a + 12,
            ValueView::Mac(src),
        );
        let x = if tl <= 1500 {
            y.leaf("eth.len"@, a + 12, a + 14, ValueView::Unsigned(tl as u64))
        } else {
            y.leaf("eth.type"@, a + 12, a + 14, ValueView::Unsigned(tl as u64))
        };
        assert(wrote(m, x, a, end) && x.trace.depth == m.trace.depth + 1 && opened(
            x,
            m.trace.depth,
            id,
            m.source,
            a,
        ) && kids(x, id, m.source, a, a + 14) && id == m.count()) by {
            broadcast use {keeping_nested, moving};

        }
        shut(m, x, id, a, a + 14, a, end);
        broadcast use {keeping_nested, moving};

    }
}

pub proof fn vlan_nests(d: Seq<u8>, m: Model)
    requires
        begins(d, m),
    ensures
        nests(d, m, vlan::layer(d, m)),
{
    let a = m.base;
    let end = a + d.len();
    assert(wrote(m, m, a, end));
    if d.len() >= 4 {
        let tci = be16(d, 0);
        let etype = be16(d, 2);
        let pcp = tci >> 13;
        let dei = (tci >> 12) & 1 == 1;
        let id = tci & 0x0fff;
        let top = m.set_protocol("vlan"@);
        let text = "802.1Q Virtual LAN, PRI: "@ + dec(pcp as int) + ", DEI: "@ + dec(
            if dei {
                1
            } else {
                0
            },
        ) + ", ID: "@ + dec(id as int);
        let x = top.begin_text("vlan"@, a, a + 4, text).leaf(
            "vlan.priority"@,
            a,
            a + 2,
            ValueView::Unsigned(pcp as u64),
        ).leaf("vlan.dei"@, a, a + 2, ValueView::Bool(dei)).leaf(
            "vlan.id"@,
            a,
            a + 2,
            ValueView::Unsigned(id as u64),
        ).leaf("vlan.etype"@, a + 2, a + 4, ValueView::Unsigned(etype as u64));
        assert(wrote(m, x, a, end) && x.trace.depth == m.trace.depth + 1 && opened(
            x,
            m.trace.depth,
            top.count(),
            m.source,
            a,
        ) && kids(x, top.count(), m.source, a, a + 4) && top.count() == m.count()) by {
            broadcast use {keeping_nested, moving};

        }
        shut(m, x, top.count(), a, a + 4, a, end);
        broadcast use {keeping_nested, moving};

    }
}

/// The fixed part of an ARP packet, its row open.
spec fn arp_head(d: Seq<u8>, m: Model) -> Model {
    let a = m.base;
    m.set_protocol("arp"@).begin("arp"@, a, a).leaf(
        "arp.hw.type"@,
        a,
        a + 2,
        ValueView::Unsigned(be16(d, 0) as u64),
    ).leaf("arp.proto.type"@, a + 2, a + 4, ValueView::Unsigned(be16(d, 2) as u64)).leaf(
        "arp.hw.size"@,
        a + 4,
        a + 5,
        ValueView::Unsigned(d[4] as u64),
    ).leaf("arp.proto.size"@, a + 5, a + 6, ValueView::Unsigned(d[5] as u64)).leaf(
        "arp.opcode"@,
        a + 6,
        a + 8,
        ValueView::Unsigned(be16(d, 6) as u64),
    )
}

pub proof fn arp_nests(d: Seq<u8>, m: Model)
    requires
        begins(d, m),
    ensures
        nests(d, m, arp::layer(d, m)),
{
    let a = m.base;
    let n = d.len() as int;
    assert(wrote(m, m, a, a + n));
    if n >= 8 {
        let (hw, pr) = (d[4], d[5]);
        let h = arp_head(d, m);
        let top = m.set_protocol("arp"@);
        let id = m.count();
        assert(wrote(m, h, a, a + n) && h.trace.depth == m.trace.depth + 1 && opened(
            h,
            m.trace.depth,
            id,
            m.source,
            a,
        ) && kids(h, id, m.source, a, a + 8) && kids(h, id, m.source, a, a + n) && top.count()
            == id && h.count() > id) by {
            broadcast use {keeping_nested, moving};

        }
        if be16(d, 0) == 1 && be16(d, 2) == 0x0800 && hw == 6 && pr == 4 {
            if n >= 28 {
                let sha = d.subrange(8, 14);
                let spa = d.subrange(14, 18);
                let tha = d.subrange(18, 24);
                let tpa = d.subrange(24, 28);
                let x = h.leaf("arp.src.hw_mac"@, a + 8, a + 14, ValueView::Mac(sha)).leaf(
                    "arp.src.proto_ipv4"@,
                    a + 14,
                    a + 18,
                    ValueView::Ipv4(spa),
                ).leaf("arp.dst.hw_mac"@, a + 18, a + 24, ValueView::Mac(tha)).leaf(
                    "arp.dst.proto_ipv4"@,
                    a + 24,
                    a + 28,
                    ValueView::Ipv4(tpa),
                ).set_info(arp::info_text(be16(d, 6), sha, spa, tpa));
                assert(wrote(m, x, a, a + n) && x.trace.depth == m.trace.depth + 1 && opened(
                    x,
                    m.trace.depth,
                    id,
                    m.source,
                    a,
                ) && kids(x, id, m.source, a, a + 28)) by {
                    assert(kids(h, id, m.source, a, a + 28)) by {
                        broadcast use {keeping_nested, moving};

                    }
                    broadcast use {keeping_nested, moving};

                }
                shut(m, x, id, a, a + 28, a, a + n);
            }
        } else {
            let (x, y) = (hw as int, pr as int);
            if n >= 8 + x + y + x + y {
                let p = a + 8;
                let end = p + x + y + x + y;
                let info = "ARP hw type "@ + dec(be16(d, 0) as int) + ", proto 0x"@ + hex_pad(
                    be16(d, 2) as int,
                    4,
                ) + ", opcode "@ + dec(be16(d, 6) as int);
                let z = h.leaf("arp.src.hw"@, p, p + x, ValueView::Bytes).leaf(
                    "arp.src.proto"@,
                    p + x,
                    p + x + y,
                    ValueView::Bytes,
                ).leaf("arp.dst.hw"@, p + x + y, p + x + y + x, ValueView::Bytes).leaf(
                    "arp.dst.proto"@,
                    p + x + y + x,
                    p + x + y + x + y,
                    ValueView::Bytes,
                ).set_info(info);
                assert(wrote(m, z, a, a + n) && z.trace.depth == m.trace.depth + 1 && opened(
                    z,
                    m.trace.depth,
                    id,
                    m.source,
                    a,
                ) && kids(z, id, m.source, a, end)) by {
                    assert(kids(h, id, m.source, a, end)) by {
                        broadcast use {keeping_nested, moving};

                    }
                    broadcast use {keeping_nested, moving};

                }
                shut(m, z, id, a, end, a, a + n);
            }
        }
    }
}

pub proof fn llc_nests(d: Seq<u8>, m: Model)
    requires
        begins(d, m),
    ensures
        nests(d, m, llc::layer(d, m)),
{
    let a = m.base;
    let n = d.len() as int;
    assert(wrote(m, m, a, a + n));
    if n >= 3 && !(d[2] & 0x03 != 0x03 && n < 4) {
        let (dsap, ssap, ctrl) = (d[0], d[1], d[2]);
        let h: int = if ctrl & 0x03 != 0x03 {
            4
        } else {
            3
        };
        let top = m.set_protocol("llc"@);
        let id = m.count();
        let x = top.begin("llc"@, a, a).leaf(
            "llc.dsap"@,
            a,
            a + 1,
            ValueView::Unsigned(dsap as u64),
        ).leaf("llc.ssap"@, a + 1, a + 2, ValueView::Unsigned(ssap as u64)).leaf(
            "llc.control"@,
            a + 2,
            a + h,
            ValueView::Unsigned(ctrl as u64),
        );
        assert(wrote(m, x, a, a + n) && x.trace.depth == m.trace.depth + 1 && opened(
            x,
            m.trace.depth,
            id,
            m.source,
            a,
        ) && kids(x, id, m.source, a, a + h) && kids(x, id, m.source, a, a + h + 5) && top.count()
            == id && x.count() > id) by {
            broadcast use {keeping_nested, moving};

        }
        if dsap == 0xaa && ssap == 0xaa && ctrl == 0x03 {
            if n >= h + 5 {
                let oui = be24(d, h);
                let pid = be16(d, h + 3);
                let y = x.leaf("llc.oui"@, a + h, a + h + 3, ValueView::Unsigned(oui as u64));
                let z = if oui == 0 {
                    y.leaf(
                        "llc.type"@,
                        a + h + 3,
                        a + h + 5,
                        ValueView::Unsigned(pid as u64),
                    ).call_next(next_by_ethertype(pid), h + 5)
                } else {
                    y.leaf(
                        "llc.pid"@,
                        a + h + 3,
                        a + h + 5,
                        ValueView::Unsigned(pid as u64),
                    ).set_info(
                        "SNAP OUI 0x"@ + hex_pad(oui as int, 6) + " PID 0x"@ + hex_pad(
                            pid as int,
                            4,
                        ),
                    ).call_next(Proto::Data, h + 5)
                };
                let text = "Logical-Link Control (SNAP), OUI 0x"@ + hex_pad(oui as int, 6)
                    + ", PID 0x"@ + hex_pad(pid as int, 4);
                let w = z.set_text(id, text);
                assert(wrote(m, w, a, a + n) && w.trace.depth == m.trace.depth + 1 && opened(
                    w,
                    m.trace.depth,
                    id,
                    m.source,
                    a,
                ) && kids(w, id, m.source, a, a + h + 5)) by {
                    broadcast use {keeping_nested, moving};

                }
                shut(m, w, id, a, a + h + 5, a, a + n);
            }
        } else {
            let text = "Logical-Link Control, DSAP 0x"@ + hex_pad(dsap as int, 2) + ", SSAP 0x"@
                + hex_pad(ssap as int, 2);
            let info = "LLC DSAP 0x"@ + hex_pad(dsap as int, 2) + " SSAP 0x"@ + hex_pad(
                ssap as int,
                2,
            );
            let w = x.set_text(id, text).set_info(info).call_next(Proto::Data, h);
            assert(wrote(m, w, a, a + n) && w.trace.depth == m.trace.depth + 1 && opened(
                w,
                m.trace.depth,
                id,
                m.source,
                a,
            ) && kids(w, id, m.source, a, a + h)) by {
                broadcast use {keeping_nested, moving};

            }
            shut(m, w, id, a, a + h, a, a + n);
        }
    }
}

} // verus!
