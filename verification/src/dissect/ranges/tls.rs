//! TLS.

use vstd::prelude::*;

use super::names::tls_names;
use super::{keeping_inside, nothing_written, ready, space, within};
use crate::bytes::{be16, be24};
use crate::dissect::ctx::Model;
use crate::dissect::node::ValueView;
use crate::dissect::proto::tls::{
    bad_extension, certificate, certificates, client_hello, extension_body, extension_label,
    extension_rows, extensions, handshake, handshake_body, hello_fields, is_unfinished, layer,
    least, methods, protocol_names, record_body, records, resembles_tls, server_hello, server_names,
    shown, suites, version_text, versions, whole_end, CHOICE, HELLO, MAX_RECORDS, Reading,
};
use crate::dissect::proto::{shortfall, stop_of};
use crate::dissect::registry::{named, named_or};
use crate::dissect::tables::{TLS_CONTENT_TYPES, TLS_HANDSHAKE_TYPES};
use crate::text::{dec, utf8_lossy};

verus! {

/// What was read lies inside, and reading stopped inside.
spec fn reads(m0: Model, m: Model, r: Reading, n: int) -> bool {
    &&& within(m0, r.0, n)
    &&& r.0.count() >= m.count()
    &&& 0 <= r.1 <= space(m0, n)
}

proof fn stops_inside(at: int, left: int, widths: Seq<usize>, room: int)
    requires
        0 <= at,
        0 <= left,
        at + left <= room,
    ensures
        0 <= stop_of(shortfall(at, left, widths)) <= room,
    decreases widths.len(),
{
    if widths.len() > 1 && left >= widths[0] {
        stops_inside(at + widths[0], left - widths[0], widths.drop_first(), room);
    }
}

proof fn server_names_stay(
    m0: Model,
    l: Seq<u8>,
    i: int,
    at: int,
    m: Model,
    detail: Seq<char>,
    n: int,
)
    requires
        within(m0, m, n),
        0 <= at,
        at + l.len() <= space(m0, n),
    ensures
        within(m0, server_names(l, i, at, m, detail).0, n),
        server_names(l, i, at, m, detail).0.count() >= m.count(),
    decreases l.len() - i,
{
    broadcast use keeping_inside;

    tls_names();
    if 0 <= i && i + 3 <= l.len() {
        let p = at + i;
        let len = be16(l, i + 1) as int;
        if l.len() - i - 3 >= len {
            let name = utf8_lossy(l.subrange(i + 3, i + 3 + len));
            server_names_stay(
                m0,
                l,
                i + 3 + len,
                at,
                m.leaf(
                    "tls.handshake.extensions_server_name_type"@,
                    p,
                    p + 1,
                    ValueView::Unsigned(l[i] as u64),
                ).leaf(
                    "tls.handshake.extensions_server_name_len"@,
                    p + 1,
                    p + 3,
                    ValueView::Unsigned(be16(l, i + 1) as u64),
                ).leaf(
                    "tls.handshake.extensions_server_name"@,
                    p + 3,
                    p + 3 + len,
                    ValueView::Str(name),
                ),
                if l[i] == 0 {
                    "name="@ + name
                } else {
                    detail
                },
                n,
            );
        }
    }
}

proof fn protocol_names_stay(
    m0: Model,
    l: Seq<u8>,
    i: int,
    at: int,
    m: Model,
    names: Seq<Seq<char>>,
    n: int,
)
    requires
        within(m0, m, n),
        0 <= at,
        at + l.len() <= space(m0, n),
    ensures
        within(m0, protocol_names(l, i, at, m, names).0, n),
        protocol_names(l, i, at, m, names).0.count() >= m.count(),
    decreases l.len() - i,
{
    broadcast use keeping_inside;

    tls_names();
    if 0 <= i < l.len() {
        let p = at + i;
        let len = l[i] as int;
        if l.len() - i - 1 >= len {
            let name = utf8_lossy(l.subrange(i + 1, i + 1 + len));
            protocol_names_stay(
                m0,
                l,
                i + 1 + len,
                at,
                m.leaf(
                    "tls.handshake.extensions_alpn_str_len"@,
                    p,
                    p + 1,
                    ValueView::Unsigned(l[i] as u64),
                ).leaf(
                    "tls.handshake.extensions_alpn_str"@,
                    p + 1,
                    p + 1 + len,
                    ValueView::Str(name),
                ),
                names.push(name),
                n,
            );
        }
    }
}

proof fn versions_stay(
    m0: Model,
    l: Seq<u8>,
    i: int,
    at: int,
    m: Model,
    names: Seq<Seq<char>>,
    n: int,
)
    requires
        within(m0, m, n),
        0 <= at,
        at + l.len() <= space(m0, n),
    ensures
        within(m0, versions(l, i, at, m, names).0, n),
        versions(l, i, at, m, names).0.count() >= m.count(),
    decreases l.len() - i,
{
    broadcast use keeping_inside;

    tls_names();
    if 0 <= i && i + 2 <= l.len() {
        versions_stay(
            m0,
            l,
            i + 2,
            at,
            m.leaf(
                "tls.handshake.extensions.supported_version"@,
                at + i,
                at + i + 2,
                ValueView::Unsigned(be16(l, i) as u64),
            ),
            names.push(version_text(be16(l, i))),
            n,
        );
    }
}

proof fn extension_body_stays(m0: Model, ty: u16, b: Seq<u8>, at: int, m: Model, n: int)
    requires
        within(m0, m, n),
        0 <= at,
        at + b.len() <= space(m0, n),
    ensures
        reads(m0, m, extension_body(ty, b, at, m).0, n),
{
    broadcast use keeping_inside;

    tls_names();
    let k = b.len() as int;
    if k >= 2 {
        let l = least(be16(b, 0) as int, k - 2);
        let listed = m.leaf(
            "tls.handshake.extensions_server_name_list_len"@,
            at,
            at + 2,
            ValueView::Unsigned(be16(b, 0) as u64),
        );
        server_names_stay(m0, b.subrange(2, 2 + l), 0, at + 2, listed, ""@, n);
        let offered = m.leaf(
            "tls.handshake.extensions_alpn_len"@,
            at,
            at + 2,
            ValueView::Unsigned(be16(b, 0) as u64),
        );
        protocol_names_stay(m0, b.subrange(2, 2 + l), 0, at + 2, offered, Seq::empty(), n);
    }
    versions_stay(m0, b, 0, at, m, Seq::empty(), n);
    if k >= 1 {
        let l = least(b[0] as int, k - 1);
        let counted = m.leaf(
            "tls.handshake.extensions.supported_versions_len"@,
            at,
            at + 1,
            ValueView::Unsigned(b[0] as u64),
        );
        versions_stay(m0, b.subrange(1, 1 + l), 0, at + 1, counted, Seq::empty(), n);
    }
}

proof fn extension_rows_stay(m0: Model, l: Seq<u8>, i: int, at: int, m: Model, n: int)
    requires
        within(m0, m, n),
        0 <= at,
        at + l.len() <= space(m0, n),
    ensures
        within(m0, extension_rows(l, i, at, m), n),
        extension_rows(l, i, at, m).count() >= m.count(),
    decreases l.len() - i,
{
    broadcast use keeping_inside;

    tls_names();
    if 0 <= i && i + 4 <= l.len() {
        let p = at + i;
        let (ty, len) = (be16(l, i), be16(l, i + 2));
        let ext = m.count();
        let head = m.begin("tls.handshake.extension"@, p, p).leaf(
            "tls.handshake.extension.type"@,
            p,
            p + 2,
            ValueView::Unsigned(ty as u64),
        ).leaf(
            "tls.handshake.extension.len"@,
            p + 2,
            p + 4,
            ValueView::Unsigned(len as u64),
        );
        assert(within(m0, head, n) && head.count() > ext);
        if l.len() - i - 4 >= len {
            let end = p + 4 + len;
            let b = l.subrange(i + 4, i + 4 + len);
            extension_body_stays(m0, ty, b, p + 4, head, n);
            let ((after, stop, e), detail) = extension_body(ty, b, p + 4, head);
            let whole = match e {
                Some(e) => after.at_depth(head.trace.depth).leaf_text(
                    "_ws.malformed"@,
                    stop,
                    end,
                    ValueView::Empty,
                    bad_extension(e),
                ),
                None => after,
            };
            assert(within(m0, whole, n) && whole.count() > ext);
            extension_rows_stay(
                m0,
                l,
                i + 4 + len,
                at,
                whole.set_text(
                    ext,
                    extension_label(ty, len, detail),
                ).end_at(ext, end),
                n,
            );
        }
    }
}

proof fn extensions_stay(m0: Model, b: Seq<u8>, i: int, at: int, m: Model, n: int)
    requires
        within(m0, m, n),
        0 <= i <= b.len(),
        0 <= at,
        at + b.len() <= space(m0, n),
    ensures
        reads(m0, m, extensions(b, i, at, m), n),
{
    broadcast use keeping_inside;

    tls_names();
    if b.len() - i >= 2 {
        let counted = m.leaf(
            "tls.handshake.extensions_length"@,
            at + i,
            at + i + 2,
            ValueView::Unsigned(be16(b, i) as u64),
        );
        let l = least(be16(b, i) as int, b.len() - i - 2);
        extension_rows_stay(m0, b.subrange(i + 2, i + 2 + l), 0, at + i + 2, counted, n);
    }
}

proof fn suites_stay(m0: Model, l: Seq<u8>, i: int, at: int, m: Model, n: int)
    requires
        within(m0, m, n),
        0 <= at,
        at + l.len() <= space(m0, n),
    ensures
        within(m0, suites(l, i, at, m), n),
        suites(l, i, at, m).count() >= m.count(),
    decreases l.len() - i,
{
    broadcast use keeping_inside;

    tls_names();
    if 0 <= i && i + 2 <= l.len() {
        suites_stay(
            m0,
            l,
            i + 2,
            at,
            m.leaf(
                "tls.handshake.ciphersuite"@,
                at + i,
                at + i + 2,
                ValueView::Unsigned(be16(l, i) as u64),
            ),
            n,
        );
    }
}

proof fn methods_stay(m0: Model, l: Seq<u8>, i: int, at: int, m: Model, n: int)
    requires
        within(m0, m, n),
        0 <= at,
        at + l.len() <= space(m0, n),
    ensures
        within(m0, methods(l, i, at, m), n),
        methods(l, i, at, m).count() >= m.count(),
    decreases l.len() - i,
{
    broadcast use keeping_inside;

    tls_names();
    if 0 <= i < l.len() {
        methods_stay(
            m0,
            l,
            i + 1,
            at,
            m.leaf(
                "tls.handshake.comp_method"@,
                at + i,
                at + i + 1,
                ValueView::Unsigned(l[i] as u64),
            ),
            n,
        );
    }
}

proof fn hello_stays(m0: Model, b: Seq<u8>, at: int, m: Model, n: int)
    requires
        within(m0, m, n),
        0 <= at,
        at + b.len() <= space(m0, n),
        35 <= b.len(),
        35 + b[34] <= b.len(),
    ensures
        within(m0, hello_fields(b, at, m), n),
        hello_fields(b, at, m).count() >= m.count(),
{
    broadcast use keeping_inside;

    tls_names();
}

proof fn client_hello_stays(m0: Model, b: Seq<u8>, at: int, m: Model, n: int)
    requires
        within(m0, m, n),
        0 <= at,
        at + b.len() <= space(m0, n),
    ensures
        reads(m0, m, client_hello(b, at, m), n),
{
    broadcast use keeping_inside;

    tls_names();
    let k = b.len() as int;
    stops_inside(at, k, HELLO@, space(m0, n));
    if k >= 35 && k >= 35 + b[34] {
        let p = 35 + b[34];
        hello_stays(m0, b, at, m, n);
        let h = hello_fields(b, at, m);
        if k >= p + 2 {
            let cs = be16(b, p);
            let q = p + 2 + cs;
            let counted = h.leaf(
                "tls.handshake.cipher_suites_length"@,
                at + p,
                at + p + 2,
                ValueView::Unsigned(cs as u64),
            );
            assert(within(m0, counted, n));
            if k >= q {
                let open = counted.begin_text(
                    "tls.handshake.ciphersuites"@,
                    at + p + 2,
                    at + q,
                    "Cipher Suites ("@ + dec((cs / 2) as int) + " suites)"@,
                );
                assert(within(m0, open, n));
                suites_stay(m0, b.subrange(p + 2, q), 0, at + p + 2, open, n);
                let listed = suites(b.subrange(p + 2, q), 0, at + p + 2, open).end();
                assert(within(m0, listed, n));
                if k >= q + 1 {
                    let cm = b[q] as int;
                    let r = q + 1 + cm;
                    let next = listed.leaf(
                        "tls.handshake.comp_methods_length"@,
                        at + q,
                        at + q + 1,
                        ValueView::Unsigned(b[q] as u64),
                    );
                    assert(within(m0, next, n));
                    if k >= r {
                        let begun = next.begin("tls.handshake.comp_methods"@, at + q + 1, at + r);
                        assert(within(m0, begun, n));
                        methods_stay(m0, b.subrange(q + 1, r), 0, at + q + 1, begun, n);
                        let done = methods(b.subrange(q + 1, r), 0, at + q + 1, begun).end();
                        assert(within(m0, done, n));
                        extensions_stay(m0, b, r, at, done, n);
                    }
                }
            }
        }
    }
}

proof fn server_hello_stays(m0: Model, b: Seq<u8>, at: int, m: Model, n: int)
    requires
        within(m0, m, n),
        0 <= at,
        at + b.len() <= space(m0, n),
    ensures
        reads(m0, m, server_hello(b, at, m), n),
{
    broadcast use keeping_inside;

    tls_names();
    let k = b.len() as int;
    stops_inside(at, k, HELLO@, space(m0, n));
    if k >= 35 && k >= 35 + b[34] {
        let p = 35 + b[34];
        stops_inside(at + p, k - p, CHOICE@, space(m0, n));
        if k >= p + 3 {
            hello_stays(m0, b, at, m, n);
            let chosen = hello_fields(b, at, m).leaf(
                "tls.handshake.ciphersuite"@,
                at + p,
                at + p + 2,
                ValueView::Unsigned(be16(b, p) as u64),
            ).leaf(
                "tls.handshake.comp_method"@,
                at + p + 2,
                at + p + 3,
                ValueView::Unsigned(b[p + 2] as u64),
            );
            assert(within(m0, chosen, n));
            extensions_stay(m0, b, p + 3, at, chosen, n);
        }
    }
}

proof fn certificates_stay(m0: Model, l: Seq<u8>, i: int, at: int, m: Model, n: int)
    requires
        within(m0, m, n),
        0 <= at,
        at + l.len() <= space(m0, n),
    ensures
        within(m0, certificates(l, i, at, m), n),
        certificates(l, i, at, m).count() >= m.count(),
    decreases l.len() - i,
{
    broadcast use keeping_inside;

    tls_names();
    if 0 <= i && i + 3 <= l.len() {
        let p = at + i;
        let len = be24(l, i);
        let have = least(len as int, l.len() - i - 3);
        certificates_stay(
            m0,
            l,
            i + 3 + have,
            at,
            m.leaf(
                "tls.handshake.certificate_length"@,
                p,
                p + 3,
                ValueView::Unsigned(len as u64),
            ).leaf("tls.handshake.certificate"@, p + 3, p + 3 + have, ValueView::Bytes),
            n,
        );
    }
}

proof fn certificate_stays(m0: Model, b: Seq<u8>, at: int, m: Model, n: int)
    requires
        within(m0, m, n),
        0 <= at,
        at + b.len() <= space(m0, n),
    ensures
        reads(m0, m, certificate(b, at, m), n),
{
    broadcast use keeping_inside;

    tls_names();
    if b.len() >= 3 {
        let l = least(be24(b, 0) as int, b.len() - 3);
        let counted = m.leaf(
            "tls.handshake.certificates_length"@,
            at,
            at + 3,
            ValueView::Unsigned(be24(b, 0) as u64),
        );
        certificates_stay(m0, b.subrange(3, 3 + l), 0, at + 3, counted, n);
    }
}

proof fn handshake_body_stays(m0: Model, ty: u8, b: Seq<u8>, at: int, m: Model, n: int)
    requires
        within(m0, m, n),
        0 <= at,
        at + b.len() <= space(m0, n),
    ensures
        reads(m0, m, handshake_body(ty, b, at, m), n),
{
    broadcast use keeping_inside;

    tls_names();
    client_hello_stays(m0, b, at, m, n);
    server_hello_stays(m0, b, at, m, n);
    certificate_stays(m0, b, at, m, n);
}

proof fn handshake_stays(
    m0: Model,
    b: Seq<u8>,
    i: int,
    at: int,
    m: Model,
    names: Seq<Seq<char>>,
    n: int,
)
    requires
        within(m0, m, n),
        0 <= i <= b.len(),
        0 <= at,
        at + b.len() <= space(m0, n),
    ensures
        within(m0, handshake(b, i, at, m, names).0, n),
        handshake(b, i, at, m, names).0.count() >= m.count(),
        0 <= handshake(b, i, at, m, names).1 <= space(m0, n),
    decreases b.len() - i,
{
    broadcast use keeping_inside;

    tls_names();
    if i + 4 <= b.len() {
        let p = at + i;
        let ty = b[i];
        let len = be24(b, i + 1) as int;
        if let Some(name) = named(TLS_HANDSHAKE_TYPES@, ty as u64) {
            let have = least(len, b.len() - i - 4);
            let end = p + 4 + have;
            let hs = m.count();
            let head = m.begin_text("tls.handshake"@, p, p, "Handshake Protocol: "@ + name).leaf(
                "tls.handshake.type"@,
                p,
                p + 1,
                ValueView::Unsigned(ty as u64),
            ).leaf(
                "tls.handshake.length"@,
                p + 1,
                p + 4,
                ValueView::Unsigned(be24(b, i + 1) as u64),
            );
            assert(within(m0, head, n) && head.count() > hs);
            let part = b.subrange(i + 4, i + 4 + have);
            handshake_body_stays(m0, ty, part, p + 4, head, n);
            let (after, stop, e) = handshake_body(ty, part, p + 4, head);
            let whole = match e {
                Some(e) => after.at_depth(head.trace.depth).leaf_text(
                    "_ws.malformed"@,
                    stop,
                    end,
                    ValueView::Empty,
                    "[Malformed Packet: tls] "@ + e.message(),
                ),
                None => after,
            };
            assert(within(m0, whole, n) && whole.count() > hs);
            let done = whole.end_at(hs, end);
            assert(within(m0, done, n));
            if len <= have {
                handshake_stays(m0, b, i + 4 + have, at, done, names.push(name), n);
            }
        }
    }
}

proof fn record_body_stays(m0: Model, ct: u8, b: Seq<u8>, at: int, m: Model, n: int)
    requires
        within(m0, m, n),
        0 <= at,
        at + b.len() <= space(m0, n),
    ensures
        within(m0, record_body(ct, b, at, m).0, n),
        record_body(ct, b, at, m).0.count() >= m.count(),
{
    broadcast use keeping_inside;

    tls_names();
    handshake_stays(m0, b, 0, at, m, Seq::empty(), n);
}

proof fn records_stay(
    m0: Model,
    k: nat,
    d: Seq<u8>,
    i: int,
    at: int,
    m: Model,
    infos: Seq<Seq<char>>,
    n: int,
)
    requires
        within(m0, m, n),
        0 <= i <= d.len(),
        0 <= at,
        at + d.len() <= space(m0, n),
    ensures
        within(m0, records(k, d, i, at, m, infos).0, n),
        i <= records(k, d, i, at, m, infos).1 <= d.len(),
    decreases k,
{
    broadcast use keeping_inside;

    tls_names();
    if k > 0 && i + 5 <= d.len() && resembles_tls(d.subrange(i, d.len() as int)) {
        let p = at + i;
        let (ct, ver, len) = (d[i], be16(d, i + 1), be16(d, i + 3));
        let kind = named_or(TLS_CONTENT_TYPES@, ct as u64, "Unknown"@);
        let left = d.len() - i - 5;
        let rec = m.count();
        let head = m.begin("tls.record"@, p, p).leaf(
            "tls.record.content_type"@,
            p,
            p + 1,
            ValueView::Unsigned(ct as u64),
        ).leaf("tls.record.version"@, p + 1, p + 3, ValueView::Unsigned(ver as u64)).leaf(
            "tls.record.length"@,
            p + 3,
            p + 5,
            ValueView::Unsigned(len as u64),
        );
        assert(within(m0, head, n) && head.count() > rec);
        if len <= left {
            let b = d.subrange(i + 5, i + 5 + len);
            record_body_stays(m0, ct, b, p + 5, head, n);
            let (after, what) = record_body(ct, b, p + 5, head);
            records_stay(
                m0,
                (k - 1) as nat,
                d,
                i + 5 + len,
                at,
                after.set_text(
                    rec,
                    version_text(ver) + " Record Layer: "@ + kind + " Protocol: "@ + what,
                ).end_at(rec, p + 5 + len),
                infos.push(what),
                n,
            );
        }
    }
}

pub proof fn whole_ends(k: nat, d: Seq<u8>, i: int)
    requires
        0 <= i <= d.len(),
    ensures
        i <= whole_end(k, d, i) <= d.len(),
    decreases k,
{
    if !(k == 0 || i + 5 > d.len() || !resembles_tls(d.subrange(i, d.len() as int)) || be16(d, i + 3)
        > d.len() - i - 5) {
        whole_ends((k - 1) as nat, d, i + 5 + be16(d, i + 3));
    }
}

proof fn shown_stays(m0: Model, d: Seq<u8>, m: Model, n: int)
    requires
        within(m0, m, n),
        0 <= m0.base,
        m0.base + d.len() <= space(m0, n),
    ensures
        within(m0, shown(d, m), n),
{
    broadcast use keeping_inside;

    tls_names();
    let a = m.base;
    assert(a == m0.base) by {
        reveal(within);
    }
    let open = m.set_protocol("tls"@).begin_text(
        "tls"@,
        a,
        a + d.len(),
        "Transport Layer Security"@,
    );
    assert(within(m0, open, n));
    records_stay(m0, MAX_RECORDS as nat, d, 0, a, open, Seq::empty(), n);
    let (after, i, infos) = records(MAX_RECORDS as nat, d, 0, a, open, Seq::empty());
    if i < d.len() {
        assert(within(
            m0,
            after.leaf("tls.continuation_data"@, a + i, a + d.len(), ValueView::Bytes),
            n,
        ));
    }
}

pub proof fn tls_stays_inside(d: Seq<u8>, m: Model, n: int)
    requires
        ready(d, m, n),
    ensures
        within(m, layer(d, m).0, n),
{
    broadcast use keeping_inside;

    tls_names();
    nothing_written(m, n);
    let w = whole_end(MAX_RECORDS as nat, d, 0);
    whole_ends(MAX_RECORDS as nat, d, 0);
    let rest = d.subrange(w, d.len() as int);
    let (held, kept) = if is_unfinished(rest) {
        m.hold(rest)
    } else {
        (m, false)
    };
    assert(within(m, m.hold(rest).0, n));
    assert(within(m, held, n));
    shown_stays(m, d, held, n);
    shown_stays(m, d.subrange(0, w), held, n);
}

} // verus!
