//! TLS.

use vstd::prelude::*;

use super::ops::{hold_alike, hold_moves, keeping_alike};
use super::{
    added, agree, alike, alike_facts, carries, chained, ends_by, level, start_alike, Bases,
};
use crate::bytes::{be16, be24};
use crate::dissect::ctx::Model;
use crate::dissect::node::ValueView;
use crate::dissect::proto::tls::{
    alpn, bad_extension, certificate, certificates, client_hello, extension_body, extension_label,
    extension_rows, extensions, handshake, handshake_body, hello_fields, is_unfinished, layer,
    least, methods, protocol_names, record_body, records, resembles_tls, server_hello, server_name,
    server_names, shown, suites, supported_versions, version_text, versions, whole_end, Reading,
    MAX_RECORDS,
};
use crate::dissect::proto::SEGMENT;
use crate::dissect::registry::{named, named_or};
use crate::dissect::tables::{TLS_CONTENT_TYPES, TLS_HANDSHAKE_TYPES};
use crate::text::{dec, joined, utf8_lossy};

verus! {

/// A part of a message read in both.
spec fn read_alike(bases: Bases, m1: Model, m2: Model, x: Reading, y: Reading) -> bool {
    &&& alike(bases, x.0, y.0)
    &&& carries(bases, m1, m2, x.0, y.0)
    &&& x.2 is None ==> x.0.trace.depth == m1.trace.depth
    &&& x.1 == y.1
    &&& x.2 == y.2
}

proof fn server_names_agree(
    bases: Bases,
    l: Seq<u8>,
    i: int,
    at: int,
    m1: Model,
    m2: Model,
    detail: Seq<char>,
)
    requires
        alike(bases, m1, m2),
    ensures
        added(
            bases,
            m1,
            m2,
            server_names(l, i, at, m1, detail).0,
            server_names(l, i, at, m2, detail).0,
        ),
        server_names(l, i, at, m1, detail).1 == server_names(l, i, at, m2, detail).1,
        server_names(l, i, at, m1, detail).2 == server_names(l, i, at, m2, detail).2,
    decreases l.len() - i,
{
    broadcast use keeping_alike;

    if 0 <= i && i + 3 <= l.len() && l.len() - i - 3 >= be16(l, i + 1) {
        let p = at + i;
        let len = be16(l, i + 1) as int;
        let name = utf8_lossy(l.subrange(i + 3, i + 3 + len));
        let x1 = m1.leaf(
            "tls.handshake.extensions_server_name_type"@,
            p,
            p + 1,
            ValueView::Unsigned(l[i] as u64),
        ).leaf(
            "tls.handshake.extensions_server_name_len"@,
            p + 1,
            p + 3,
            ValueView::Unsigned(be16(l, i + 1) as u64),
        ).leaf("tls.handshake.extensions_server_name"@, p + 3, p + 3 + len, ValueView::Str(name));
        let x2 = m2.leaf(
            "tls.handshake.extensions_server_name_type"@,
            p,
            p + 1,
            ValueView::Unsigned(l[i] as u64),
        ).leaf(
            "tls.handshake.extensions_server_name_len"@,
            p + 1,
            p + 3,
            ValueView::Unsigned(be16(l, i + 1) as u64),
        ).leaf("tls.handshake.extensions_server_name"@, p + 3, p + 3 + len, ValueView::Str(name));
        server_names_agree(bases, l, i + 3 + len, at, x1, x2, if l[i] == 0 {
            "name="@ + name
        } else {
            detail
        });
    }
}

proof fn protocol_names_agree(
    bases: Bases,
    l: Seq<u8>,
    i: int,
    at: int,
    m1: Model,
    m2: Model,
    names: Seq<Seq<char>>,
)
    requires
        alike(bases, m1, m2),
    ensures
        added(
            bases,
            m1,
            m2,
            protocol_names(l, i, at, m1, names).0,
            protocol_names(l, i, at, m2, names).0,
        ),
        protocol_names(l, i, at, m1, names).1 == protocol_names(l, i, at, m2, names).1,
        protocol_names(l, i, at, m1, names).2 == protocol_names(l, i, at, m2, names).2,
    decreases l.len() - i,
{
    broadcast use keeping_alike;

    if 0 <= i < l.len() && l.len() - i - 1 >= l[i] {
        let p = at + i;
        let len = l[i] as int;
        let name = utf8_lossy(l.subrange(i + 1, i + 1 + len));
        let x1 = m1.leaf(
            "tls.handshake.extensions_alpn_str_len"@,
            p,
            p + 1,
            ValueView::Unsigned(l[i] as u64),
        ).leaf("tls.handshake.extensions_alpn_str"@, p + 1, p + 1 + len, ValueView::Str(name));
        let x2 = m2.leaf(
            "tls.handshake.extensions_alpn_str_len"@,
            p,
            p + 1,
            ValueView::Unsigned(l[i] as u64),
        ).leaf("tls.handshake.extensions_alpn_str"@, p + 1, p + 1 + len, ValueView::Str(name));
        protocol_names_agree(bases, l, i + 1 + len, at, x1, x2, names.push(name));
    }
}

proof fn versions_agree(
    bases: Bases,
    l: Seq<u8>,
    i: int,
    at: int,
    m1: Model,
    m2: Model,
    names: Seq<Seq<char>>,
)
    requires
        alike(bases, m1, m2),
    ensures
        added(bases, m1, m2, versions(l, i, at, m1, names).0, versions(l, i, at, m2, names).0),
        versions(l, i, at, m1, names).1 == versions(l, i, at, m2, names).1,
    decreases l.len() - i,
{
    broadcast use keeping_alike;

    if 0 <= i && i + 2 <= l.len() {
        let x1 = m1.leaf(
            "tls.handshake.extensions.supported_version"@,
            at + i,
            at + i + 2,
            ValueView::Unsigned(be16(l, i) as u64),
        );
        let x2 = m2.leaf(
            "tls.handshake.extensions.supported_version"@,
            at + i,
            at + i + 2,
            ValueView::Unsigned(be16(l, i) as u64),
        );
        versions_agree(bases, l, i + 2, at, x1, x2, names.push(version_text(be16(l, i))));
    }
}

proof fn suites_agree(bases: Bases, l: Seq<u8>, i: int, at: int, m1: Model, m2: Model)
    requires
        alike(bases, m1, m2),
    ensures
        added(bases, m1, m2, suites(l, i, at, m1), suites(l, i, at, m2)),
    decreases l.len() - i,
{
    broadcast use keeping_alike;

    if 0 <= i && i + 2 <= l.len() {
        let x1 = m1.leaf(
            "tls.handshake.ciphersuite"@,
            at + i,
            at + i + 2,
            ValueView::Unsigned(be16(l, i) as u64),
        );
        let x2 = m2.leaf(
            "tls.handshake.ciphersuite"@,
            at + i,
            at + i + 2,
            ValueView::Unsigned(be16(l, i) as u64),
        );
        suites_agree(bases, l, i + 2, at, x1, x2);
    }
}

proof fn methods_agree(bases: Bases, l: Seq<u8>, i: int, at: int, m1: Model, m2: Model)
    requires
        alike(bases, m1, m2),
    ensures
        added(bases, m1, m2, methods(l, i, at, m1), methods(l, i, at, m2)),
    decreases l.len() - i,
{
    broadcast use keeping_alike;

    if 0 <= i < l.len() {
        let x1 = m1.leaf(
            "tls.handshake.comp_method"@,
            at + i,
            at + i + 1,
            ValueView::Unsigned(l[i] as u64),
        );
        let x2 = m2.leaf(
            "tls.handshake.comp_method"@,
            at + i,
            at + i + 1,
            ValueView::Unsigned(l[i] as u64),
        );
        methods_agree(bases, l, i + 1, at, x1, x2);
    }
}

proof fn certificates_agree(bases: Bases, l: Seq<u8>, i: int, at: int, m1: Model, m2: Model)
    requires
        alike(bases, m1, m2),
    ensures
        added(bases, m1, m2, certificates(l, i, at, m1), certificates(l, i, at, m2)),
    decreases l.len() - i,
{
    broadcast use keeping_alike;

    if 0 <= i && i + 3 <= l.len() {
        let p = at + i;
        let len = be24(l, i);
        let have = least(len as int, l.len() - i - 3);
        let x1 = m1.leaf(
            "tls.handshake.certificate_length"@,
            p,
            p + 3,
            ValueView::Unsigned(len as u64),
        ).leaf("tls.handshake.certificate"@, p + 3, p + 3 + have, ValueView::Bytes);
        let x2 = m2.leaf(
            "tls.handshake.certificate_length"@,
            p,
            p + 3,
            ValueView::Unsigned(len as u64),
        ).leaf("tls.handshake.certificate"@, p + 3, p + 3 + have, ValueView::Bytes);
        certificates_agree(bases, l, i + 3 + have, at, x1, x2);
    }
}

proof fn server_name_agrees(bases: Bases, b: Seq<u8>, at: int, m1: Model, m2: Model)
    requires
        alike(bases, m1, m2),
    ensures
        read_alike(bases, m1, m2, server_name(b, at, m1).0, server_name(b, at, m2).0),
        server_name(b, at, m1).0.0.trace.depth == m1.trace.depth,
        server_name(b, at, m1).1 == server_name(b, at, m2).1,
{
    let n = b.len() as int;
    if n >= 2 {
        let value = ValueView::Unsigned(be16(b, 0) as u64);
        let field = "tls.handshake.extensions_server_name_list_len"@;
        let (x1, x2) = (m1.leaf(field, at, at + 2, value), m2.leaf(field, at, at + 2, value));
        assert(added(bases, m1, m2, x1, x2)) by {
            broadcast use keeping_alike;

        }
        let part = b.subrange(2, 2 + least(be16(b, 0) as int, n - 2));
        server_names_agree(bases, part, 0, at + 2, x1, x2, ""@);
        let y1 = server_names(part, 0, at + 2, x1, ""@).0;
        let y2 = server_names(part, 0, at + 2, x2, ""@).0;
        chained(bases, m1, m2, x1, x2, y1, y2);
    }
}

proof fn alpn_agrees(bases: Bases, b: Seq<u8>, at: int, m1: Model, m2: Model)
    requires
        alike(bases, m1, m2),
    ensures
        read_alike(bases, m1, m2, alpn(b, at, m1).0, alpn(b, at, m2).0),
        alpn(b, at, m1).0.0.trace.depth == m1.trace.depth,
        alpn(b, at, m1).1 == alpn(b, at, m2).1,
{
    let n = b.len() as int;
    if n >= 2 {
        let value = ValueView::Unsigned(be16(b, 0) as u64);
        let field = "tls.handshake.extensions_alpn_len"@;
        let (x1, x2) = (m1.leaf(field, at, at + 2, value), m2.leaf(field, at, at + 2, value));
        assert(added(bases, m1, m2, x1, x2)) by {
            broadcast use keeping_alike;

        }
        let part = b.subrange(2, 2 + least(be16(b, 0) as int, n - 2));
        protocol_names_agree(bases, part, 0, at + 2, x1, x2, Seq::empty());
        let y1 = protocol_names(part, 0, at + 2, x1, Seq::empty()).0;
        let y2 = protocol_names(part, 0, at + 2, x2, Seq::empty()).0;
        chained(bases, m1, m2, x1, x2, y1, y2);
    }
}

proof fn supported_versions_agree(bases: Bases, b: Seq<u8>, at: int, m1: Model, m2: Model)
    requires
        alike(bases, m1, m2),
    ensures
        read_alike(bases, m1, m2, supported_versions(b, at, m1).0, supported_versions(b, at, m2).0),
        supported_versions(b, at, m1).0.0.trace.depth == m1.trace.depth,
        supported_versions(b, at, m1).1 == supported_versions(b, at, m2).1,
{
    let n = b.len() as int;
    versions_agree(bases, b, 0, at, m1, m2, Seq::empty());
    if n >= 1 {
        let value = ValueView::Unsigned(b[0] as u64);
        let field = "tls.handshake.extensions.supported_versions_len"@;
        let (x1, x2) = (m1.leaf(field, at, at + 1, value), m2.leaf(field, at, at + 1, value));
        assert(added(bases, m1, m2, x1, x2)) by {
            broadcast use keeping_alike;

        }
        let part = b.subrange(1, 1 + least(b[0] as int, n - 1));
        versions_agree(bases, part, 0, at + 1, x1, x2, Seq::empty());
        let y1 = versions(part, 0, at + 1, x1, Seq::empty()).0;
        let y2 = versions(part, 0, at + 1, x2, Seq::empty()).0;
        chained(bases, m1, m2, x1, x2, y1, y2);
    }
}

proof fn extension_body_agrees(
    bases: Bases,
    ty: u16,
    b: Seq<u8>,
    at: int,
    m1: Model,
    m2: Model,
)
    requires
        alike(bases, m1, m2),
    ensures
        read_alike(
            bases,
            m1,
            m2,
            extension_body(ty, b, at, m1).0,
            extension_body(ty, b, at, m2).0,
        ),
        extension_body(ty, b, at, m1).0.0.trace.depth == m1.trace.depth,
        extension_body(ty, b, at, m1).1 == extension_body(ty, b, at, m2).1,
{
    if ty == 0 {
        server_name_agrees(bases, b, at, m1, m2);
    } else if ty == 16 {
        alpn_agrees(bases, b, at, m1, m2);
    } else if ty == 43 {
        supported_versions_agree(bases, b, at, m1, m2);
    } else {
        broadcast use keeping_alike;

    }
}

/// The row of an extension, open.
pub open spec fn extension_head(l: Seq<u8>, i: int, p: int, m: Model) -> Model {
    m.begin("tls.handshake.extension"@, p, p).leaf(
        "tls.handshake.extension.type"@,
        p,
        p + 2,
        ValueView::Unsigned(be16(l, i) as u64),
    ).leaf(
        "tls.handshake.extension.len"@,
        p + 2,
        p + 4,
        ValueView::Unsigned(be16(l, i + 2) as u64),
    )
}

proof fn extension_rows_agree(bases: Bases, l: Seq<u8>, i: int, at: int, m1: Model, m2: Model)
    requires
        alike(bases, m1, m2),
        0 <= m1.trace.depth < 220,
    ensures
        added(bases, m1, m2, extension_rows(l, i, at, m1), extension_rows(l, i, at, m2)),
    decreases l.len() - i,
{
    if 0 <= i && i + 4 <= l.len() {
        let p = at + i;
        let (ty, len) = (be16(l, i), be16(l, i + 2));
        let (n1, n2) = (m1.count(), m2.count());
        let (h1, h2) = (extension_head(l, i, p, m1), extension_head(l, i, p, m2));
        assert(alike(bases, h1, h2) && carries(bases, m1, m2, h1, h2) && level(
            bases,
            h1,
            n1,
            h2,
            n2,
        ) && n1 < h1.count() && n2 < h2.count() && h1.trace.depth == m1.trace.depth + 1) by {
            broadcast use keeping_alike;

        }
        alike_facts(bases, h1, h2);
        assert(ends_by(h1, n1, at + l.len()) && ends_by(h2, n2, at + l.len()) && ends_by(
            h1,
            n1,
            p + 4 + len,
        ) && ends_by(h2, n2, p + 4 + len)) by {
            broadcast use keeping_alike;

        }
        if l.len() - i - 4 < len {
            broadcast use keeping_alike;

        } else {
            let end = p + 4 + len;
            let b = l.subrange(i + 4, i + 4 + len);
            extension_body_agrees(bases, ty, b, p + 4, h1, h2);
            let ((a1, stop, e), detail) = extension_body(ty, b, p + 4, h1);
            let a2 = extension_body(ty, b, p + 4, h2).0.0;
            let (w1, w2) = match e {
                Some(e) => (
                    a1.at_depth(h1.trace.depth).leaf_text(
                        "_ws.malformed"@,
                        stop,
                        end,
                        ValueView::Empty,
                        bad_extension(e),
                    ),
                    a2.at_depth(h1.trace.depth).leaf_text(
                        "_ws.malformed"@,
                        stop,
                        end,
                        ValueView::Empty,
                        bad_extension(e),
                    ),
                ),
                None => (a1, a2),
            };
            assert(added(bases, a1, a2, w1, w2)) by {
                broadcast use keeping_alike;

            }
            chained(bases, h1, h2, a1, a2, w1, w2);
            chained(bases, m1, m2, h1, h2, w1, w2);
            assert(level(bases, w1, n1, w2, n2));
            assert(ends_by(w1, n1, end) && ends_by(w2, n2, end));
            let label = extension_label(ty, len, detail);
            let z1 = w1.set_text(n1, label).end_at(n1, end);
            let z2 = w2.set_text(n2, label).end_at(n2, end);
            assert(added(bases, m1, m2, z1, z2)) by {
                broadcast use keeping_alike;

            }
            extension_rows_agree(bases, l, i + 4 + len, at, z1, z2);
            let y1 = extension_rows(l, i + 4 + len, at, z1);
            let y2 = extension_rows(l, i + 4 + len, at, z2);
            chained(bases, m1, m2, z1, z2, y1, y2);
        }
    }
}

proof fn extensions_agree(bases: Bases, b: Seq<u8>, i: int, at: int, m1: Model, m2: Model)
    requires
        alike(bases, m1, m2),
        0 <= m1.trace.depth < 220,
    ensures
        read_alike(bases, m1, m2, extensions(b, i, at, m1), extensions(b, i, at, m2)),
{
    if b.len() - i >= 2 {
        let value = ValueView::Unsigned(be16(b, i) as u64);
        let field = "tls.handshake.extensions_length"@;
        let x1 = m1.leaf(field, at + i, at + i + 2, value);
        let x2 = m2.leaf(field, at + i, at + i + 2, value);
        assert(added(bases, m1, m2, x1, x2)) by {
            broadcast use keeping_alike;

        }
        let part = b.subrange(i + 2, i + 2 + least(be16(b, i) as int, b.len() - i - 2));
        extension_rows_agree(bases, part, 0, at + i + 2, x1, x2);
        let y1 = extension_rows(part, 0, at + i + 2, x1);
        let y2 = extension_rows(part, 0, at + i + 2, x2);
        chained(bases, m1, m2, x1, x2, y1, y2);
    }
}

proof fn hello_agrees(bases: Bases, b: Seq<u8>, at: int, m1: Model, m2: Model)
    requires
        alike(bases, m1, m2),
    ensures
        added(bases, m1, m2, hello_fields(b, at, m1), hello_fields(b, at, m2)),
{
    broadcast use keeping_alike;

}

/// The cipher suites, from position `p` to `q`.
pub open spec fn with_suites(b: Seq<u8>, p: int, q: int, at: int, cs: u16, m: Model) -> Model {
    suites(
        b.subrange(p + 2, q),
        0,
        at + p + 2,
        m.begin_text(
            "tls.handshake.ciphersuites"@,
            at + p + 2,
            at + q,
            "Cipher Suites ("@ + dec((cs / 2) as int) + " suites)"@,
        ),
    ).end()
}

proof fn with_suites_agrees(
    bases: Bases,
    b: Seq<u8>,
    p: int,
    q: int,
    at: int,
    cs: u16,
    m1: Model,
    m2: Model,
)
    requires
        alike(bases, m1, m2),
        0 <= m1.trace.depth < 220,
    ensures
        added(bases, m1, m2, with_suites(b, p, q, at, cs, m1), with_suites(b, p, q, at, cs, m2)),
{
    let text = "Cipher Suites ("@ + dec((cs / 2) as int) + " suites)"@;
    let o1 = m1.begin_text("tls.handshake.ciphersuites"@, at + p + 2, at + q, text);
    let o2 = m2.begin_text("tls.handshake.ciphersuites"@, at + p + 2, at + q, text);
    assert(alike(bases, o1, o2) && carries(bases, m1, m2, o1, o2) && o1.trace.depth
        == m1.trace.depth + 1) by {
        broadcast use keeping_alike;

    }
    let part = b.subrange(p + 2, q);
    suites_agree(bases, part, 0, at + p + 2, o1, o2);
    let (s1, s2) = (suites(part, 0, at + p + 2, o1), suites(part, 0, at + p + 2, o2));
    chained(bases, m1, m2, o1, o2, s1, s2);
    assert(added(bases, m1, m2, s1.end(), s2.end())) by {
        broadcast use keeping_alike;

    }
}

/// The compression methods, from position `q` to `r`.
pub open spec fn with_methods(b: Seq<u8>, q: int, r: int, at: int, m: Model) -> Model {
    methods(
        b.subrange(q + 1, r),
        0,
        at + q + 1,
        m.begin("tls.handshake.comp_methods"@, at + q + 1, at + r),
    ).end()
}

proof fn with_methods_agrees(
    bases: Bases,
    b: Seq<u8>,
    q: int,
    r: int,
    at: int,
    m1: Model,
    m2: Model,
)
    requires
        alike(bases, m1, m2),
        0 <= m1.trace.depth < 220,
    ensures
        added(bases, m1, m2, with_methods(b, q, r, at, m1), with_methods(b, q, r, at, m2)),
{
    let o1 = m1.begin("tls.handshake.comp_methods"@, at + q + 1, at + r);
    let o2 = m2.begin("tls.handshake.comp_methods"@, at + q + 1, at + r);
    assert(alike(bases, o1, o2) && carries(bases, m1, m2, o1, o2) && o1.trace.depth
        == m1.trace.depth + 1) by {
        broadcast use keeping_alike;

    }
    let part = b.subrange(q + 1, r);
    methods_agree(bases, part, 0, at + q + 1, o1, o2);
    let (s1, s2) = (methods(part, 0, at + q + 1, o1), methods(part, 0, at + q + 1, o2));
    chained(bases, m1, m2, o1, o2, s1, s2);
    assert(added(bases, m1, m2, s1.end(), s2.end())) by {
        broadcast use keeping_alike;

    }
}

proof fn leaf_added(
    bases: Bases,
    m1: Model,
    m2: Model,
    abbrev: Seq<char>,
    start: int,
    end: int,
    value: ValueView,
)
    requires
        alike(bases, m1, m2),
    ensures
        added(
            bases,
            m1,
            m2,
            m1.leaf(abbrev, start, end, value),
            m2.leaf(abbrev, start, end, value),
        ),
{
    broadcast use keeping_alike;

}

proof fn client_hello_agrees(bases: Bases, b: Seq<u8>, at: int, m1: Model, m2: Model)
    requires
        alike(bases, m1, m2),
        0 <= m1.trace.depth < 220,
    ensures
        read_alike(bases, m1, m2, client_hello(b, at, m1), client_hello(b, at, m2)),
{
    let n = b.len() as int;
    assert(carries(bases, m1, m2, m1, m2));
    if n >= 35 && n >= 35 + b[34] {
        let p = 35 + b[34];
        hello_agrees(bases, b, at, m1, m2);
        let (h1, h2) = (hello_fields(b, at, m1), hello_fields(b, at, m2));
        if n >= p + 2 {
            let cs = be16(b, p);
            let q = p + 2 + cs;
            let value = ValueView::Unsigned(cs as u64);
            let field = "tls.handshake.cipher_suites_length"@;
            leaf_added(bases, h1, h2, field, at + p, at + p + 2, value);
            let c1 = h1.leaf(field, at + p, at + p + 2, value);
            let c2 = h2.leaf(field, at + p, at + p + 2, value);
            chained(bases, m1, m2, h1, h2, c1, c2);
            if n >= q {
                with_suites_agrees(bases, b, p, q, at, cs, c1, c2);
                let s1 = with_suites(b, p, q, at, cs, c1);
                let s2 = with_suites(b, p, q, at, cs, c2);
                chained(bases, m1, m2, c1, c2, s1, s2);
                if n >= q + 1 {
                    let r = q + 1 + b[q];
                    let value = ValueView::Unsigned(b[q] as u64);
                    let field = "tls.handshake.comp_methods_length"@;
                    leaf_added(bases, s1, s2, field, at + q, at + q + 1, value);
                    let l1 = s1.leaf(field, at + q, at + q + 1, value);
                    let l2 = s2.leaf(field, at + q, at + q + 1, value);
                    chained(bases, m1, m2, s1, s2, l1, l2);
                    if n >= r {
                        with_methods_agrees(bases, b, q, r, at, l1, l2);
                        let w1 = with_methods(b, q, r, at, l1);
                        let w2 = with_methods(b, q, r, at, l2);
                        chained(bases, m1, m2, l1, l2, w1, w2);
                        extensions_agree(bases, b, r, at, w1, w2);
                        let (e1, e2) = (extensions(b, r, at, w1).0, extensions(b, r, at, w2).0);
                        chained(bases, m1, m2, w1, w2, e1, e2);
                    }
                }
            }
        }
    }
}

proof fn server_hello_agrees(bases: Bases, b: Seq<u8>, at: int, m1: Model, m2: Model)
    requires
        alike(bases, m1, m2),
        0 <= m1.trace.depth < 220,
    ensures
        read_alike(bases, m1, m2, server_hello(b, at, m1), server_hello(b, at, m2)),
{
    let n = b.len() as int;
    assert(carries(bases, m1, m2, m1, m2));
    if n >= 35 && n >= 35 + b[34] + 3 {
        let p = 35 + b[34];
        hello_agrees(bases, b, at, m1, m2);
        let (h1, h2) = (hello_fields(b, at, m1), hello_fields(b, at, m2));
        let value = ValueView::Unsigned(be16(b, p) as u64);
        let field = "tls.handshake.ciphersuite"@;
        leaf_added(bases, h1, h2, field, at + p, at + p + 2, value);
        let c1 = h1.leaf(field, at + p, at + p + 2, value);
        let c2 = h2.leaf(field, at + p, at + p + 2, value);
        chained(bases, m1, m2, h1, h2, c1, c2);
        let value = ValueView::Unsigned(b[p + 2] as u64);
        let field = "tls.handshake.comp_method"@;
        leaf_added(bases, c1, c2, field, at + p + 2, at + p + 3, value);
        let d1 = c1.leaf(field, at + p + 2, at + p + 3, value);
        let d2 = c2.leaf(field, at + p + 2, at + p + 3, value);
        chained(bases, m1, m2, c1, c2, d1, d2);
        extensions_agree(bases, b, p + 3, at, d1, d2);
        let (e1, e2) = (extensions(b, p + 3, at, d1).0, extensions(b, p + 3, at, d2).0);
        chained(bases, m1, m2, d1, d2, e1, e2);
    }
}

proof fn certificate_agrees(bases: Bases, b: Seq<u8>, at: int, m1: Model, m2: Model)
    requires
        alike(bases, m1, m2),
    ensures
        read_alike(bases, m1, m2, certificate(b, at, m1), certificate(b, at, m2)),
{
    let n = b.len() as int;
    if n >= 3 {
        let value = ValueView::Unsigned(be24(b, 0) as u64);
        let field = "tls.handshake.certificates_length"@;
        leaf_added(bases, m1, m2, field, at, at + 3, value);
        let (x1, x2) = (m1.leaf(field, at, at + 3, value), m2.leaf(field, at, at + 3, value));
        let part = b.subrange(3, 3 + least(be24(b, 0) as int, n - 3));
        certificates_agree(bases, part, 0, at + 3, x1, x2);
        let (y1, y2) = (certificates(part, 0, at + 3, x1), certificates(part, 0, at + 3, x2));
        chained(bases, m1, m2, x1, x2, y1, y2);
    }
}

proof fn handshake_body_agrees(bases: Bases, ty: u8, b: Seq<u8>, at: int, m1: Model, m2: Model)
    requires
        alike(bases, m1, m2),
        0 <= m1.trace.depth < 220,
    ensures
        read_alike(bases, m1, m2, handshake_body(ty, b, at, m1), handshake_body(ty, b, at, m2)),
{
    if ty == 1 {
        client_hello_agrees(bases, b, at, m1, m2);
    } else if ty == 2 {
        server_hello_agrees(bases, b, at, m1, m2);
    } else if ty == 11 {
        certificate_agrees(bases, b, at, m1, m2);
    } else {
        leaf_added(
            bases,
            m1,
            m2,
            "tls.handshake.encrypted"@,
            at,
            at + b.len(),
            ValueView::Bytes,
        );
    }
}

/// The row of a handshake message, open.
pub open spec fn handshake_head(b: Seq<u8>, i: int, p: int, name: Seq<char>, m: Model) -> Model {
    m.begin_text("tls.handshake"@, p, p, "Handshake Protocol: "@ + name).leaf(
        "tls.handshake.type"@,
        p,
        p + 1,
        ValueView::Unsigned(b[i] as u64),
    ).leaf("tls.handshake.length"@, p + 1, p + 4, ValueView::Unsigned(be24(b, i + 1) as u64))
}

proof fn handshake_agrees(
    bases: Bases,
    b: Seq<u8>,
    i: int,
    at: int,
    m1: Model,
    m2: Model,
    names: Seq<Seq<char>>,
)
    requires
        alike(bases, m1, m2),
        0 <= m1.trace.depth < 210,
    ensures
        added(
            bases,
            m1,
            m2,
            handshake(b, i, at, m1, names).0,
            handshake(b, i, at, m2, names).0,
        ),
        handshake(b, i, at, m1, names).1 == handshake(b, i, at, m2, names).1,
        handshake(b, i, at, m1, names).2 == handshake(b, i, at, m2, names).2,
    decreases b.len() - i,
{
    if 0 <= i && i + 4 <= b.len() {
        let p = at + i;
        let ty = b[i];
        let len = be24(b, i + 1) as int;
        if let Some(name) = named(TLS_HANDSHAKE_TYPES@, ty as u64) {
            let have = least(len, b.len() - i - 4);
            let end = p + 4 + have;
            let (n1, n2) = (m1.count(), m2.count());
            let (h1, h2) = (handshake_head(b, i, p, name, m1), handshake_head(b, i, p, name, m2));
            assert(alike(bases, h1, h2) && carries(bases, m1, m2, h1, h2) && level(
                bases,
                h1,
                n1,
                h2,
                n2,
            ) && n1 < h1.count() && n2 < h2.count() && h1.trace.depth == m1.trace.depth + 1
                && ends_by(h1, n1, end) && ends_by(h2, n2, end)) by {
                broadcast use keeping_alike;

            }
            alike_facts(bases, h1, h2);
            let part = b.subrange(i + 4, i + 4 + have);
            handshake_body_agrees(bases, ty, part, p + 4, h1, h2);
            let (a1, stop, e) = handshake_body(ty, part, p + 4, h1);
            let a2 = handshake_body(ty, part, p + 4, h2).0;
            let (w1, w2) = match e {
                Some(e) => (
                    a1.at_depth(h1.trace.depth).leaf_text(
                        "_ws.malformed"@,
                        stop,
                        end,
                        ValueView::Empty,
                        "[Malformed Packet: tls] "@ + e.message(),
                    ),
                    a2.at_depth(h1.trace.depth).leaf_text(
                        "_ws.malformed"@,
                        stop,
                        end,
                        ValueView::Empty,
                        "[Malformed Packet: tls] "@ + e.message(),
                    ),
                ),
                None => (a1, a2),
            };
            assert(alike(bases, w1, w2) && carries(bases, a1, a2, w1, w2) && w1.trace.depth
                == h1.trace.depth) by {
                broadcast use keeping_alike;

            }
            chained(bases, h1, h2, a1, a2, w1, w2);
            chained(bases, m1, m2, h1, h2, w1, w2);
            assert(level(bases, w1, n1, w2, n2));
            assert(ends_by(w1, n1, end) && ends_by(w2, n2, end));
            let (z1, z2) = (w1.end_at(n1, end), w2.end_at(n2, end));
            assert(added(bases, m1, m2, z1, z2)) by {
                broadcast use keeping_alike;

            }
            if len <= have {
                let more = names.push(name);
                handshake_agrees(bases, b, i + 4 + have, at, z1, z2, more);
                let y1 = handshake(b, i + 4 + have, at, z1, more).0;
                let y2 = handshake(b, i + 4 + have, at, z2, more).0;
                chained(bases, m1, m2, z1, z2, y1, y2);
            }
        }
    }
}

proof fn record_body_agrees(bases: Bases, ct: u8, b: Seq<u8>, at: int, m1: Model, m2: Model)
    requires
        alike(bases, m1, m2),
        0 <= m1.trace.depth < 210,
    ensures
        added(bases, m1, m2, record_body(ct, b, at, m1).0, record_body(ct, b, at, m2).0),
        record_body(ct, b, at, m1).1 == record_body(ct, b, at, m2).1,
{
    alike_facts(bases, m1, m2);
    if ct == 22 {
        handshake_agrees(bases, b, 0, at, m1, m2, Seq::empty());
        let (x1, stop, names) = handshake(b, 0, at, m1, Seq::empty());
        let x2 = handshake(b, 0, at, m2, Seq::empty()).0;
        let end = at + b.len();
        let field = "tls.handshake.encrypted"@;
        let y1 = x1.at_depth(m1.trace.depth).leaf(field, stop, end, ValueView::Bytes);
        let y2 = x2.at_depth(m1.trace.depth).leaf(field, stop, end, ValueView::Bytes);
        assert(added(bases, x1, x2, y1, y2)) by {
            broadcast use keeping_alike;

        }
        chained(bases, m1, m2, x1, x2, y1, y2);
    } else {
        broadcast use keeping_alike;

    }
}

/// The row of a record, open.
pub open spec fn record_head(d: Seq<u8>, i: int, p: int, m: Model) -> Model {
    m.begin("tls.record"@, p, p).leaf(
        "tls.record.content_type"@,
        p,
        p + 1,
        ValueView::Unsigned(d[i] as u64),
    ).leaf("tls.record.version"@, p + 1, p + 3, ValueView::Unsigned(be16(d, i + 1) as u64)).leaf(
        "tls.record.length"@,
        p + 3,
        p + 5,
        ValueView::Unsigned(be16(d, i + 3) as u64),
    )
}

proof fn records_agree(
    bases: Bases,
    k: nat,
    d: Seq<u8>,
    i: int,
    at: int,
    m1: Model,
    m2: Model,
    infos: Seq<Seq<char>>,
)
    requires
        alike(bases, m1, m2),
        0 <= m1.trace.depth < 205,
    ensures
        alike(bases, records(k, d, i, at, m1, infos).0, records(k, d, i, at, m2, infos).0),
        records(k, d, i, at, m1, infos).0.trace.depth == m1.trace.depth,
        records(k, d, i, at, m1, infos).1 == records(k, d, i, at, m2, infos).1,
        records(k, d, i, at, m1, infos).2 == records(k, d, i, at, m2, infos).2,
    decreases k,
{
    if k > 0 && i + 5 <= d.len() && resembles_tls(d.subrange(i, d.len() as int)) {
        let p = at + i;
        let (ct, ver, len) = (d[i], be16(d, i + 1), be16(d, i + 3));
        let kind = named_or(TLS_CONTENT_TYPES@, ct as u64, "Unknown"@);
        let left = d.len() - i - 5;
        let (n1, n2) = (m1.count(), m2.count());
        let (h1, h2) = (record_head(d, i, p, m1), record_head(d, i, p, m2));
        assert(alike(bases, h1, h2) && level(bases, h1, n1, h2, n2) && n1 < h1.count() && n2
            < h2.count() && h1.trace.depth == m1.trace.depth + 1 && ends_by(h1, n1, p + 5 + left)
            && ends_by(h2, n2, p + 5 + left) && ends_by(h1, n1, p + 5 + len) && ends_by(
            h2,
            n2,
            p + 5 + len,
        )) by {
            broadcast use keeping_alike;

        }
        if len > left {
            broadcast use keeping_alike;

        } else {
            let b = d.subrange(i + 5, i + 5 + len);
            record_body_agrees(bases, ct, b, p + 5, h1, h2);
            let (x1, what) = record_body(ct, b, p + 5, h1);
            let x2 = record_body(ct, b, p + 5, h2).0;
            assert(level(bases, x1, n1, x2, n2));
            assert(ends_by(x1, n1, p + 5 + len) && ends_by(x2, n2, p + 5 + len));
            let label = version_text(ver) + " Record Layer: "@ + kind + " Protocol: "@ + what;
            let z1 = x1.set_text(n1, label).end_at(n1, p + 5 + len);
            let z2 = x2.set_text(n2, label).end_at(n2, p + 5 + len);
            assert(alike(bases, z1, z2) && z1.trace.depth == m1.trace.depth) by {
                broadcast use keeping_alike;

            }
            records_agree(bases, (k - 1) as nat, d, i + 5 + len, at, z1, z2, infos.push(what));
        }
    }
}

proof fn shown_agrees(bases: Bases, d: Seq<u8>, m1: Model, m2: Model)
    requires
        alike(bases, m1, m2),
        0 <= m1.trace.depth < 204,
    ensures
        alike(bases, shown(d, m1), shown(d, m2)),
        shown(d, m1).trace.depth == m1.trace.depth,
{
    alike_facts(bases, m1, m2);
    let a = m1.base;
    let n = d.len() as int;
    let text = "Transport Layer Security"@;
    let x1 = m1.set_protocol("tls"@).begin_text("tls"@, a, a + n, text);
    let x2 = m2.set_protocol("tls"@).begin_text("tls"@, a, a + n, text);
    assert(alike(bases, x1, x2) && x1.trace.depth == m1.trace.depth + 1) by {
        broadcast use keeping_alike;

    }
    let k = MAX_RECORDS as nat;
    records_agree(bases, k, d, 0, a, x1, x2, Seq::empty());
    let (y1, i, infos) = records(k, d, 0, a, x1, Seq::empty());
    let y2 = records(k, d, 0, a, x2, Seq::empty()).0;
    let (z1, z2, told) = if i < n {
        (
            y1.leaf("tls.continuation_data"@, a + i, a + n, ValueView::Bytes),
            y2.leaf("tls.continuation_data"@, a + i, a + n, ValueView::Bytes),
            if infos.len() == 0 {
                infos.push("Continuation Data"@)
            } else {
                infos
            },
        )
    } else {
        (y1, y2, infos)
    };
    let w1 = z1.set_info(joined(told, ", "@)).end();
    let w2 = z2.set_info(joined(told, ", "@)).end();
    assert(alike(bases, w1, w2) && w1.trace.depth == m1.trace.depth) by {
        broadcast use keeping_alike;

    }
    assert(shown(d, m1) == w1 && shown(d, m2) == w2);
}

pub proof fn tls_agrees(bases: Bases, d: Seq<u8>, m1: Model, m2: Model)
    requires
        start_alike(bases, m1, m2),
    ensures
        agree(bases, m1.trace.depth, layer(d, m1), layer(d, m2)),
{
    alike_facts(bases, m1, m2);
    let a = m1.base;
    let n = d.len() as int;
    let w = whole_end(MAX_RECORDS as nat, d, 0);
    let rest = d.subrange(w, n);
    hold_alike(bases, m1, m2, rest, rest);
    hold_moves(m1, rest);
    let (h1, kept) = if is_unfinished(rest) {
        m1.hold(rest)
    } else {
        (m1, false)
    };
    let h2 = if is_unfinished(rest) {
        m2.hold(rest).0
    } else {
        m2
    };
    if kept {
        let (b1, b2) = if w > 0 {
            shown_agrees(bases, d.subrange(0, w), h1, h2);
            (shown(d.subrange(0, w), h1), shown(d.subrange(0, w), h2))
        } else {
            (h1, h2)
        };
        let value = ValueView::Unsigned(rest.len() as u64);
        let s1 = b1.begin_text("tls.segment"@, a + w, a + n, SEGMENT@).leaf(
            "tls.segment.len"@,
            0,
            0,
            value,
        ).end();
        let s2 = b2.begin_text("tls.segment"@, a + w, a + n, SEGMENT@).leaf(
            "tls.segment.len"@,
            0,
            0,
            value,
        ).end();
        assert(alike(bases, s1, s2) && s1.trace.depth == m1.trace.depth && alike(
            bases,
            s1.set_info(SEGMENT@),
            s2.set_info(SEGMENT@),
        ) && s1.set_info(SEGMENT@).trace.depth == m1.trace.depth) by {
            broadcast use keeping_alike;

        }
    } else {
        shown_agrees(bases, d, h1, h2);
    }
}

} // verus!
