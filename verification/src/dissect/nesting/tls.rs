//! TLS.

use vstd::prelude::*;

use super::ops::{keeping_nested, moving};
use super::{begins, closed_in, fits_all, kids, nests, opened, shut, wrote, wrote_on};
use crate::bytes::{be16, be24};
use crate::dissect::ctx::Model;
use crate::dissect::node::ValueView;
use crate::dissect::proto::tls::{
    alpn, bad_extension, certificate, certificates, client_hello, extension_body, extension_label,
    extension_rows, extensions, handshake, handshake_body, hello_fields, is_unfinished, layer,
    least, methods, protocol_names, record_body, records, resembles_tls, server_hello, server_name,
    server_names, shown, suites, supported_versions, version_text, versions, whole_end, Reading,
    CHOICE, HELLO, MAX_RECORDS,
};
use crate::dissect::proto::{cut, shortfall, stop_of, SEGMENT};
use crate::dissect::ranges::tls::whole_ends;
use crate::dissect::registry::{named, named_or};
use crate::dissect::reporting::tls::{
    extension_head, handshake_head, record_head, with_methods, with_suites,
};
use crate::dissect::tables::{TLS_CONTENT_TYPES, TLS_HANDSHAKE_TYPES};
use crate::text::{dec, joined, utf8_lossy};

verus! {

/// A part of a message that lies in `lo..hi`, and reading stopped in it.
spec fn reads(m: Model, r: Reading, lo: int, hi: int) -> bool {
    &&& wrote(m, r.0, lo, hi)
    &&& r.0.trace.depth >= m.trace.depth
    &&& r.2 is None ==> r.0.trace.depth == m.trace.depth
    &&& lo <= r.1
}

proof fn server_names_nest(l: Seq<u8>, i: int, at: int, m: Model, detail: Seq<char>)
    requires
        fits_all(m, at, at + l.len()),
    ensures
        closed_in(m, server_names(l, i, at, m, detail).0, at, at + l.len()),
    decreases l.len() - i,
{
    broadcast use {keeping_nested, moving};

    if 0 <= i && i + 3 <= l.len() && l.len() - i - 3 >= be16(l, i + 1) {
        let p = at + i;
        let len = be16(l, i + 1) as int;
        let name = utf8_lossy(l.subrange(i + 3, i + 3 + len));
        let x = m.leaf(
            "tls.handshake.extensions_server_name_type"@,
            p,
            p + 1,
            ValueView::Unsigned(l[i] as u64),
        ).leaf(
            "tls.handshake.extensions_server_name_len"@,
            p + 1,
            p + 3,
            ValueView::Unsigned(be16(l, i + 1) as u64),
        ).leaf("tls.handshake.extensions_server_name"@, p + 3, p + 3 + len, ValueView::Str(name));
        server_names_nest(l, i + 3 + len, at, x, if l[i] == 0 {
            "name="@ + name
        } else {
            detail
        });
    }
}

proof fn protocol_names_nest(l: Seq<u8>, i: int, at: int, m: Model, names: Seq<Seq<char>>)
    requires
        fits_all(m, at, at + l.len()),
    ensures
        closed_in(m, protocol_names(l, i, at, m, names).0, at, at + l.len()),
    decreases l.len() - i,
{
    broadcast use {keeping_nested, moving};

    if 0 <= i < l.len() && l.len() - i - 1 >= l[i] {
        let p = at + i;
        let len = l[i] as int;
        let name = utf8_lossy(l.subrange(i + 1, i + 1 + len));
        let x = m.leaf(
            "tls.handshake.extensions_alpn_str_len"@,
            p,
            p + 1,
            ValueView::Unsigned(l[i] as u64),
        ).leaf("tls.handshake.extensions_alpn_str"@, p + 1, p + 1 + len, ValueView::Str(name));
        protocol_names_nest(l, i + 1 + len, at, x, names.push(name));
    }
}

proof fn versions_nest(l: Seq<u8>, i: int, at: int, m: Model, names: Seq<Seq<char>>)
    requires
        fits_all(m, at, at + l.len()),
    ensures
        closed_in(m, versions(l, i, at, m, names).0, at, at + l.len()),
    decreases l.len() - i,
{
    broadcast use {keeping_nested, moving};

    if 0 <= i && i + 2 <= l.len() {
        let x = m.leaf(
            "tls.handshake.extensions.supported_version"@,
            at + i,
            at + i + 2,
            ValueView::Unsigned(be16(l, i) as u64),
        );
        versions_nest(l, i + 2, at, x, names.push(version_text(be16(l, i))));
    }
}

proof fn suites_nest(l: Seq<u8>, i: int, at: int, m: Model)
    requires
        fits_all(m, at, at + l.len()),
    ensures
        closed_in(m, suites(l, i, at, m), at, at + l.len()),
    decreases l.len() - i,
{
    broadcast use {keeping_nested, moving};

    if 0 <= i && i + 2 <= l.len() {
        let x = m.leaf(
            "tls.handshake.ciphersuite"@,
            at + i,
            at + i + 2,
            ValueView::Unsigned(be16(l, i) as u64),
        );
        suites_nest(l, i + 2, at, x);
    }
}

proof fn methods_nest(l: Seq<u8>, i: int, at: int, m: Model)
    requires
        fits_all(m, at, at + l.len()),
    ensures
        closed_in(m, methods(l, i, at, m), at, at + l.len()),
    decreases l.len() - i,
{
    broadcast use {keeping_nested, moving};

    if 0 <= i < l.len() {
        let x = m.leaf(
            "tls.handshake.comp_method"@,
            at + i,
            at + i + 1,
            ValueView::Unsigned(l[i] as u64),
        );
        methods_nest(l, i + 1, at, x);
    }
}

proof fn certificates_nest(l: Seq<u8>, i: int, at: int, m: Model)
    requires
        fits_all(m, at, at + l.len()),
    ensures
        closed_in(m, certificates(l, i, at, m), at, at + l.len()),
    decreases l.len() - i,
{
    broadcast use {keeping_nested, moving};

    if 0 <= i && i + 3 <= l.len() {
        let p = at + i;
        let len = be24(l, i);
        let have = least(len as int, l.len() - i - 3);
        let x = m.leaf(
            "tls.handshake.certificate_length"@,
            p,
            p + 3,
            ValueView::Unsigned(len as u64),
        ).leaf("tls.handshake.certificate"@, p + 3, p + 3 + have, ValueView::Bytes);
        certificates_nest(l, i + 3 + have, at, x);
    }
}

proof fn server_name_nests(b: Seq<u8>, at: int, m: Model)
    requires
        fits_all(m, at, at + b.len()),
    ensures
        reads(m, server_name(b, at, m).0, at, at + b.len()),
        server_name(b, at, m).0.0.trace.depth == m.trace.depth,
{
    let n = b.len() as int;
    let end = at + n;
    assert(wrote(m, m, at, end));
    if n >= 2 {
        let x = m.leaf(
            "tls.handshake.extensions_server_name_list_len"@,
            at,
            at + 2,
            ValueView::Unsigned(be16(b, 0) as u64),
        );
        assert(closed_in(m, x, at, end) && fits_all(x, at, end)) by {
            broadcast use {keeping_nested, moving};

        }
        let part = b.subrange(2, 2 + least(be16(b, 0) as int, n - 2));
        assert(fits_all(x, at + 2, at + 2 + part.len()));
        server_names_nest(part, 0, at + 2, x, ""@);
        let y = server_names(part, 0, at + 2, x, ""@).0;
        wrote_on(m, x, y, at, end, at + 2, at + 2 + part.len());
    }
}

proof fn alpn_nests(b: Seq<u8>, at: int, m: Model)
    requires
        fits_all(m, at, at + b.len()),
    ensures
        reads(m, alpn(b, at, m).0, at, at + b.len()),
        alpn(b, at, m).0.0.trace.depth == m.trace.depth,
{
    let n = b.len() as int;
    let end = at + n;
    assert(wrote(m, m, at, end));
    if n >= 2 {
        let x = m.leaf(
            "tls.handshake.extensions_alpn_len"@,
            at,
            at + 2,
            ValueView::Unsigned(be16(b, 0) as u64),
        );
        assert(closed_in(m, x, at, end) && fits_all(x, at, end)) by {
            broadcast use {keeping_nested, moving};

        }
        let part = b.subrange(2, 2 + least(be16(b, 0) as int, n - 2));
        assert(fits_all(x, at + 2, at + 2 + part.len()));
        protocol_names_nest(part, 0, at + 2, x, Seq::empty());
        let y = protocol_names(part, 0, at + 2, x, Seq::empty()).0;
        wrote_on(m, x, y, at, end, at + 2, at + 2 + part.len());
    }
}

proof fn supported_versions_nests(b: Seq<u8>, at: int, m: Model)
    requires
        fits_all(m, at, at + b.len()),
    ensures
        reads(m, supported_versions(b, at, m).0, at, at + b.len()),
        supported_versions(b, at, m).0.0.trace.depth == m.trace.depth,
{
    let n = b.len() as int;
    let end = at + n;
    assert(wrote(m, m, at, end));
    if n >= 1 {
        let x = m.leaf(
            "tls.handshake.extensions.supported_versions_len"@,
            at,
            at + 1,
            ValueView::Unsigned(b[0] as u64),
        );
        assert(closed_in(m, x, at, end) && fits_all(x, at, end)) by {
            broadcast use {keeping_nested, moving};

        }
        let part = b.subrange(1, 1 + least(b[0] as int, n - 1));
        assert(fits_all(x, at + 1, at + 1 + part.len()));
        versions_nest(part, 0, at + 1, x, Seq::empty());
        let y = versions(part, 0, at + 1, x, Seq::empty()).0;
        wrote_on(m, x, y, at, end, at + 1, at + 1 + part.len());
    }
    versions_nest(b, 0, at, m, Seq::empty());
}

proof fn extension_body_nests(ty: u16, b: Seq<u8>, at: int, m: Model)
    requires
        fits_all(m, at, at + b.len()),
    ensures
        reads(m, extension_body(ty, b, at, m).0, at, at + b.len()),
        extension_body(ty, b, at, m).0.0.trace.depth == m.trace.depth,
{
    if ty == 0 {
        server_name_nests(b, at, m);
    } else if ty == 16 {
        alpn_nests(b, at, m);
    } else if ty == 43 {
        supported_versions_nests(b, at, m);
    } else {
        broadcast use {keeping_nested, moving};

    }
}

proof fn extension_rows_nest(l: Seq<u8>, i: int, at: int, m: Model)
    requires
        fits_all(m, at, at + l.len()),
        m.trace.depth < 220,
    ensures
        closed_in(m, extension_rows(l, i, at, m), at, at + l.len()),
    decreases l.len() - i,
{
    let stop = at + l.len();
    assert(wrote(m, m, at, stop));
    if 0 <= i && i + 4 <= l.len() {
        let p = at + i;
        let (ty, len) = (be16(l, i), be16(l, i + 2));
        let id = m.count();
        let h = extension_head(l, i, p, m);
        assert(wrote(m, h, at, stop) && h.trace.depth == m.trace.depth + 1 && opened(
            h,
            m.trace.depth,
            id,
            m.source,
            p,
        ) && kids(h, id, m.source, p, p + 4) && fits_all(h, at, stop) && id < h.count()) by {
            broadcast use {keeping_nested, moving};

        }
        if l.len() - i - 4 < len {
            let e = cut(p + 4, len as int, l.len() - i - 4);
            let x = h.leaf_text(
                "_ws.malformed"@,
                p + 4,
                stop,
                ValueView::Empty,
                bad_extension(e),
            ).set_text(id, extension_label(ty, len, ""@));
            assert(kids(h, id, m.source, p, stop)) by {
                reveal(kids);
            }
            assert(wrote(m, x, at, stop) && x.trace.depth == m.trace.depth + 1 && opened(
                x,
                m.trace.depth,
                id,
                m.source,
                p,
            ) && kids(x, id, m.source, p, stop)) by {
                broadcast use {keeping_nested, moving};

            }
            shut(m, x, id, p, stop, at, stop);
        } else {
            let end = p + 4 + len;
            let b = l.subrange(i + 4, i + 4 + len);
            assert(fits_all(h, p + 4, p + 4 + b.len()));
            extension_body_nests(ty, b, p + 4, h);
            let ((a, at_stop, e), detail) = extension_body(ty, b, p + 4, h);
            let w = match e {
                Some(e) => a.at_depth(h.trace.depth).leaf_text(
                    "_ws.malformed"@,
                    at_stop,
                    end,
                    ValueView::Empty,
                    bad_extension(e),
                ),
                None => a,
            };
            assert(fits_all(a, at, stop));
            assert(closed_in(a, w, p + 4, end)) by {
                broadcast use {keeping_nested, moving};

            }
            wrote_on(h, a, w, p + 4, end, p + 4, end);
            assert(kids(h, id, m.source, p, end)) by {
                reveal(kids);
            }
            wrote_on(m, h, w, at, stop, p + 4, end);
            assert(kids(w, id, m.source, p, end));
            assert(opened(w, m.trace.depth, id, m.source, p));
            let z = w.set_text(id, extension_label(ty, len, detail));
            assert(wrote(m, z, at, stop) && z.trace.depth == m.trace.depth + 1 && opened(
                z,
                m.trace.depth,
                id,
                m.source,
                p,
            ) && kids(z, id, m.source, p, end)) by {
                broadcast use {keeping_nested, moving};

            }
            shut(m, z, id, p, end, at, stop);
            let next = z.end_at(id, end);
            assert(fits_all(next, at, stop));
            extension_rows_nest(l, i + 4 + len, at, next);
            let y = extension_rows(l, i + 4 + len, at, next);
            wrote_on(m, next, y, at, stop, at, stop);
        }
    }
}

proof fn extensions_nest(b: Seq<u8>, i: int, at: int, m: Model)
    requires
        fits_all(m, at, at + b.len()),
        m.trace.depth < 220,
        0 <= i <= b.len(),
    ensures
        reads(m, extensions(b, i, at, m), at, at + b.len()),
{
    let end = at + b.len();
    assert(wrote(m, m, at, end));
    if b.len() - i >= 2 {
        let value = ValueView::Unsigned(be16(b, i) as u64);
        let x = m.leaf("tls.handshake.extensions_length"@, at + i, at + i + 2, value);
        assert(closed_in(m, x, at, end) && fits_all(x, at, end)) by {
            broadcast use {keeping_nested, moving};

        }
        let part = b.subrange(i + 2, i + 2 + least(be16(b, i) as int, b.len() - i - 2));
        assert(fits_all(x, at + i + 2, at + i + 2 + part.len()));
        extension_rows_nest(part, 0, at + i + 2, x);
        let y = extension_rows(part, 0, at + i + 2, x);
        wrote_on(m, x, y, at, end, at + i + 2, at + i + 2 + part.len());
    }
}

proof fn hello_nests(b: Seq<u8>, at: int, m: Model)
    requires
        fits_all(m, at, at + b.len()),
        35 <= b.len(),
        35 + b[34] <= b.len(),
    ensures
        closed_in(m, hello_fields(b, at, m), at, at + b.len()),
{
    broadcast use {keeping_nested, moving};

}

proof fn with_suites_nests(b: Seq<u8>, p: int, q: int, at: int, cs: u16, m: Model)
    requires
        fits_all(m, at, at + b.len()),
        m.trace.depth < 220,
        0 <= p,
        p + 2 <= q <= b.len(),
    ensures
        closed_in(m, with_suites(b, p, q, at, cs, m), at, at + b.len()),
{
    let end = at + b.len();
    let text = "Cipher Suites ("@ + dec((cs / 2) as int) + " suites)"@;
    let o = m.begin_text("tls.handshake.ciphersuites"@, at + p + 2, at + q, text);
    assert(wrote(m, o, at, end) && o.trace.depth == m.trace.depth + 1 && fits_all(
        o,
        at + p + 2,
        at + q,
    )) by {
        broadcast use {keeping_nested, moving};

    }
    let part = b.subrange(p + 2, q);
    suites_nest(part, 0, at + p + 2, o);
    let s = suites(part, 0, at + p + 2, o);
    wrote_on(m, o, s, at, end, at + p + 2, at + q);
    assert(closed_in(m, s.end(), at, end)) by {
        broadcast use {keeping_nested, moving};

    }
}

proof fn with_methods_nests(b: Seq<u8>, q: int, r: int, at: int, m: Model)
    requires
        fits_all(m, at, at + b.len()),
        m.trace.depth < 220,
        0 <= q,
        q + 1 <= r <= b.len(),
    ensures
        closed_in(m, with_methods(b, q, r, at, m), at, at + b.len()),
{
    let end = at + b.len();
    let o = m.begin("tls.handshake.comp_methods"@, at + q + 1, at + r);
    assert(wrote(m, o, at, end) && o.trace.depth == m.trace.depth + 1 && fits_all(
        o,
        at + q + 1,
        at + r,
    )) by {
        broadcast use {keeping_nested, moving};

    }
    let part = b.subrange(q + 1, r);
    methods_nest(part, 0, at + q + 1, o);
    let s = methods(part, 0, at + q + 1, o);
    wrote_on(m, o, s, at, end, at + q + 1, at + r);
    assert(closed_in(m, s.end(), at, end)) by {
        broadcast use {keeping_nested, moving};

    }
}

proof fn leaf_nests(
    m: Model,
    abbrev: Seq<char>,
    start: int,
    end: int,
    value: ValueView,
    lo: int,
    hi: int,
)
    requires
        fits_all(m, lo, hi),
        lo <= start,
        end <= hi,
    ensures
        closed_in(m, m.leaf(abbrev, start, end, value), lo, hi),
        fits_all(m.leaf(abbrev, start, end, value), lo, hi),
{
    broadcast use {keeping_nested, moving};

}

proof fn stop_behind(at: int, left: int, widths: Seq<usize>)
    requires
        0 <= at,
        0 <= left,
        at + left <= usize::MAX,
    ensures
        at <= stop_of(shortfall(at, left, widths)),
    decreases widths.len(),
{
    if widths.len() > 1 && left >= widths[0] {
        stop_behind(at + widths[0], left - widths[0], widths.drop_first());
    }
}

proof fn client_hello_nests(b: Seq<u8>, at: int, m: Model)
    requires
        fits_all(m, at, at + b.len()),
        m.trace.depth < 220,
        0 <= at,
        at + b.len() <= usize::MAX,
    ensures
        reads(m, client_hello(b, at, m), at, at + b.len()),
{
    let n = b.len() as int;
    let end = at + n;
    assert(wrote(m, m, at, end));
    stop_behind(at, n, HELLO@);
    if n >= 35 && n >= 35 + b[34] {
        let p = 35 + b[34];
        hello_nests(b, at, m);
        let h = hello_fields(b, at, m);
        assert(fits_all(h, at, end));
        if n >= p + 2 {
            let cs = be16(b, p);
            let q = p + 2 + cs;
            let value = ValueView::Unsigned(cs as u64);
            let field = "tls.handshake.cipher_suites_length"@;
            leaf_nests(h, field, at + p, at + p + 2, value, at, end);
            let c = h.leaf(field, at + p, at + p + 2, value);
            wrote_on(m, h, c, at, end, at, end);
            if n >= q {
                with_suites_nests(b, p, q, at, cs, c);
                let s = with_suites(b, p, q, at, cs, c);
                wrote_on(m, c, s, at, end, at, end);
                assert(fits_all(s, at, end));
                if n >= q + 1 {
                    let r = q + 1 + b[q];
                    let value = ValueView::Unsigned(b[q] as u64);
                    let field = "tls.handshake.comp_methods_length"@;
                    leaf_nests(s, field, at + q, at + q + 1, value, at, end);
                    let l = s.leaf(field, at + q, at + q + 1, value);
                    wrote_on(m, s, l, at, end, at, end);
                    if n >= r {
                        with_methods_nests(b, q, r, at, l);
                        let w = with_methods(b, q, r, at, l);
                        wrote_on(m, l, w, at, end, at, end);
                        assert(fits_all(w, at, end));
                        extensions_nest(b, r, at, w);
                        let e = extensions(b, r, at, w);
                        wrote_on(m, w, e.0, at, end, at, end);
                    }
                }
            }
        }
    }
}

proof fn server_hello_nests(b: Seq<u8>, at: int, m: Model)
    requires
        fits_all(m, at, at + b.len()),
        m.trace.depth < 220,
        0 <= at,
        at + b.len() <= usize::MAX,
    ensures
        reads(m, server_hello(b, at, m), at, at + b.len()),
{
    let n = b.len() as int;
    let end = at + n;
    assert(wrote(m, m, at, end));
    stop_behind(at, n, HELLO@);
    if n >= 35 && n >= 35 + b[34] {
        let p = 35 + b[34];
        stop_behind(at + p, n - p, CHOICE@);
        if n >= p + 3 {
            hello_nests(b, at, m);
            let h = hello_fields(b, at, m);
            assert(fits_all(h, at, end));
            let value = ValueView::Unsigned(be16(b, p) as u64);
            let field = "tls.handshake.ciphersuite"@;
            leaf_nests(h, field, at + p, at + p + 2, value, at, end);
            let c = h.leaf(field, at + p, at + p + 2, value);
            wrote_on(m, h, c, at, end, at, end);
            let value = ValueView::Unsigned(b[p + 2] as u64);
            let field = "tls.handshake.comp_method"@;
            leaf_nests(c, field, at + p + 2, at + p + 3, value, at, end);
            let d = c.leaf(field, at + p + 2, at + p + 3, value);
            wrote_on(m, c, d, at, end, at, end);
            extensions_nest(b, p + 3, at, d);
            let e = extensions(b, p + 3, at, d);
            wrote_on(m, d, e.0, at, end, at, end);
        }
    }
}

proof fn certificate_nests(b: Seq<u8>, at: int, m: Model)
    requires
        fits_all(m, at, at + b.len()),
    ensures
        reads(m, certificate(b, at, m), at, at + b.len()),
{
    let n = b.len() as int;
    let end = at + n;
    assert(wrote(m, m, at, end));
    if n >= 3 {
        let value = ValueView::Unsigned(be24(b, 0) as u64);
        let field = "tls.handshake.certificates_length"@;
        leaf_nests(m, field, at, at + 3, value, at, end);
        let x = m.leaf(field, at, at + 3, value);
        let part = b.subrange(3, 3 + least(be24(b, 0) as int, n - 3));
        assert(fits_all(x, at + 3, at + 3 + part.len()));
        certificates_nest(part, 0, at + 3, x);
        let y = certificates(part, 0, at + 3, x);
        wrote_on(m, x, y, at, end, at + 3, at + 3 + part.len());
    }
}

proof fn handshake_body_nests(ty: u8, b: Seq<u8>, at: int, m: Model)
    requires
        fits_all(m, at, at + b.len()),
        m.trace.depth < 220,
        0 <= at,
        at + b.len() <= usize::MAX,
    ensures
        reads(m, handshake_body(ty, b, at, m), at, at + b.len()),
{
    if ty == 1 {
        client_hello_nests(b, at, m);
    } else if ty == 2 {
        server_hello_nests(b, at, m);
    } else if ty == 11 {
        certificate_nests(b, at, m);
    } else {
        let end = at + b.len();
        assert(wrote(m, m, at, end));
        leaf_nests(m, "tls.handshake.encrypted"@, at, end, ValueView::Bytes, at, end);
    }
}

proof fn handshake_nests(b: Seq<u8>, i: int, at: int, m: Model, names: Seq<Seq<char>>)
    requires
        fits_all(m, at, at + b.len()),
        m.trace.depth < 210,
        0 <= i <= b.len(),
        0 <= at,
        at + b.len() <= usize::MAX,
    ensures
        closed_in(m, handshake(b, i, at, m, names).0, at, at + b.len()),
        at <= handshake(b, i, at, m, names).1,
    decreases b.len() - i,
{
    let stop = at + b.len();
    assert(wrote(m, m, at, stop));
    if i + 4 <= b.len() {
        let p = at + i;
        let ty = b[i];
        let len = be24(b, i + 1) as int;
        if let Some(name) = named(TLS_HANDSHAKE_TYPES@, ty as u64) {
            let have = least(len, b.len() - i - 4);
            let end = p + 4 + have;
            let id = m.count();
            let h = handshake_head(b, i, p, name, m);
            assert(wrote(m, h, at, stop) && h.trace.depth == m.trace.depth + 1 && opened(
                h,
                m.trace.depth,
                id,
                m.source,
                p,
            ) && kids(h, id, m.source, p, p + 4) && fits_all(h, at, stop)) by {
                broadcast use {keeping_nested, moving};

            }
            let part = b.subrange(i + 4, i + 4 + have);
            assert(fits_all(h, p + 4, p + 4 + part.len()));
            handshake_body_nests(ty, part, p + 4, h);
            let (a, at_stop, e) = handshake_body(ty, part, p + 4, h);
            let w = match e {
                Some(e) => a.at_depth(h.trace.depth).leaf_text(
                    "_ws.malformed"@,
                    at_stop,
                    end,
                    ValueView::Empty,
                    "[Malformed Packet: tls] "@ + e.message(),
                ),
                None => a,
            };
            assert(wrote(h, w, p + 4, end) && w.trace.depth == h.trace.depth) by {
                assert(wrote(h, a, p + 4, end));
                broadcast use {keeping_nested, moving};

            }
            assert(kids(h, id, m.source, p, end)) by {
                reveal(kids);
            }
            wrote_on(m, h, w, at, stop, p + 4, end);
            assert(kids(w, id, m.source, p, end));
            assert(opened(w, m.trace.depth, id, m.source, p));
            shut(m, w, id, p, end, at, stop);
            let z = w.end_at(id, end);
            if len <= have {
                assert(fits_all(z, at, stop));
                handshake_nests(b, i + 4 + have, at, z, names.push(name));
                let y = handshake(b, i + 4 + have, at, z, names.push(name)).0;
                wrote_on(m, z, y, at, stop, at, stop);
            }
        }
    }
}

proof fn record_body_nests(ct: u8, b: Seq<u8>, at: int, m: Model)
    requires
        fits_all(m, at, at + b.len()),
        m.trace.depth < 210,
        0 <= at,
        at + b.len() <= usize::MAX,
    ensures
        closed_in(m, record_body(ct, b, at, m).0, at, at + b.len()),
{
    let end = at + b.len();
    if ct == 22 {
        handshake_nests(b, 0, at, m, Seq::empty());
        let (x, stop, names) = handshake(b, 0, at, m, Seq::empty());
        assert(fits_all(x, at, end));
        let y = x.at_depth(m.trace.depth).leaf(
            "tls.handshake.encrypted"@,
            stop,
            end,
            ValueView::Bytes,
        );
        assert(closed_in(m, y, at, end)) by {
            broadcast use {keeping_nested, moving};

        }
    } else {
        broadcast use {keeping_nested, moving};

    }
}

proof fn records_nest(k: nat, d: Seq<u8>, i: int, at: int, m: Model, infos: Seq<Seq<char>>)
    requires
        fits_all(m, at, at + d.len()),
        m.trace.depth < 205,
        0 <= i <= d.len(),
        0 <= at,
        at + d.len() <= usize::MAX,
    ensures
        closed_in(m, records(k, d, i, at, m, infos).0, at, at + d.len()),
        i <= records(k, d, i, at, m, infos).1 <= d.len(),
    decreases k,
{
    let stop = at + d.len();
    assert(wrote(m, m, at, stop));
    if k > 0 && i + 5 <= d.len() && resembles_tls(d.subrange(i, d.len() as int)) {
        let p = at + i;
        let (ct, ver, len) = (d[i], be16(d, i + 1), be16(d, i + 3));
        let kind = named_or(TLS_CONTENT_TYPES@, ct as u64, "Unknown"@);
        let left = d.len() - i - 5;
        let id = m.count();
        let h = record_head(d, i, p, m);
        assert(wrote(m, h, at, stop) && h.trace.depth == m.trace.depth + 1 && opened(
            h,
            m.trace.depth,
            id,
            m.source,
            p,
        ) && kids(h, id, m.source, p, p + 5) && fits_all(h, at, stop) && id < h.count()) by {
            broadcast use {keeping_nested, moving};

        }
        if len > left {
            let end = p + 5 + left;
            let x = h.leaf("tls.continuation_data"@, p + 5, end, ValueView::Bytes).set_text(
                id,
                version_text(ver) + ": "@ + kind + " Protocol (fragment, "@ + dec(left) + " of "@
                    + dec(len as int) + " bytes)"@,
            );
            assert(kids(h, id, m.source, p, end)) by {
                reveal(kids);
            }
            assert(wrote(m, x, at, stop) && x.trace.depth == m.trace.depth + 1 && opened(
                x,
                m.trace.depth,
                id,
                m.source,
                p,
            ) && kids(x, id, m.source, p, end)) by {
                broadcast use {keeping_nested, moving};

            }
            shut(m, x, id, p, end, at, stop);
        } else {
            let end = p + 5 + len;
            let b = d.subrange(i + 5, i + 5 + len);
            assert(fits_all(h, p + 5, p + 5 + b.len()));
            record_body_nests(ct, b, p + 5, h);
            let (x, what) = record_body(ct, b, p + 5, h);
            assert(kids(h, id, m.source, p, end)) by {
                reveal(kids);
            }
            wrote_on(m, h, x, at, stop, p + 5, end);
            assert(kids(x, id, m.source, p, end));
            assert(opened(x, m.trace.depth, id, m.source, p));
            let label = version_text(ver) + " Record Layer: "@ + kind + " Protocol: "@ + what;
            let y = x.set_text(id, label);
            assert(wrote(m, y, at, stop) && y.trace.depth == m.trace.depth + 1 && opened(
                y,
                m.trace.depth,
                id,
                m.source,
                p,
            ) && kids(y, id, m.source, p, end)) by {
                broadcast use {keeping_nested, moving};

            }
            shut(m, y, id, p, end, at, stop);
            let z = y.end_at(id, end);
            assert(fits_all(z, at, stop));
            records_nest((k - 1) as nat, d, i + 5 + len, at, z, infos.push(what));
            let w = records((k - 1) as nat, d, i + 5 + len, at, z, infos.push(what)).0;
            wrote_on(m, z, w, at, stop, at, stop);
        }
    }
}

proof fn shown_nests(d: Seq<u8>, m: Model)
    requires
        fits_all(m, m.base, m.base + d.len()),
        m.trace.depth < 204,
        0 <= m.base,
        m.base + d.len() <= usize::MAX,
    ensures
        closed_in(m, shown(d, m), m.base, m.base + d.len()),
{
    let a = m.base;
    let n = d.len() as int;
    let x = m.set_protocol("tls"@).begin_text("tls"@, a, a + n, "Transport Layer Security"@);
    assert(wrote(m, x, a, a + n) && x.trace.depth == m.trace.depth + 1 && fits_all(
        x,
        a,
        a + n,
    )) by {
        broadcast use {keeping_nested, moving};

    }
    let k = MAX_RECORDS as nat;
    records_nest(k, d, 0, a, x, Seq::empty());
    let (y, i, infos) = records(k, d, 0, a, x, Seq::empty());
    wrote_on(m, x, y, a, a + n, a, a + n);
    assert(fits_all(y, a, a + n));
    let (z, told) = if i < n {
        (
            y.leaf("tls.continuation_data"@, a + i, a + n, ValueView::Bytes),
            if infos.len() == 0 {
                infos.push("Continuation Data"@)
            } else {
                infos
            },
        )
    } else {
        (y, infos)
    };
    let w = z.set_info(joined(told, ", "@)).end();
    assert(closed_in(m, w, a, a + n)) by {
        broadcast use {keeping_nested, moving};

    }
    assert(shown(d, m) == w);
}

pub proof fn tls_nests(d: Seq<u8>, m: Model)
    requires
        begins(d, m),
        m.base + d.len() <= usize::MAX,
    ensures
        nests(d, m, layer(d, m)),
{
    let a = m.base;
    let n = d.len() as int;
    let w = whole_end(MAX_RECORDS as nat, d, 0);
    whole_ends(MAX_RECORDS as nat, d, 0);
    let rest = d.subrange(w, n);
    let (h, kept) = if is_unfinished(rest) {
        m.hold(rest)
    } else {
        (m, false)
    };
    assert(closed_in(m, h, a, a + n) && h.base == a) by {
        broadcast use {keeping_nested, moving};

    }
    assert(fits_all(h, a, a + n));
    if kept {
        let part = d.subrange(0, w);
        let b = if w > 0 {
            assert(fits_all(h, a, a + part.len()));
            shown_nests(part, h);
            wrote_on(m, h, shown(part, h), a, a + n, a, a + w);
            shown(part, h)
        } else {
            h
        };
        assert(closed_in(m, b, a, a + n) && fits_all(b, a, a + n));
        let s = b.begin_text("tls.segment"@, a + w, a + n, SEGMENT@).leaf(
            "tls.segment.len"@,
            0,
            0,
            ValueView::Unsigned(rest.len() as u64),
        ).end();
        assert(wrote(m, s, a, a + n) && wrote(m, s.set_info(SEGMENT@), a, a + n)) by {
            broadcast use {keeping_nested, moving};

        }
    } else {
        shown_nests(d, h);
        wrote_on(m, h, shown(d, h), a, a + n, a, a + n);
    }
}

} // verus!
