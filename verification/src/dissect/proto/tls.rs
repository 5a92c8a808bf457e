//! TLS record layer (RFC 8446, section 5) with ClientHello / ServerHello
//! parsing: version, random, session id, cipher suites, and the SNI, ALPN and
//! supported_versions extensions. No decryption.
//!
//! A record that goes on in the next segment is held by the TCP layer until
//! the rest of it arrives, so that a ClientHello split across segments is read
//! whole. What cannot be held is shown as far as it goes.

use vstd::prelude::*;

use crate::bytes;
use crate::bytes::{be16, be24, get_be16, get_be24};
use crate::dissect::ctx::{Ctx, Model};
use crate::dissect::cursor::DissectError;
use crate::dissect::node::{Value, ValueView};
use crate::dissect::registry::{enum_name, enum_name_or, named, named_or};
use crate::dissect::tables::{
    TLS_ALERT_DESCS, TLS_CONTENT_TYPES, TLS_EXTENSIONS, TLS_HANDSHAKE_TYPES, TLS_VERSIONS,
};
use crate::text;
use crate::text::{dec, hex_pad, joined, texts, utf8_lossy};

use super::{
    addressable, cut, error_of, first_short, shortfall, stop_at, stop_of, Outcome, SEGMENT,
};

verus! {

/// Widths of the first fields of a hello.
pub const HELLO: [usize; 3] = [2, 32, 1];

/// Widths of what the server chose.
pub const CHOICE: [usize; 2] = [2, 1];

/// The most records shown in one layer.
pub const MAX_RECORDS: usize = 64;

/// A plausible record header.
pub open spec fn resembles_tls(p: Seq<u8>) -> bool {
    p.len() >= 3 && 20 <= p[0] <= 24 && p[1] == 3 && p[2] <= 4
}

/// Cheap heuristic used by TCP for dispatch: a plausible record header.
pub fn looks_like_tls(payload: &[u8]) -> (r: bool)
    ensures
        r == resembles_tls(payload@),
{
    payload.len() >= 3 && 20 <= payload[0] && payload[0] <= 24 && payload[1] == 3 && payload[2] <= 4
}

/// A protocol version as shown.
pub open spec fn version_text(v: u16) -> Seq<char> {
    match named(TLS_VERSIONS@, v as u64) {
        Some(s) => s,
        None => "0x"@ + hex_pad(v as int, 4),
    }
}

fn version_name(v: u16) -> (r: String)
    ensures
        r@ == version_text(v),
{
    match enum_name(&TLS_VERSIONS, v as u64) {
        Some(s) => text::owned(s),
        None => {
            let mut out: String = text::owned("0x");
            text::push_hex(&mut out, v as u64, 4);
            out
        },
    }
}

/// What reading a message came to: the frame, the absolute offset where
/// reading stopped, and the error if it was cut short.
pub type Reading = (Model, int, Option<DissectError>);

// ---- extension bodies -----------------------------------------------------------

/// The server names in `l` from `i` on, and what the extension's label says.
pub open spec fn server_names(l: Seq<u8>, i: int, at: int, m: Model, detail: Seq<char>) -> (
    Model,
    Option<DissectError>,
    Seq<char>,
)
    decreases l.len() - i,
{
    let p = at + i;
    if i < 0 || i + 3 > l.len() {
        (m, None, detail)
    } else {
        let len = be16(l, i + 1) as int;
        let left = l.len() - i - 3;
        if left < len {
            (m, Some(cut(p + 3, len, left)), detail)
        } else {
            let name = utf8_lossy(l.subrange(i + 3, i + 3 + len));
            server_names(
                l,
                i + 3 + len,
                at,
                m.leaf(
                    "tls.handshake.extensions_server_name_type"@,
                    p,
                    p + 1,
                    ValueView::Unsigned(l[i] as u64),
                ).leaf(
                    "tls.handshake.extensions_server_name_len"@,
                    p + 1,
                    p + 3,
                    ValueView::Unsigned(be16(l, i + 1) as u64),
                ).leaf(
                    "tls.handshake.extensions_server_name"@,
                    p + 3,
                    p + 3 + len,
                    ValueView::Str(name),
                ),
                if l[i] == 0 {
                    "name="@ + name
                } else {
                    detail
                },
            )
        }
    }
}

fn write_names(l: &[u8], at: usize, ctx: &mut Ctx, detail: &mut String) -> (r: Option<DissectError>)
    requires
        at + l@.len() <= usize::MAX,
    ensures
        (final(ctx)@, r, final(detail)@) == server_names(
            l@,
            0,
            at as int,
            old(ctx)@,
            old(detail)@,
        ),
        final(ctx)@.count() >= old(ctx)@.count(),
        final(ctx)@.base == old(ctx)@.base,
{
    let mut i: usize = 0;
    while l.len() - i >= 3
        invariant
            i <= l@.len(),
            at + l@.len() <= usize::MAX,
            ctx@.count() >= old(ctx)@.count(),
            ctx@.base == old(ctx)@.base,
            server_names(l@, 0, at as int, old(ctx)@, old(detail)@) == server_names(
                l@,
                i as int,
                at as int,
                ctx@,
                detail@,
            ),
        decreases l.len() - i,
    {
        let p: usize = at + i;
        let len: usize = get_be16(l, i + 1) as usize;
        let left: usize = l.len() - i - 3;
        if left < len {
            return Some(DissectError::Truncated { at: p + 3, need: len, have: left });
        }
        let _ = ctx.leaf(
            "tls.handshake.extensions_server_name_type",
            p..p + 1,
            Value::Unsigned(l[i] as u64),
        );
        let _ = ctx.leaf(
            "tls.handshake.extensions_server_name_len",
            p + 1..p + 3,
            Value::Unsigned(get_be16(l, i + 1) as u64),
        );
        let name: String = text::from_utf8_lossy(bytes::part(l, i + 3, i + 3 + len));
        if l[i] == 0 {
            *detail = text::cat("name=", name.as_str());
        }
        let _ = ctx.leaf(
            "tls.handshake.extensions_server_name",
            p + 3..p + 3 + len,
            Value::Str(name),
        );
        i = i + 3 + len;
    }
    None
}

/// The smaller of two numbers.
pub open spec fn least(a: int, b: int) -> int {
    if a < b {
        a
    } else {
        b
    }
}

fn lesser(a: usize, b: usize) -> (r: usize)
    ensures
        r == least(a as int, b as int),
{
    if a < b {
        a
    } else {
        b
    }
}

/// The server name extension. A ServerHello echoes an empty one.
pub open spec fn server_name(b: Seq<u8>, at: int, m: Model) -> (Reading, Seq<char>) {
    let n = b.len() as int;
    if n == 0 {
        ((m, at, None), ""@)
    } else if n < 2 {
        ((m, at, Some(cut(at, 2, n))), ""@)
    } else {
        let m = m.leaf(
            "tls.handshake.extensions_server_name_list_len"@,
            at,
            at + 2,
            ValueView::Unsigned(be16(b, 0) as u64),
        );
        let l = least(be16(b, 0) as int, n - 2);
        let (m, e, detail) = server_names(b.subrange(2, 2 + l), 0, at + 2, m, ""@);
        ((m, at + 2 + l, e), detail)
    }
}

/// The protocol names in `l` from `i` on.
pub open spec fn protocol_names(
    l: Seq<u8>,
    i: int,
    at: int,
    m: Model,
    names: Seq<Seq<char>>,
) -> (Model, Option<DissectError>, Seq<Seq<char>>)
    decreases l.len() - i,
{
    let p = at + i;
    if i < 0 || i >= l.len() {
        (m, None, names)
    } else {
        let len = l[i] as int;
        let left = l.len() - i - 1;
        if left < len {
            (m, Some(cut(p + 1, len, left)), names)
        } else {
            let name = utf8_lossy(l.subrange(i + 1, i + 1 + len));
            protocol_names(
                l,
                i + 1 + len,
                at,
                m.leaf(
                    "tls.handshake.extensions_alpn_str_len"@,
                    p,
                    p + 1,
                    ValueView::Unsigned(l[i] as u64),
                ).leaf(
                    "tls.handshake.extensions_alpn_str"@,
                    p + 1,
                    p + 1 + len,
                    ValueView::Str(name),
                ),
                names.push(name),
            )
        }
    }
}

fn write_protocols(l: &[u8], at: usize, ctx: &mut Ctx, names: &mut Vec<String>) -> (r: Option<
    DissectError,
>)
    requires
        at + l@.len() <= usize::MAX,
    ensures
        (final(ctx)@, r, texts(final(names)@)) == protocol_names(
            l@,
            0,
            at as int,
            old(ctx)@,
            texts(old(names)@),
        ),
        final(ctx)@.count() >= old(ctx)@.count(),
        final(ctx)@.base == old(ctx)@.base,
{
    let mut i: usize = 0;
    while i < l.len()
        invariant
            i <= l@.len(),
            at + l@.len() <= usize::MAX,
            ctx@.count() >= old(ctx)@.count(),
            ctx@.base == old(ctx)@.base,
            protocol_names(l@, 0, at as int, old(ctx)@, texts(old(names)@)) == protocol_names(
                l@,
                i as int,
                at as int,
                ctx@,
                texts(names@),
            ),
        decreases l.len() - i,
    {
        let p: usize = at + i;
        let len: usize = l[i] as usize;
        let left: usize = l.len() - i - 1;
        if left < len {
            return Some(DissectError::Truncated { at: p + 1, need: len, have: left });
        }
        let _ = ctx.leaf(
            "tls.handshake.extensions_alpn_str_len",
            p..p + 1,
            Value::Unsigned(l[i] as u64),
        );
        let name: String = text::from_utf8_lossy(bytes::part(l, i + 1, i + 1 + len));
        text::push_text(names, text::owned(name.as_str()));
        let _ = ctx.leaf(
            "tls.handshake.extensions_alpn_str",
            p + 1..p + 1 + len,
            Value::Str(name),
        );
        i = i + 1 + len;
    }
    None
}

/// The application protocol extension.
pub open spec fn alpn(b: Seq<u8>, at: int, m: Model) -> (Reading, Seq<char>) {
    let n = b.len() as int;
    if n < 2 {
        ((m, at, Some(cut(at, 2, n))), ""@)
    } else {
        let m = m.leaf(
            "tls.handshake.extensions_alpn_len"@,
            at,
            at + 2,
            ValueView::Unsigned(be16(b, 0) as u64),
        );
        let l = least(be16(b, 0) as int, n - 2);
        let (m, e, names) = protocol_names(b.subrange(2, 2 + l), 0, at + 2, m, Seq::empty());
        if e is Some {
            ((m, at + 2 + l, e), ""@)
        } else {
            ((m, at + 2 + l, None), joined(names, ","@))
        }
    }
}

/// The versions in `l` from `i` on.
pub open spec fn versions(l: Seq<u8>, i: int, at: int, m: Model, names: Seq<Seq<char>>) -> (
    Model,
    Seq<Seq<char>>,
)
    decreases l.len() - i,
{
    if i < 0 || i + 2 > l.len() {
        (m, names)
    } else {
        versions(
            l,
            i + 2,
            at,
            m.leaf(
                "tls.handshake.extensions.supported_version"@,
                at + i,
                at + i + 2,
                ValueView::Unsigned(be16(l, i) as u64),
            ),
            names.push(version_text(be16(l, i))),
        )
    }
}

fn write_versions(l: &[u8], at: usize, ctx: &mut Ctx) -> (r: String)
    requires
        at + l@.len() <= usize::MAX,
    ensures
        ({
            let (m, names) = versions(l@, 0, at as int, old(ctx)@, Seq::empty());
            final(ctx)@ == m && r@ == joined(names, ","@)
        }),
        final(ctx)@.count() >= old(ctx)@.count(),
        final(ctx)@.base == old(ctx)@.base,
{
    let mut names: Vec<String> = Vec::new();
    let mut i: usize = 0;
    assert(texts(names@) =~= Seq::empty());
    while l.len() - i >= 2
        invariant
            i <= l@.len(),
            at + l@.len() <= usize::MAX,
            ctx@.count() >= old(ctx)@.count(),
            ctx@.base == old(ctx)@.base,
            versions(l@, 0, at as int, old(ctx)@, Seq::empty()) == versions(
                l@,
                i as int,
                at as int,
                ctx@,
                texts(names@),
            ),
        decreases l.len() - i,
    {
        let v: u16 = get_be16(l, i);
        let _ = ctx.leaf(
            "tls.handshake.extensions.supported_version",
            at + i..at + i + 2,
            Value::Unsigned(v as u64),
        );
        text::push_text(&mut names, version_name(v));
        i = i + 2;
    }
    text::join(&names, ",")
}

/// The supported versions extension: a list, or in a ServerHello the one that
/// was chosen.
pub open spec fn supported_versions(b: Seq<u8>, at: int, m: Model) -> (Reading, Seq<char>) {
    let n = b.len() as int;
    if n == 2 {
        let (m, names) = versions(b, 0, at, m, Seq::empty());
        ((m, at + 2, None), joined(names, ","@))
    } else if n < 1 {
        ((m, at, Some(cut(at, 1, 0))), ""@)
    } else {
        let m = m.leaf(
            "tls.handshake.extensions.supported_versions_len"@,
            at,
            at + 1,
            ValueView::Unsigned(b[0] as u64),
        );
        let l = least(b[0] as int, n - 1);
        let (m, names) = versions(b.subrange(1, 1 + l), 0, at + 1, m, Seq::empty());
        ((m, at + 1 + l, None), joined(names, ","@))
    }
}

/// The body of an extension of type `ty`, and what its label says of it.
pub open spec fn extension_body(ty: u16, b: Seq<u8>, at: int, m: Model) -> (Reading, Seq<char>) {
    if ty == 0 {
        server_name(b, at, m)
    } else if ty == 16 {
        alpn(b, at, m)
    } else if ty == 43 {
        supported_versions(b, at, m)
    } else if b.len() > 0 {
        (
            (
                m.leaf("tls.handshake.extension.data"@, at, at + b.len(), ValueView::Bytes),
                at,
                None,
            ),
            ""@,
        )
    } else {
        ((m, at, None), ""@)
    }
}

#[verifier::rlimit(40)]
fn read_extension_body(ty: u16, b: &[u8], at: usize, ctx: &mut Ctx) -> (r: (
    usize,
    Option<DissectError>,
    String,
))
    requires
        at + b@.len() <= usize::MAX,
    ensures
        ((final(ctx)@, r.0 as int, r.1), r.2@) == extension_body(ty, b@, at as int, old(ctx)@),
        at <= r.0 <= at + b@.len(),
        final(ctx)@.count() >= old(ctx)@.count(),
        final(ctx)@.base == old(ctx)@.base,
{
    let n: usize = b.len();
    if ty == 0 {
        if n == 0 {
            return (at, None, text::owned(""));
        }
        if n < 2 {
            return (
                at,
                Some(DissectError::Truncated { at, need: 2, have: n }),
                text::owned(""),
            );
        }
        let said: u16 = get_be16(b, 0);
        let _ = ctx.leaf(
            "tls.handshake.extensions_server_name_list_len",
            at..at + 2,
            Value::Unsigned(said as u64),
        );
        let l: usize = lesser(said as usize, n - 2);
        let mut detail: String = text::owned("");
        let e: Option<DissectError> = write_names(
            bytes::part(b, 2, 2 + l),
            at + 2,
            ctx,
            &mut detail,
        );
        (at + 2 + l, e, detail)
    } else if ty == 16 {
        if n < 2 {
            return (
                at,
                Some(DissectError::Truncated { at, need: 2, have: n }),
                text::owned(""),
            );
        }
        let said: u16 = get_be16(b, 0);
        let _ = ctx.leaf(
            "tls.handshake.extensions_alpn_len",
            at..at + 2,
            Value::Unsigned(said as u64),
        );
        let l: usize = lesser(said as usize, n - 2);
        let mut names: Vec<String> = Vec::new();
        assert(texts(names@) =~= Seq::empty());
        let e: Option<DissectError> = write_protocols(
            bytes::part(b, 2, 2 + l),
            at + 2,
            ctx,
            &mut names,
        );
        if e.is_some() {
            return (at + 2 + l, e, text::owned(""));
        }
        (at + 2 + l, None, text::join(&names, ","))
    } else if ty == 43 {
        if n == 2 {
            let detail: String = write_versions(b, at, ctx);
            return (at + 2, None, detail);
        }
        if n < 1 {
            return (
                at,
                Some(DissectError::Truncated { at, need: 1, have: 0 }),
                text::owned(""),
            );
        }
        let _ = ctx.leaf(
            "tls.handshake.extensions.supported_versions_len",
            at..at + 1,
            Value::Unsigned(b[0] as u64),
        );
        let l: usize = lesser(b[0] as usize, n - 1);
        let detail: String = write_versions(bytes::part(b, 1, 1 + l), at + 1, ctx);
        (at + 1 + l, None, detail)
    } else {
        if n > 0 {
            let _ = ctx.leaf("tls.handshake.extension.data", at..at + n, Value::Bytes);
        }
        (at, None, text::owned(""))
    }
}

// ---- extensions -----------------------------------------------------------------

/// The label of an extension.
pub open spec fn extension_label(ty: u16, len: u16, detail: Seq<char>) -> Seq<char> {
    let head = "Extension: "@ + named_or(TLS_EXTENSIONS@, ty as u64, "unknown"@) + " (len="@ + dec(
        len as int,
    ) + ")"@;
    if detail.len() == 0 {
        head
    } else {
        head + " "@ + detail
    }
}

fn extension_text(ty: u16, len: u16, detail: &str) -> (r: String)
    ensures
        r@ == extension_label(ty, len, detail@),
{
    let mut out: String = text::cat(
        "Extension: ",
        enum_name_or(&TLS_EXTENSIONS, ty as u64, "unknown"),
    );
    out.push_str(" (len=");
    text::push_dec(&mut out, len as u64);
    out.push_str(")");
    if !text::is_empty(detail) {
        out.push_str(" ");
        out.push_str(detail);
    }
    out
}

/// The label of an extension that could not be read.
pub open spec fn bad_extension(e: DissectError) -> Seq<char> {
    "[Malformed extension: "@ + e.message() + "]"@
}

fn bad_extension_text(e: DissectError) -> (r: String)
    ensures
        r@ == bad_extension(e),
{
    let mut out: String = text::cat("[Malformed extension: ", e.text().as_str());
    out.push_str("]");
    out
}

/// The extensions in `l` from `i` on.
pub open spec fn extension_rows(l: Seq<u8>, i: int, at: int, m: Model) -> Model
    decreases l.len() - i,
{
    let p = at + i;
    if i < 0 || i + 4 > l.len() {
        m
    } else {
        let (ty, len) = (be16(l, i), be16(l, i + 2));
        let left = l.len() - i - 4;
        let ext = m.count();
        let m = m.begin("tls.handshake.extension"@, p, p).leaf(
            "tls.handshake.extension.type"@,
            p,
            p + 2,
            ValueView::Unsigned(ty as u64),
        ).leaf(
            "tls.handshake.extension.len"@,
            p + 2,
            p + 4,
            ValueView::Unsigned(len as u64),
        );
        if left < len {
            m.leaf_text(
                "_ws.malformed"@,
                p + 4,
                at + l.len(),
                ValueView::Empty,
                bad_extension(cut(p + 4, len as int, left)),
            ).set_text(ext, extension_label(ty, len, ""@)).end_at(ext, at + l.len())
        } else {
            let end = p + 4 + len;
            let ((after, stop, e), detail) = extension_body(
                ty,
                l.subrange(i + 4, i + 4 + len),
                p + 4,
                m,
            );
            let after = match e {
                Some(e) => after.at_depth(m.trace.depth).leaf_text(
                    "_ws.malformed"@,
                    stop,
                    end,
                    ValueView::Empty,
                    bad_extension(e),
                ),
                None => after,
            };
            extension_rows(
                l,
                i + 4 + len,
                at,
                after.set_text(ext, extension_label(ty, len, detail)).end_at(ext, end),
            )
        }
    }
}

#[verifier::rlimit(40)]
fn write_extensions(l: &[u8], at: usize, ctx: &mut Ctx)
    requires
        at + l@.len() <= usize::MAX,
    ensures
        final(ctx)@ == extension_rows(l@, 0, at as int, old(ctx)@),
        final(ctx)@.count() >= old(ctx)@.count(),
        final(ctx)@.base == old(ctx)@.base,
{
    let mut i: usize = 0;
    while l.len() - i >= 4
        invariant
            i <= l@.len(),
            at + l@.len() <= usize::MAX,
            ctx@.count() >= old(ctx)@.count(),
            ctx@.base == old(ctx)@.base,
            extension_rows(l@, 0, at as int, old(ctx)@) == extension_rows(
                l@,
                i as int,
                at as int,
                ctx@,
            ),
        decreases l.len() - i,
    {
        let p: usize = at + i;
        let ty: u16 = get_be16(l, i);
        let len: u16 = get_be16(l, i + 2);
        let left: usize = l.len() - i - 4;
        let ext: usize = ctx.begin("tls.handshake.extension", p..p);
        let _ = ctx.leaf("tls.handshake.extension.type", p..p + 2, Value::Unsigned(ty as u64));
        let _ = ctx.leaf(
            "tls.handshake.extension.len",
            p + 2..p + 4,
            Value::Unsigned(len as u64),
        );
        if left < len as usize {
            let e = DissectError::Truncated { at: p + 4, need: len as usize, have: left };
            let _ = ctx.leaf_text(
                "_ws.malformed",
                p + 4..at + l.len(),
                Value::Empty,
                bad_extension_text(e).as_str(),
            );
            ctx.set_text(ext, extension_text(ty, len, "").as_str());
            ctx.end_at(ext, at + l.len());
            return;
        }
        let end: usize = p + 4 + len as usize;
        let depth: u8 = ctx.depth();
        let (stop, e, detail) = read_extension_body(
            ty,
            bytes::part(l, i + 4, i + 4 + len as usize),
            p + 4,
            ctx,
        );
        if let Some(e) = e {
            ctx.restore_depth(depth);
            let _ = ctx.leaf_text(
                "_ws.malformed",
                stop..end,
                Value::Empty,
                bad_extension_text(e).as_str(),
            );
        }
        ctx.set_text(ext, extension_text(ty, len, detail.as_str()).as_str());
        ctx.end_at(ext, end);
        i = i + 4 + len as usize;
    }
}

/// The extensions block at position `i` of a hello, if there is one.
pub open spec fn extensions(b: Seq<u8>, i: int, at: int, m: Model) -> Reading {
    let left = b.len() - i;
    if left < 2 {
        (m, at + i, None)
    } else {
        let m = m.leaf(
            "tls.handshake.extensions_length"@,
            at + i,
            at + i + 2,
            ValueView::Unsigned(be16(b, i) as u64),
        );
        let l = least(be16(b, i) as int, left - 2);
        (
            extension_rows(b.subrange(i + 2, i + 2 + l), 0, at + i + 2, m),
            at + i + 2 + l,
            None,
        )
    }
}

fn read_extensions(b: &[u8], i: usize, at: usize, ctx: &mut Ctx) -> (stop: usize)
    requires
        i <= b@.len(),
        at + b@.len() <= usize::MAX,
    ensures
        (final(ctx)@, stop as int, None::<DissectError>) == extensions(
            b@,
            i as int,
            at as int,
            old(ctx)@,
        ),
        at <= stop <= at + b@.len(),
        final(ctx)@.count() >= old(ctx)@.count(),
        final(ctx)@.base == old(ctx)@.base,
{
    let left: usize = b.len() - i;
    if left < 2 {
        return at + i;
    }
    let said: u16 = get_be16(b, i);
    let _ = ctx.leaf(
        "tls.handshake.extensions_length",
        at + i..at + i + 2,
        Value::Unsigned(said as u64),
    );
    let l: usize = lesser(said as usize, left - 2);
    write_extensions(bytes::part(b, i + 2, i + 2 + l), at + i + 2, ctx);
    at + i + 2 + l
}

// ---- hellos ---------------------------------------------------------------------

/// Cipher suites in `l` from `i` on.
pub open spec fn suites(l: Seq<u8>, i: int, at: int, m: Model) -> Model
    decreases l.len() - i,
{
    if i < 0 || i + 2 > l.len() {
        m
    } else {
        suites(
            l,
            i + 2,
            at,
            m.leaf(
                "tls.handshake.ciphersuite"@,
                at + i,
                at + i + 2,
                ValueView::Unsigned(be16(l, i) as u64),
            ),
        )
    }
}

fn write_suites(l: &[u8], at: usize, ctx: &mut Ctx)
    requires
        at + l@.len() <= usize::MAX,
    ensures
        final(ctx)@ == suites(l@, 0, at as int, old(ctx)@),
        final(ctx)@.count() >= old(ctx)@.count(),
        final(ctx)@.base == old(ctx)@.base,
{
    let mut i: usize = 0;
    while l.len() - i >= 2
        invariant
            i <= l@.len(),
            at + l@.len() <= usize::MAX,
            ctx@.count() >= old(ctx)@.count(),
            ctx@.base == old(ctx)@.base,
            suites(l@, 0, at as int, old(ctx)@) == suites(l@, i as int, at as int, ctx@),
        decreases l.len() - i,
    {
        let _ = ctx.leaf(
            "tls.handshake.ciphersuite",
            at + i..at + i + 2,
            Value::Unsigned(get_be16(l, i) as u64),
        );
        i = i + 2;
    }
}

/// Compression methods in `l` from `i` on.
pub open spec fn methods(l: Seq<u8>, i: int, at: int, m: Model) -> Model
    decreases l.len() - i,
{
    if i < 0 || i >= l.len() {
        m
    } else {
        methods(
            l,
            i + 1,
            at,
            m.leaf(
                "tls.handshake.comp_method"@,
                at + i,
                at + i + 1,
                ValueView::Unsigned(l[i] as u64),
            ),
        )
    }
}

fn write_methods(l: &[u8], at: usize, ctx: &mut Ctx)
    requires
        at + l@.len() <= usize::MAX,
    ensures
        final(ctx)@ == methods(l@, 0, at as int, old(ctx)@),
        final(ctx)@.count() >= old(ctx)@.count(),
        final(ctx)@.base == old(ctx)@.base,
{
    let mut i: usize = 0;
    while i < l.len()
        invariant
            i <= l@.len(),
            at + l@.len() <= usize::MAX,
            ctx@.count() >= old(ctx)@.count(),
            ctx@.base == old(ctx)@.base,
            methods(l@, 0, at as int, old(ctx)@) == methods(l@, i as int, at as int, ctx@),
        decreases l.len() - i,
    {
        let _ = ctx.leaf(
            "tls.handshake.comp_method",
            at + i..at + i + 1,
            Value::Unsigned(l[i] as u64),
        );
        i = i + 1;
    }
}

/// The fields both hellos begin with.
pub open spec fn hello_fields(b: Seq<u8>, at: int, m: Model) -> Model {
    let sid = b[34];
    let m = m.leaf(
        "tls.handshake.version"@,
        at,
        at + 2,
        ValueView::Unsigned(be16(b, 0) as u64),
    ).leaf("tls.handshake.random"@, at + 2, at + 34, ValueView::Bytes).leaf(
        "tls.handshake.session_id_length"@,
        at + 34,
        at + 35,
        ValueView::Unsigned(sid as u64),
    );
    if sid > 0 {
        m.leaf("tls.handshake.session_id"@, at + 35, at + 35 + sid, ValueView::Bytes)
    } else {
        m
    }
}

fn write_hello(b: &[u8], at: usize, ctx: &mut Ctx)
    requires
        b@.len() >= 35,
        b@.len() >= 35 + b@[34],
        at + b@.len() <= usize::MAX,
    ensures
        final(ctx)@ == hello_fields(b@, at as int, old(ctx)@),
        final(ctx)@.count() >= old(ctx)@.count(),
        final(ctx)@.base == old(ctx)@.base,
{
    let sid: u8 = b[34];
    let _ = ctx.leaf(
        "tls.handshake.version",
        at..at + 2,
        Value::Unsigned(get_be16(b, 0) as u64),
    );
    let _ = ctx.leaf("tls.handshake.random", at + 2..at + 34, Value::Bytes);
    let _ = ctx.leaf(
        "tls.handshake.session_id_length",
        at + 34..at + 35,
        Value::Unsigned(sid as u64),
    );
    if sid > 0 {
        let _ = ctx.leaf(
            "tls.handshake.session_id",
            at + 35..at + 35 + sid as usize,
            Value::Bytes,
        );
    }
}

/// A ClientHello.
pub open spec fn client_hello(b: Seq<u8>, at: int, m: Model) -> Reading {
    let n = b.len() as int;
    if n < 35 {
        let e = shortfall(at, n, HELLO@);
        (m, stop_of(e), Some(e))
    } else if n < 35 + b[34] {
        (m, at + 35, Some(cut(at + 35, b[34] as int, n - 35)))
    } else {
        let p = 35 + b[34];
        let m = hello_fields(b, at, m);
        if n < p + 2 {
            (m, at + p, Some(cut(at + p, 2, n - p)))
        } else {
            let cs = be16(b, p);
            let m = m.leaf(
                "tls.handshake.cipher_suites_length"@,
                at + p,
                at + p + 2,
                ValueView::Unsigned(cs as u64),
            );
            if n < p + 2 + cs {
                (m, at + p + 2, Some(cut(at + p + 2, cs as int, n - p - 2)))
            } else {
                let q = p + 2 + cs;
                let m = suites(
                    b.subrange(p + 2, q),
                    0,
                    at + p + 2,
                    m.begin_text(
                        "tls.handshake.ciphersuites"@,
                        at + p + 2,
                        at + q,
                        "Cipher Suites ("@ + dec((cs / 2) as int) + " suites)"@,
                    ),
                ).end();
                if n < q + 1 {
                    (m, at + q, Some(cut(at + q, 1, 0)))
                } else {
                    let cm = b[q] as int;
                    let m = m.leaf(
                        "tls.handshake.comp_methods_length"@,
                        at + q,
                        at + q + 1,
                        ValueView::Unsigned(b[q] as u64),
                    );
                    if n < q + 1 + cm {
                        (m, at + q + 1, Some(cut(at + q + 1, cm, n - q - 1)))
                    } else {
                        let r = q + 1 + cm;
                        let m = methods(
                            b.subrange(q + 1, r),
                            0,
                            at + q + 1,
                            m.begin("tls.handshake.comp_methods"@, at + q + 1, at + r),
                        ).end();
                        extensions(b, r, at, m)
                    }
                }
            }
        }
    }
}

#[verifier::rlimit(40)]
fn read_client_hello(b: &[u8], at: usize, ctx: &mut Ctx) -> (r: (usize, Option<DissectError>))
    requires
        at + b@.len() <= usize::MAX,
    ensures
        (final(ctx)@, r.0 as int, r.1) == client_hello(b@, at as int, old(ctx)@),
        final(ctx)@.count() >= old(ctx)@.count(),
        final(ctx)@.base == old(ctx)@.base,
{
    let n: usize = b.len();
    if n < 35 {
        let e: DissectError = first_short(at, n, &HELLO);
        return (stop_at(&e), Some(e));
    }
    let sid: usize = b[34] as usize;
    if n < 35 + sid {
        return (
            at + 35,
            Some(DissectError::Truncated { at: at + 35, need: sid, have: n - 35 }),
        );
    }
    let p: usize = 35 + sid;
    write_hello(b, at, ctx);
    if n < p + 2 {
        return (at + p, Some(DissectError::Truncated { at: at + p, need: 2, have: n - p }));
    }
    let cs: u16 = get_be16(b, p);
    let _ = ctx.leaf(
        "tls.handshake.cipher_suites_length",
        at + p..at + p + 2,
        Value::Unsigned(cs as u64),
    );
    if n - p - 2 < cs as usize {
        return (
            at + p + 2,
            Some(
                DissectError::Truncated { at: at + p + 2, need: cs as usize, have: n - p - 2 },
            ),
        );
    }
    let q: usize = p + 2 + cs as usize;
    let label: String = text::cat_dec("Cipher Suites (", (cs / 2) as u64, " suites)");
    let _ = ctx.begin_text("tls.handshake.ciphersuites", at + p + 2..at + q, label.as_str());
    write_suites(bytes::part(b, p + 2, q), at + p + 2, ctx);
    ctx.end();
    if n - q < 1 {
        return (at + q, Some(DissectError::Truncated { at: at + q, need: 1, have: 0 }));
    }
    let cm: usize = b[q] as usize;
    let _ = ctx.leaf(
        "tls.handshake.comp_methods_length",
        at + q..at + q + 1,
        Value::Unsigned(b[q] as u64),
    );
    if n - q - 1 < cm {
        return (
            at + q + 1,
            Some(DissectError::Truncated { at: at + q + 1, need: cm, have: n - q - 1 }),
        );
    }
    let r: usize = q + 1 + cm;
    let _ = ctx.begin("tls.handshake.comp_methods", at + q + 1..at + r);
    write_methods(bytes::part(b, q + 1, r), at + q + 1, ctx);
    ctx.end();
    let stop: usize = read_extensions(b, r, at, ctx);
    (stop, None)
}

/// A ServerHello.
pub open spec fn server_hello(b: Seq<u8>, at: int, m: Model) -> Reading {
    let n = b.len() as int;
    if n < 35 {
        let e = shortfall(at, n, HELLO@);
        (m, stop_of(e), Some(e))
    } else if n < 35 + b[34] {
        (m, at + 35, Some(cut(at + 35, b[34] as int, n - 35)))
    } else {
        let p = 35 + b[34];
        if n < p + 3 {
            let e = shortfall(at + p, n - p, CHOICE@);
            (m, stop_of(e), Some(e))
        } else {
            let m = hello_fields(b, at, m).leaf(
                "tls.handshake.ciphersuite"@,
                at + p,
                at + p + 2,
                ValueView::Unsigned(be16(b, p) as u64),
            ).leaf(
                "tls.handshake.comp_method"@,
                at + p + 2,
                at + p + 3,
                ValueView::Unsigned(b[p + 2] as u64),
            );
            extensions(b, p + 3, at, m)
        }
    }
}

fn read_server_hello(b: &[u8], at: usize, ctx: &mut Ctx) -> (r: (usize, Option<DissectError>))
    requires
        at + b@.len() <= usize::MAX,
    ensures
        (final(ctx)@, r.0 as int, r.1) == server_hello(b@, at as int, old(ctx)@),
        final(ctx)@.count() >= old(ctx)@.count(),
        final(ctx)@.base == old(ctx)@.base,
{
    let n: usize = b.len();
    if n < 35 {
        let e: DissectError = first_short(at, n, &HELLO);
        return (stop_at(&e), Some(e));
    }
    let sid: usize = b[34] as usize;
    if n < 35 + sid {
        return (
            at + 35,
            Some(DissectError::Truncated { at: at + 35, need: sid, have: n - 35 }),
        );
    }
    let p: usize = 35 + sid;
    if n < p + 3 {
        let e: DissectError = first_short(at + p, n - p, &CHOICE);
        return (stop_at(&e), Some(e));
    }
    write_hello(b, at, ctx);
    let _ = ctx.leaf(
        "tls.handshake.ciphersuite",
        at + p..at + p + 2,
        Value::Unsigned(get_be16(b, p) as u64),
    );
    let _ = ctx.leaf(
        "tls.handshake.comp_method",
        at + p + 2..at + p + 3,
        Value::Unsigned(b[p + 2] as u64),
    );
    let stop: usize = read_extensions(b, p + 3, at, ctx);
    (stop, None)
}

/// Certificates in `l` from `i` on; the last may be cut short.
pub open spec fn certificates(l: Seq<u8>, i: int, at: int, m: Model) -> Model
    decreases l.len() - i,
{
    let p = at + i;
    if i < 0 || i + 3 > l.len() {
        m
    } else {
        let len = be24(l, i);
        let have = least(len as int, l.len() - i - 3);
        certificates(
            l,
            i + 3 + have,
            at,
            m.leaf(
                "tls.handshake.certificate_length"@,
                p,
                p + 3,
                ValueView::Unsigned(len as u64),
            ).leaf("tls.handshake.certificate"@, p + 3, p + 3 + have, ValueView::Bytes),
        )
    }
}

fn write_certificates(l: &[u8], at: usize, ctx: &mut Ctx)
    requires
        at + l@.len() <= usize::MAX,
    ensures
        final(ctx)@ == certificates(l@, 0, at as int, old(ctx)@),
        final(ctx)@.count() >= old(ctx)@.count(),
        final(ctx)@.base == old(ctx)@.base,
{
    let mut i: usize = 0;
    while l.len() - i >= 3
        invariant
            i <= l@.len(),
            at + l@.len() <= usize::MAX,
            ctx@.count() >= old(ctx)@.count(),
            ctx@.base == old(ctx)@.base,
            certificates(l@, 0, at as int, old(ctx)@) == certificates(
                l@,
                i as int,
                at as int,
                ctx@,
            ),
        decreases l.len() - i,
    {
        let p: usize = at + i;
        let len: u32 = get_be24(l, i);
        let have: usize = lesser(len as usize, l.len() - i - 3);
        let _ = ctx.leaf(
            "tls.handshake.certificate_length",
            p..p + 3,
            Value::Unsigned(len as u64),
        );
        let _ = ctx.leaf("tls.handshake.certificate", p + 3..p + 3 + have, Value::Bytes);
        i = i + 3 + have;
    }
}

/// A Certificate message.
pub open spec fn certificate(b: Seq<u8>, at: int, m: Model) -> Reading {
    let n = b.len() as int;
    if n < 3 {
        (m, at, Some(cut(at, 3, n)))
    } else {
        let l = least(be24(b, 0) as int, n - 3);
        (
            certificates(
                b.subrange(3, 3 + l),
                0,
                at + 3,
                m.leaf(
                    "tls.handshake.certificates_length"@,
                    at,
                    at + 3,
                    ValueView::Unsigned(be24(b, 0) as u64),
                ),
            ),
            at + 3 + l,
            None,
        )
    }
}

// ---- handshake messages ---------------------------------------------------------

/// The body of a handshake message.
pub open spec fn handshake_body(ty: u8, b: Seq<u8>, at: int, m: Model) -> Reading {
    if ty == 1 {
        client_hello(b, at, m)
    } else if ty == 2 {
        server_hello(b, at, m)
    } else if ty == 11 {
        certificate(b, at, m)
    } else if b.len() > 0 {
        (
            m.leaf("tls.handshake.encrypted"@, at, at + b.len(), ValueView::Bytes),
            at,
            None,
        )
    } else {
        (m, at, None)
    }
}

fn read_handshake_body(ty: u8, b: &[u8], at: usize, ctx: &mut Ctx) -> (r: (
    usize,
    Option<DissectError>,
))
    requires
        at + b@.len() <= usize::MAX,
    ensures
        (final(ctx)@, r.0 as int, r.1) == handshake_body(ty, b@, at as int, old(ctx)@),
        final(ctx)@.count() >= old(ctx)@.count(),
        final(ctx)@.base == old(ctx)@.base,
{
    if ty == 1 {
        read_client_hello(b, at, ctx)
    } else if ty == 2 {
        read_server_hello(b, at, ctx)
    } else if ty == 11 {
        let n: usize = b.len();
        if n < 3 {
            return (at, Some(DissectError::Truncated { at, need: 3, have: n }));
        }
        let total: u32 = get_be24(b, 0);
        let _ = ctx.leaf(
            "tls.handshake.certificates_length",
            at..at + 3,
            Value::Unsigned(total as u64),
        );
        let l: usize = lesser(total as usize, n - 3);
        write_certificates(bytes::part(b, 3, 3 + l), at + 3, ctx);
        (at + 3 + l, None)
    } else {
        if b.len() > 0 {
            let _ = ctx.leaf("tls.handshake.encrypted", at..at + b.len(), Value::Bytes);
        }
        (at, None)
    }
}

/// The handshake messages in a record from position `i` on: the frame, where
/// reading stopped, and what they are called. None if not even one is
/// there: an unknown type after a ChangeCipherSpec is ciphertext, not a
/// message.
pub open spec fn handshake(b: Seq<u8>, i: int, at: int, m: Model, names: Seq<Seq<char>>) -> (
    Model,
    int,
    Seq<Seq<char>>,
)
    decreases b.len() - i,
{
    let p = at + i;
    if i < 0 || i + 4 > b.len() {
        (m, p, names)
    } else {
        let ty = b[i];
        let len = be24(b, i + 1) as int;
        match named(TLS_HANDSHAKE_TYPES@, ty as u64) {
            None => (m, p + 4, names),
            Some(name) => {
                let have = least(len, b.len() - i - 4);
                let end = p + 4 + have;
                let hs = m.count();
                let m = m.begin_text(
                    "tls.handshake"@,
                    p,
                    p,
                    "Handshake Protocol: "@ + name,
                ).leaf("tls.handshake.type"@, p, p + 1, ValueView::Unsigned(ty as u64)).leaf(
                    "tls.handshake.length"@,
                    p + 1,
                    p + 4,
                    ValueView::Unsigned(be24(b, i + 1) as u64),
                );
                let (after, stop, e) = handshake_body(
                    ty,
                    b.subrange(i + 4, i + 4 + have),
                    p + 4,
                    m,
                );
                let after = match e {
                    Some(e) => after.at_depth(m.trace.depth).leaf_text(
                        "_ws.malformed"@,
                        stop,
                        end,
                        ValueView::Empty,
                        "[Malformed Packet: tls] "@ + e.message(),
                    ),
                    None => after,
                };
                let after = after.end_at(hs, end);
                if len > have {
                    (after, end, names.push(name))
                } else {
                    handshake(b, i + 4 + have, at, after, names.push(name))
                }
            },
        }
    }
}

#[verifier::rlimit(40)]
fn read_handshake(b: &[u8], at: usize, ctx: &mut Ctx, names: &mut Vec<String>) -> (stop: usize)
    requires
        at + b@.len() <= usize::MAX,
    ensures
        (final(ctx)@, stop as int, texts(final(names)@)) == handshake(
            b@,
            0,
            at as int,
            old(ctx)@,
            texts(old(names)@),
        ),
        at <= stop <= at + b@.len(),
        final(ctx)@.count() >= old(ctx)@.count(),
        final(ctx)@.base == old(ctx)@.base,
{
    let mut i: usize = 0;
    while b.len() - i >= 4
        invariant
            i <= b@.len(),
            at + b@.len() <= usize::MAX,
            ctx@.count() >= old(ctx)@.count(),
            ctx@.base == old(ctx)@.base,
            handshake(b@, 0, at as int, old(ctx)@, texts(old(names)@)) == handshake(
                b@,
                i as int,
                at as int,
                ctx@,
                texts(names@),
            ),
        decreases b.len() - i,
    {
        let p: usize = at + i;
        let ty: u8 = b[i];
        let len: u32 = get_be24(b, i + 1);
        match enum_name(&TLS_HANDSHAKE_TYPES, ty as u64) {
            None => {
                return p + 4;
            },
            Some(name) => {
                let have: usize = lesser(len as usize, b.len() - i - 4);
                let end: usize = p + 4 + have;
                let hs: usize = ctx.begin_text(
                    "tls.handshake",
                    p..p,
                    text::cat("Handshake Protocol: ", name).as_str(),
                );
                let _ = ctx.leaf("tls.handshake.type", p..p + 1, Value::Unsigned(ty as u64));
                let _ = ctx.leaf(
                    "tls.handshake.length",
                    p + 1..p + 4,
                    Value::Unsigned(len as u64),
                );
                let depth: u8 = ctx.depth();
                let (stop, e) = read_handshake_body(
                    ty,
                    bytes::part(b, i + 4, i + 4 + have),
                    p + 4,
                    ctx,
                );
                if let Some(e) = e {
                    ctx.restore_depth(depth);
                    let label: String = text::cat("[Malformed Packet: tls] ", e.text().as_str());
                    let _ = ctx.leaf_text("_ws.malformed", stop..end, Value::Empty, label.as_str());
                }
                ctx.end_at(hs, end);
                text::push_text(names, text::owned(name));
                if len as usize > have {
                    return end;
                }
                i = i + 4 + have;
            },
        }
    }
    at + i
}

// ---- records --------------------------------------------------------------------

/// The body of a record, and what it is called. What cannot be read as an
/// alert or a handshake is taken to be encrypted.
pub open spec fn record_body(ct: u8, b: Seq<u8>, at: int, m: Model) -> (Model, Seq<char>) {
    let end = at + b.len();
    if ct == 20 {
        (m.leaf("tls.change_cipher_spec"@, at, end, ValueView::Empty), "Change Cipher Spec"@)
    } else if ct == 21 {
        if b.len() < 2 {
            (
                m.at_depth(m.trace.depth).leaf("tls.app_data"@, end, end, ValueView::Bytes),
                "Encrypted Alert"@,
            )
        } else {
            let text = "Alert ("@ + named_or(TLS_ALERT_DESCS@, b[1] as u64, "Unknown"@) + ")"@;
            (
                m.begin_text("tls.alert_message"@, at, at + 2, text).leaf(
                    "tls.alert_message.level"@,
                    at,
                    at + 1,
                    ValueView::Unsigned(b[0] as u64),
                ).leaf(
                    "tls.alert_message.desc"@,
                    at + 1,
                    at + 2,
                    ValueView::Unsigned(b[1] as u64),
                ).end(),
                text,
            )
        }
    } else if ct == 22 {
        let (after, stop, names) = handshake(b, 0, at, m, Seq::empty());
        if names.len() == 0 {
            (
                after.at_depth(m.trace.depth).leaf(
                    "tls.handshake.encrypted"@,
                    stop,
                    end,
                    ValueView::Bytes,
                ),
                "Encrypted Handshake Message"@,
            )
        } else {
            (after, joined(names, ", "@))
        }
    } else if ct == 23 {
        (m.leaf("tls.app_data"@, at, end, ValueView::Bytes), "Application Data"@)
    } else {
        (
            m.leaf("tls.app_data"@, at, end, ValueView::Bytes),
            "Unknown content type "@ + dec(ct as int),
        )
    }
}

fn read_record_body(ct: u8, b: &[u8], at: usize, ctx: &mut Ctx) -> (r: String)
    requires
        at + b@.len() <= usize::MAX,
    ensures
        (final(ctx)@, r@) == record_body(ct, b@, at as int, old(ctx)@),
        final(ctx)@.count() >= old(ctx)@.count(),
        final(ctx)@.base == old(ctx)@.base,
{
    let end: usize = at + b.len();
    let depth: u8 = ctx.depth();
    if ct == 20 {
        let _ = ctx.leaf("tls.change_cipher_spec", at..end, Value::Empty);
        text::owned("Change Cipher Spec")
    } else if ct == 21 {
        if b.len() < 2 {
            ctx.restore_depth(depth);
            let _ = ctx.leaf("tls.app_data", end..end, Value::Bytes);
            return text::owned("Encrypted Alert");
        }
        let mut label: String = text::cat(
            "Alert (",
            enum_name_or(&TLS_ALERT_DESCS, b[1] as u64, "Unknown"),
        );
        label.push_str(")");
        let _ = ctx.begin_text("tls.alert_message", at..at + 2, label.as_str());
        let _ = ctx.leaf("tls.alert_message.level", at..at + 1, Value::Unsigned(b[0] as u64));
        let _ = ctx.leaf("tls.alert_message.desc", at + 1..at + 2, Value::Unsigned(b[1] as u64));
        ctx.end();
        label
    } else if ct == 22 {
        let mut names: Vec<String> = Vec::new();
        assert(texts(names@) =~= Seq::empty());
        let stop: usize = read_handshake(b, at, ctx, &mut names);
        assert(texts(names@).len() == names@.len());
        if names.len() == 0 {
            ctx.restore_depth(depth);
            let _ = ctx.leaf("tls.handshake.encrypted", stop..end, Value::Bytes);
            return text::owned("Encrypted Handshake Message");
        }
        text::join(&names, ", ")
    } else if ct == 23 {
        let _ = ctx.leaf("tls.app_data", at..end, Value::Bytes);
        text::owned("Application Data")
    } else {
        let _ = ctx.leaf("tls.app_data", at..end, Value::Bytes);
        let mut out: String = text::owned("Unknown content type ");
        text::push_dec(&mut out, ct as u64);
        out
    }
}

/// Up to `k` records from position `i` on: the frame, where the last ends,
/// what the records are called. Bytes that do not start with a plausible
/// record header are the tail of a record begun in an earlier segment; a
/// record that goes on in the next segment is the last.
pub open spec fn records(
    k: nat,
    d: Seq<u8>,
    i: int,
    at: int,
    m: Model,
    infos: Seq<Seq<char>>,
) -> (Model, int, Seq<Seq<char>>)
    decreases k,
{
    let p = at + i;
    if k == 0 || i + 5 > d.len() || !resembles_tls(d.subrange(i, d.len() as int)) {
        (m, i, infos)
    } else {
        let (ct, ver, len) = (d[i], be16(d, i + 1), be16(d, i + 3));
        let kind = named_or(TLS_CONTENT_TYPES@, ct as u64, "Unknown"@);
        let left = d.len() - i - 5;
        let rec = m.count();
        let m = m.begin("tls.record"@, p, p).leaf(
            "tls.record.content_type"@,
            p,
            p + 1,
            ValueView::Unsigned(ct as u64),
        ).leaf("tls.record.version"@, p + 1, p + 3, ValueView::Unsigned(ver as u64)).leaf(
            "tls.record.length"@,
            p + 3,
            p + 5,
            ValueView::Unsigned(len as u64),
        );
        if len > left {
            (
                m.leaf("tls.continuation_data"@, p + 5, p + 5 + left, ValueView::Bytes).set_text(
                    rec,
                    version_text(ver) + ": "@ + kind + " Protocol (fragment, "@ + dec(left)
                        + " of "@ + dec(len as int) + " bytes)"@,
                ).end_at(rec, p + 5 + left),
                d.len() as int,
                infos.push(kind + " [fragment]"@),
            )
        } else {
            let (m, what) = record_body(ct, d.subrange(i + 5, i + 5 + len), p + 5, m);
            records(
                (k - 1) as nat,
                d,
                i + 5 + len,
                at,
                m.set_text(
                    rec,
                    version_text(ver) + " Record Layer: "@ + kind + " Protocol: "@ + what,
                ).end_at(rec, p + 5 + len),
                infos.push(what),
            )
        }
    }
}

#[verifier::rlimit(40)]
fn read_records(d: &[u8], at: usize, ctx: &mut Ctx, infos: &mut Vec<String>) -> (end: usize)
    requires
        at + d@.len() <= usize::MAX,
    ensures
        (final(ctx)@, end as int, texts(final(infos)@)) == records(
            MAX_RECORDS as nat,
            d@,
            0,
            at as int,
            old(ctx)@,
            texts(old(infos)@),
        ),
        end <= d@.len(),
        final(ctx)@.count() >= old(ctx)@.count(),
        final(ctx)@.base == old(ctx)@.base,
{
    let mut i: usize = 0;
    let mut k: usize = MAX_RECORDS;
    while k > 0 && d.len() - i >= 5 && looks_like_tls(bytes::part(d, i, d.len()))
        invariant
            i <= d@.len(),
            at + d@.len() <= usize::MAX,
            ctx@.count() >= old(ctx)@.count(),
            ctx@.base == old(ctx)@.base,
            records(
                MAX_RECORDS as nat,
                d@,
                0,
                at as int,
                old(ctx)@,
                texts(old(infos)@),
            ) == records(k as nat, d@, i as int, at as int, ctx@, texts(infos@)),
        decreases k,
    {
        let p: usize = at + i;
        let ct: u8 = d[i];
        let ver: u16 = get_be16(d, i + 1);
        let len: u16 = get_be16(d, i + 3);
        let kind: &'static str = enum_name_or(&TLS_CONTENT_TYPES, ct as u64, "Unknown");
        let left: usize = d.len() - i - 5;
        let rec: usize = ctx.begin("tls.record", p..p);
        let _ = ctx.leaf("tls.record.content_type", p..p + 1, Value::Unsigned(ct as u64));
        let _ = ctx.leaf("tls.record.version", p + 1..p + 3, Value::Unsigned(ver as u64));
        let _ = ctx.leaf("tls.record.length", p + 3..p + 5, Value::Unsigned(len as u64));
        if len as usize > left {
            // Record continues in the next segment.
            let _ = ctx.leaf("tls.continuation_data", p + 5..p + 5 + left, Value::Bytes);
            let mut label: String = version_name(ver);
            label.push_str(": ");
            label.push_str(kind);
            label.push_str(" Protocol (fragment, ");
            text::push_dec(&mut label, left as u64);
            label.push_str(" of ");
            text::push_dec(&mut label, len as u64);
            label.push_str(" bytes)");
            ctx.set_text(rec, label.as_str());
            ctx.end_at(rec, p + 5 + left);
            text::push_text(infos, text::cat(kind, " [fragment]"));
            return d.len();
        }
        let what: String = read_record_body(
            ct,
            bytes::part(d, i + 5, i + 5 + len as usize),
            p + 5,
            ctx,
        );
        let mut label: String = version_name(ver);
        label.push_str(" Record Layer: ");
        label.push_str(kind);
        label.push_str(" Protocol: ");
        label.push_str(what.as_str());
        ctx.set_text(rec, label.as_str());
        ctx.end_at(rec, p + 5 + len as usize);
        text::push_text(infos, what);
        i = i + 5 + len as usize;
        k = k - 1;
    }
    i
}

// ---- the layer ------------------------------------------------------------------

/// Where the last of up to `k` complete records from position `i` on ends.
pub open spec fn whole_end(k: nat, d: Seq<u8>, i: int) -> int
    decreases k,
{
    if k == 0 || i + 5 > d.len() || !resembles_tls(d.subrange(i, d.len() as int)) || be16(d, i + 3)
        > d.len() - i - 5 {
        i
    } else {
        whole_end((k - 1) as nat, d, i + 5 + be16(d, i + 3))
    }
}

/// The start of a record whose end has not arrived.
pub open spec fn is_unfinished(d: Seq<u8>) -> bool {
    resembles_tls(d) && (d.len() < 5 || be16(d, 3) > d.len() - 5)
}

/// The layer over `d`, all of which is shown.
pub open spec fn shown(d: Seq<u8>, m: Model) -> Model {
    let a = m.base;
    let n = d.len() as int;
    let m = m.set_protocol("tls"@).begin_text("tls"@, a, a + n, "Transport Layer Security"@);
    let (m, i, infos) = records(MAX_RECORDS as nat, d, 0, a, m, Seq::empty());
    let (m, infos) = if i < n {
        (
            m.leaf("tls.continuation_data"@, a + i, a + n, ValueView::Bytes),
            if infos.len() == 0 {
                infos.push("Continuation Data"@)
            } else {
                infos
            },
        )
    } else {
        (m, infos)
    };
    m.set_info(joined(infos, ", "@)).end()
}

/// The TLS layer. A record still arriving behind the complete ones is worth
/// waiting for. A frame that only carries part of a record stays a TCP frame.
pub open spec fn layer(d: Seq<u8>, m: Model) -> Outcome {
    let a = m.base;
    let n = d.len() as int;
    let w = whole_end(MAX_RECORDS as nat, d, 0);
    let rest = d.subrange(w, n);
    let (held, kept) = if is_unfinished(rest) {
        m.hold(rest)
    } else {
        (m, false)
    };
    if kept {
        let before = if w > 0 {
            shown(d.subrange(0, w), held)
        } else {
            held
        };
        let after = before.begin_text("tls.segment"@, a + w, a + n, SEGMENT@).leaf(
            "tls.segment.len"@,
            0,
            0,
            ValueView::Unsigned(rest.len() as u64),
        ).end();
        (
            if w > 0 {
                after
            } else {
                after.set_info(SEGMENT@)
            },
            None,
        )
    } else {
        (shown(d, held), None)
    }
}

fn find_whole_end(d: &[u8]) -> (w: usize)
    ensures
        w == whole_end(MAX_RECORDS as nat, d@, 0),
        w <= d@.len(),
{
    let mut i: usize = 0;
    let mut k: usize = MAX_RECORDS;
    let n: usize = d.len();
    while k > 0 && n - i >= 5 && looks_like_tls(bytes::part(d, i, n)) && get_be16(d, i + 3) as usize
        <= n - i - 5
        invariant
            i <= n == d@.len(),
            whole_end(MAX_RECORDS as nat, d@, 0) == whole_end(k as nat, d@, i as int),
        decreases k,
    {
        i = i + 5 + get_be16(d, i + 3) as usize;
        k = k - 1;
    }
    i
}

fn unfinished(d: &[u8]) -> (r: bool)
    ensures
        r == is_unfinished(d@),
{
    looks_like_tls(d) && (d.len() < 5 || get_be16(d, 3) as usize > d.len() - 5)
}

fn show(data: &[u8], ctx: &mut Ctx)
    requires
        addressable(data@, old(ctx)@),
    ensures
        final(ctx)@ == shown(data@, old(ctx)@),
        final(ctx)@.base == old(ctx)@.base,
{
    let a: usize = ctx.base();
    let n: usize = data.len();
    ctx.set_protocol("tls");
    let _ = ctx.begin_text("tls", a..a + n, "Transport Layer Security");
    let mut infos: Vec<String> = Vec::new();
    assert(texts(infos@) =~= Seq::empty());
    let i: usize = read_records(data, a, ctx, &mut infos);
    assert(texts(infos@).len() == infos@.len());
    if i < n {
        let _ = ctx.leaf("tls.continuation_data", a + i..a + n, Value::Bytes);
        if infos.len() == 0 {
            text::push_text(&mut infos, text::owned("Continuation Data"));
        }
    }
    ctx.set_info(text::join(&infos, ", "));
    ctx.end();
}

pub fn dissect(data: &[u8], ctx: &mut Ctx) -> (r: Result<(), DissectError>)
    requires
        addressable(data@, old(ctx)@),
    ensures
        (final(ctx)@, error_of(r)) == layer(data@, old(ctx)@),
{
    let a: usize = ctx.base();
    let n: usize = data.len();
    let w: usize = find_whole_end(data);
    let rest: &[u8] = bytes::part(data, w, n);
    if unfinished(rest) && ctx.hold(rest) {
        // The frame carries part of a record that completes later. Without a
        // whole one before it, it stays a TCP frame in the protocol column.
        if w > 0 {
            show(bytes::part(data, 0, w), ctx);
        }
        let _ = ctx.begin_text("tls.segment", a + w..a + n, SEGMENT);
        let _ = ctx.leaf("tls.segment.len", 0..0, Value::Unsigned(rest.len() as u64));
        ctx.end();
        if w == 0 {
            ctx.set_info(text::owned(SEGMENT));
        }
    } else {
        show(data, ctx);
    }
    Ok(())
}

} // verus!
