//! The fields of TLS.

use vstd::prelude::*;

use super::ipv6::placed;
use super::{byte_at, bytes_at, nothing_written, two, writing, written, Field};
use crate::bytes::be16;
use crate::dissect::ctx::Model;
use crate::dissect::node::ValueView;
use crate::dissect::proto::tls::{
    certificates, hello_fields, protocol_names, record_body, records, resembles_tls, server_hello,
    server_names, suites, versions,
};
use crate::text::utf8_lossy;

verus! {

/// The number in the three bytes at `i`, the highest first.
pub open spec fn three(d: Seq<u8>, i: int) -> u64 {
    (d[i] * 0x1_0000 + d[i + 1] * 0x100 + d[i + 2]) as u64
}

/// A payload is taken for TLS by its first bytes: a content type from 20 to
/// 24, and a version from 3.0 to 3.4.
pub proof fn tls_is_known_by_its_first_bytes(p: Seq<u8>)
    ensures
        resembles_tls(p) <==> p.len() >= 3 && p[0] >= 20 && p[0] <= 24 && 0x300 <= two(p, 1)
            <= 0x304,
{
}

/// A hello begins with its version, 32 bytes of randomness and a session id,
/// as long as the byte before it says.
pub proof fn hellos_are_shown(b: Seq<u8>, at: int, m: Model)
    requires
        b.len() >= 35,
    ensures
        ({
            let s = written(hello_fields(b, at, m), m.count());
            let w = b[34] as int;
            &&& s.len() == if w > 0 {
                4int
            } else {
                3
            }
            &&& s[0] == placed(
                m,
                at,
                "tls.handshake.version"@,
                0,
                2,
                ValueView::Unsigned(two(b, 0)),
            )
            &&& s[1] == placed(m, at, "tls.handshake.random"@, 2, 34, ValueView::Bytes)
            &&& s[2] == placed(
                m,
                at,
                "tls.handshake.session_id_length"@,
                34,
                35,
                byte_at(b, 34),
            )
            &&& w > 0 ==> s[3] == placed(
                m,
                at,
                "tls.handshake.session_id"@,
                35,
                35 + w,
                ValueView::Bytes,
            )
        }),
        hello_fields(b, at, m) == (Model { trace: hello_fields(b, at, m).trace, ..m }),
{
    broadcast use writing;

    nothing_written(m);
    let after = hello_fields(b, at, m);
    assert(written(after, m.count()).len() == after.count() - m.count());
}

/// A server's hello goes on with the cipher suite it chose, and then the
/// compression method.
pub proof fn choices_are_shown(b: Seq<u8>, at: int, m: Model)
    requires
        b.len() >= 38,
        b.len() == 38 + b[34],
    ensures
        ({
            let (after, stop, e) = server_hello(b, at, m);
            let s = written(after, m.count());
            let p = 35 + b[34];
            &&& e is None
            &&& s.len() >= 5
            &&& s[s.len() - 2] == placed(
                m,
                at,
                "tls.handshake.ciphersuite"@,
                p,
                p + 2,
                ValueView::Unsigned(two(b, p)),
            )
            &&& s[s.len() - 1] == placed(
                m,
                at,
                "tls.handshake.comp_method"@,
                p + 2,
                p + 3,
                byte_at(b, p + 2),
            )
        }),
{
    broadcast use writing;

    nothing_written(m);
    hellos_are_shown(b, at, m);
    let after = server_hello(b, at, m).0;
    assert(written(after, m.count()).len() == after.count() - m.count());
}

/// The fields of numbers of two bytes each in `l`, from `i` on.
pub open spec fn pairs(l: Seq<u8>, i: int, at: int, m: Model, name: Seq<char>) -> Seq<Field> {
    Seq::new(
        ((l.len() - i) / 2) as nat,
        |k: int|
            placed(
                m,
                at,
                name,
                i + 2 * k,
                i + 2 * k + 2,
                ValueView::Unsigned(two(l, i + 2 * k)),
            ),
    )
}

/// Cipher suites are two bytes each, in the order they stand.
pub proof fn cipher_suites_are_shown(l: Seq<u8>, i: int, at: int, m: Model, n: int)
    requires
        0 <= i <= l.len(),
        0 <= n <= m.count(),
    ensures
        written(suites(l, i, at, m), n) == written(m, n) + pairs(
            l,
            i,
            at,
            m,
            "tls.handshake.ciphersuite"@,
        ),
    decreases l.len() - i,
{
    broadcast use writing;

    let list = pairs(l, i, at, m, "tls.handshake.ciphersuite"@);
    if i + 2 <= l.len() {
        let next = m.leaf(
            "tls.handshake.ciphersuite"@,
            at + i,
            at + i + 2,
            ValueView::Unsigned(be16(l, i) as u64),
        );
        cipher_suites_are_shown(l, i + 2, at, next, n);
        let rest = pairs(l, i + 2, at, next, "tls.handshake.ciphersuite"@);
        assert forall|k: int| 0 <= k < rest.len() implies rest[k] == #[trigger] list[k + 1] by {
            assert(i + 2 + 2 * k == i + 2 * (k + 1));
        }
        assert(written(suites(l, i, at, m), n) =~= written(m, n) + list);
    } else {
        assert(written(m, n) =~= written(m, n) + list);
    }
}

/// Versions are two bytes each, in the order they stand.
pub proof fn versions_are_shown(
    l: Seq<u8>,
    i: int,
    at: int,
    m: Model,
    names: Seq<Seq<char>>,
    n: int,
)
    requires
        0 <= i <= l.len(),
        0 <= n <= m.count(),
    ensures
        written(versions(l, i, at, m, names).0, n) == written(m, n) + pairs(
            l,
            i,
            at,
            m,
            "tls.handshake.extensions.supported_version"@,
        ),
    decreases l.len() - i,
{
    broadcast use writing;

    let name = "tls.handshake.extensions.supported_version"@;
    let list = pairs(l, i, at, m, name);
    if i + 2 <= l.len() {
        let next = m.leaf(name, at + i, at + i + 2, ValueView::Unsigned(be16(l, i) as u64));
        let more = names.push(crate::dissect::proto::tls::version_text(be16(l, i)));
        versions_are_shown(l, i + 2, at, next, more, n);
        let rest = pairs(l, i + 2, at, next, name);
        assert forall|k: int| 0 <= k < rest.len() implies rest[k] == #[trigger] list[k + 1] by {
            assert(i + 2 + 2 * k == i + 2 * (k + 1));
        }
        assert(versions(l, i, at, m, names) == versions(l, i + 2, at, next, more));
        assert(written(versions(l, i, at, m, names).0, n) =~= written(m, n) + list);
    } else {
        assert(written(m, n) =~= written(m, n) + list);
    }
}

/// A server name is its type, a length of two bytes and that many bytes.
pub proof fn server_names_are_shown(l: Seq<u8>, i: int, at: int, m: Model, detail: Seq<char>)
    requires
        0 <= i,
        i + 3 <= l.len(),
        l.len() == i + 3 + two(l, i + 1),
    ensures
        ({
            let (after, e, _) = server_names(l, i, at, m, detail);
            let w = two(l, i + 1) as int;
            &&& e is None
            &&& written(after, m.count()) == seq![
                placed(
                    m,
                    at,
                    "tls.handshake.extensions_server_name_type"@,
                    i,
                    i + 1,
                    byte_at(l, i),
                ),
                placed(
                    m,
                    at,
                    "tls.handshake.extensions_server_name_len"@,
                    i + 1,
                    i + 3,
                    ValueView::Unsigned(two(l, i + 1)),
                ),
                placed(
                    m,
                    at,
                    "tls.handshake.extensions_server_name"@,
                    i + 3,
                    i + 3 + w,
                    ValueView::Str(utf8_lossy(bytes_at(l, i + 3, w))),
                ),
            ]
        }),
{
    broadcast use writing;

    reveal_with_fuel(server_names, 2);
    nothing_written(m);
    let after = server_names(l, i, at, m, detail).0;
    let w = two(l, i + 1) as int;
    assert(written(after, m.count()) =~= seq![
        placed(
            m,
            at,
            "tls.handshake.extensions_server_name_type"@,
            i,
            i + 1,
            byte_at(l, i),
        ),
        placed(
            m,
            at,
            "tls.handshake.extensions_server_name_len"@,
            i + 1,
            i + 3,
            ValueView::Unsigned(two(l, i + 1)),
        ),
        placed(
            m,
            at,
            "tls.handshake.extensions_server_name"@,
            i + 3,
            i + 3 + w,
            ValueView::Str(utf8_lossy(bytes_at(l, i + 3, w))),
        ),
    ]);
}

/// A protocol's name is a length of one byte and that many bytes.
pub proof fn protocol_names_are_shown(
    l: Seq<u8>,
    i: int,
    at: int,
    m: Model,
    names: Seq<Seq<char>>,
)
    requires
        0 <= i < l.len(),
        l.len() == i + 1 + l[i],
    ensures
        ({
            let (after, e, told) = protocol_names(l, i, at, m, names);
            let w = l[i] as int;
            let name = utf8_lossy(bytes_at(l, i + 1, w));
            &&& e is None
            &&& told == names.push(name)
            &&& written(after, m.count()) == seq![
                placed(
                    m,
                    at,
                    "tls.handshake.extensions_alpn_str_len"@,
                    i,
                    i + 1,
                    byte_at(l, i),
                ),
                placed(
                    m,
                    at,
                    "tls.handshake.extensions_alpn_str"@,
                    i + 1,
                    i + 1 + w,
                    ValueView::Str(name),
                ),
            ]
        }),
{
    broadcast use writing;

    reveal_with_fuel(protocol_names, 2);
    nothing_written(m);
    let after = protocol_names(l, i, at, m, names).0;
    let w = l[i] as int;
    assert(written(after, m.count()) =~= seq![
        placed(m, at, "tls.handshake.extensions_alpn_str_len"@, i, i + 1, byte_at(l, i)),
        placed(
            m,
            at,
            "tls.handshake.extensions_alpn_str"@,
            i + 1,
            i + 1 + w,
            ValueView::Str(utf8_lossy(bytes_at(l, i + 1, w))),
        ),
    ]);
}

/// A certificate is a length of three bytes and that many bytes, or as many
/// as there are.
pub proof fn certificates_are_shown(l: Seq<u8>, i: int, at: int, m: Model)
    requires
        0 <= i,
        i + 3 <= l.len(),
        three(l, i) >= l.len() - i - 3,
    ensures
        written(certificates(l, i, at, m), m.count()) == seq![
            placed(
                m,
                at,
                "tls.handshake.certificate_length"@,
                i,
                i + 3,
                ValueView::Unsigned(three(l, i)),
            ),
            placed(
                m,
                at,
                "tls.handshake.certificate"@,
                i + 3,
                l.len() - 0,
                ValueView::Bytes,
            ),
        ],
{
    broadcast use writing;

    reveal_with_fuel(certificates, 2);
    nothing_written(m);
    let after = certificates(l, i, at, m);
    assert(written(after, m.count()) =~= seq![
        placed(
            m,
            at,
            "tls.handshake.certificate_length"@,
            i,
            i + 3,
            ValueView::Unsigned(three(l, i)),
        ),
        placed(m, at, "tls.handshake.certificate"@, i + 3, l.len() - 0, ValueView::Bytes),
    ]);
}

/// An alert is its level and then its description; data and a change of
/// ciphers are shown as the bytes they are.
pub proof fn contents_are_shown(ct: u8, b: Seq<u8>, at: int, m: Model)
    requires
        ct == 20 || ct == 23 || (ct == 21 && b.len() >= 2),
    ensures
        ({
            let s = written(record_body(ct, b, at, m).0, m.count());
            let n = b.len() as int;
            &&& ct == 20 ==> s == seq![
                placed(m, at, "tls.change_cipher_spec"@, 0, n, ValueView::Empty),
            ]
            &&& ct == 23 ==> s == seq![placed(m, at, "tls.app_data"@, 0, n, ValueView::Bytes)]
            &&& ct == 21 ==> s == seq![
                placed(m, at, "tls.alert_message"@, 0, 2, ValueView::Empty),
                placed(m, at, "tls.alert_message.level"@, 0, 1, byte_at(b, 0)),
                placed(m, at, "tls.alert_message.desc"@, 1, 2, byte_at(b, 1)),
            ]
        }),
{
    broadcast use writing;

    reveal_strlit("tls.alert_message");
    reveal_strlit("_ws.malformed");
    assert("tls.alert_message"@.len() == 17 && "_ws.malformed"@.len() == 13);
    nothing_written(m);
    let s = written(record_body(ct, b, at, m).0, m.count());
    let n = b.len() as int;
    if ct == 20 {
        assert(s =~= seq![placed(m, at, "tls.change_cipher_spec"@, 0, n, ValueView::Empty)]);
    } else if ct == 23 {
        assert(s =~= seq![placed(m, at, "tls.app_data"@, 0, n, ValueView::Bytes)]);
    } else {
        assert(s =~= seq![
            placed(m, at, "tls.alert_message"@, 0, 2, ValueView::Empty),
            placed(m, at, "tls.alert_message.level"@, 0, 1, byte_at(b, 0)),
            placed(m, at, "tls.alert_message.desc"@, 1, 2, byte_at(b, 1)),
        ]);
    }
}

/// A record is its content type, its version, a length of two bytes and that
/// many bytes; what has not arrived of it is not shown.
pub proof fn records_are_shown(
    k: nat,
    d: Seq<u8>,
    i: int,
    at: int,
    m: Model,
    infos: Seq<Seq<char>>,
)
    requires
        k > 0,
        0 <= i,
        i + 5 <= d.len(),
        20 <= d[i] <= 24,
        0x300 <= two(d, i + 1) <= 0x304,
        two(d, i + 3) > d.len() - i - 5,
    ensures
        ({
            let (after, j, _) = records(k, d, i, at, m, infos);
            let n = d.len() as int;
            &&& j == n
            &&& written(after, m.count()) == seq![
                placed(m, at, "tls.record"@, i, n, ValueView::Empty),
                placed(m, at, "tls.record.content_type"@, i, i + 1, byte_at(d, i)),
                placed(
                    m,
                    at,
                    "tls.record.version"@,
                    i + 1,
                    i + 3,
                    ValueView::Unsigned(two(d, i + 1)),
                ),
                placed(
                    m,
                    at,
                    "tls.record.length"@,
                    i + 3,
                    i + 5,
                    ValueView::Unsigned(two(d, i + 3)),
                ),
                placed(m, at, "tls.continuation_data"@, i + 5, n, ValueView::Bytes),
            ]
        }),
{
    broadcast use writing;

    nothing_written(m);
    let rest = d.subrange(i, d.len() as int);
    assert(rest[0] == d[i] && rest[1] == d[i + 1] && rest[2] == d[i + 2]);
    assert(resembles_tls(rest));
    let after = records(k, d, i, at, m, infos).0;
    let n = d.len() as int;
    assert(written(after, m.count()) =~= seq![
        placed(m, at, "tls.record"@, i, n, ValueView::Empty),
        placed(m, at, "tls.record.content_type"@, i, i + 1, byte_at(d, i)),
        placed(
            m,
            at,
            "tls.record.version"@,
            i + 1,
            i + 3,
            ValueView::Unsigned(two(d, i + 1)),
        ),
        placed(
            m,
            at,
            "tls.record.length"@,
            i + 3,
            i + 5,
            ValueView::Unsigned(two(d, i + 3)),
        ),
        placed(m, at, "tls.continuation_data"@, i + 5, n, ValueView::Bytes),
    ]);
}

} // verus!
