//! The fields of HTTP messages.

use vstd::prelude::*;

use super::{nothing_written, writing, written, Field};
use crate::dissect::ctx::Model;
use crate::dissect::node::ValueView;
use crate::dissect::proto::http::{
    bodiless, field_from, first_line, header_field, parts_of, status_word, word_from, NAMED,
};
use crate::numerals::free_of;
use crate::text::{first_at, lowered, spelled, stands_at, trimmed};

verus! {

proof fn spaces(a: Seq<char>, s: Seq<char>, from: int, i: int)
    requires
        0 <= from <= i <= from + a.len(),
        from + a.len() < s.len(),
        free_of(a, ' '),
        s.subrange(from, from + a.len()) == a,
        s[from + a.len()] == ' ',
    ensures
        first_at(s, ' ', i) == Some(from + a.len()),
    decreases from + a.len() - i,
{
    if i < from + a.len() {
        assert(s[i] == s.subrange(from, from + a.len())[i - from]);
        spaces(a, s, from, i + 1);
    }
}

/// The first line comes apart at its first two spaces.
pub proof fn first_lines_have_three_parts(a: Seq<char>, b: Seq<char>, c: Seq<char>)
    requires
        free_of(a, ' '),
        free_of(b, ' '),
    ensures
        parts_of(a + seq![' '] + b + seq![' '] + c) == (a, b, c),
{
    let s = a + seq![' '] + b + seq![' '] + c;
    assert(s.subrange(0, a.len() as int) =~= a);
    spaces(a, s, 0, 0);
    let i = a.len() as int + 1;
    assert(s.subrange(i, i + b.len()) =~= b);
    spaces(b, s, i, i);
    assert(s.subrange(i + b.len() + 1, s.len() as int) =~= c);
    assert(word_from(s, 0).0 =~= a);
    assert(word_from(s, i).0 =~= b);
}

proof fn line_names()
    ensures
        "http.response"@ != "_ws.malformed"@,
        "http.request"@ != "_ws.malformed"@,
{
    reveal_strlit("_ws.malformed");
    reveal_strlit("http.response");
    reveal_strlit("http.request");
    assert("_ws.malformed"@.len() == 13 && "_ws.malformed"@[0] == '_');
    assert("http.response"@.len() == 13 && "http.response"@[0] == 'h');
    assert("http.request"@.len() == 12);
}

/// A request's first line shows the method, the target and the version, a
/// response's the version, the code and what the code means.
pub proof fn first_lines_are_shown(
    a: Seq<char>,
    b: Seq<char>,
    c: Seq<char>,
    start: int,
    end: int,
    m: Model,
)
    requires
        free_of(a, ' '),
        free_of(b, ' '),
    ensures
        ({
            let first = a + seq![' '] + b + seq![' '] + c;
            let s = written(first_line(first, start, end, m), m.count());
            let at = |name: Seq<char>, value: ValueView|
                Field { abbrev: name, source: m.source, start, end, value };
            &&& stands_at(first, "HTTP/"@, 0) ==> s == seq![
                at("http.response"@, ValueView::Empty),
                at("http.response.version"@, ValueView::Str(a)),
                at(
                    "http.response.code"@,
                    ValueView::Unsigned(
                        match spelled(b, 10, u64::MAX as int) {
                            Some(v) => v as u64,
                            None => 0,
                        },
                    ),
                ),
                at("http.response.phrase"@, ValueView::Str(c)),
            ]
            &&& !stands_at(first, "HTTP/"@, 0) ==> s == seq![
                at("http.request"@, ValueView::Empty),
                at("http.request.method"@, ValueView::Str(a)),
                at("http.request.uri"@, ValueView::Str(b)),
                at("http.request.version"@, ValueView::Str(c)),
            ]
        }),
{
    broadcast use writing;

    line_names();
    nothing_written(m);
    first_lines_have_three_parts(a, b, c);
    let first = a + seq![' '] + b + seq![' '] + c;
    let s = written(first_line(first, start, end, m), m.count());
    let at = |name: Seq<char>, value: ValueView|
        Field { abbrev: name, source: m.source, start, end, value };
    if stands_at(first, "HTTP/"@, 0) {
        assert(s =~= seq![
            at("http.response"@, ValueView::Empty),
            at("http.response.version"@, ValueView::Str(a)),
            at(
                "http.response.code"@,
                ValueView::Unsigned(
                    match spelled(b, 10, u64::MAX as int) {
                        Some(v) => v as u64,
                        None => 0,
                    },
                ),
            ),
            at("http.response.phrase"@, ValueView::Str(c)),
        ]);
    } else {
        assert(s =~= seq![
            at("http.request"@, ValueView::Empty),
            at("http.request.method"@, ValueView::Str(a)),
            at("http.request.uri"@, ValueView::Str(b)),
            at("http.request.version"@, ValueView::Str(c)),
        ]);
    }
}

/// Responses that say to go on, that nothing changed or that there is nothing
/// have no body; all others may have one.
pub proof fn some_responses_have_no_body(d: Seq<u8>, w: Seq<u8>)
    requires
        status_word(d) == Some(w),
        w.len() == 3,
    ensures
        bodiless(d) <==> w[0] == 49 || (w[0] == 50 && w[1] == 48 && w[2] == 52) || (w[0] == 51
            && w[1] == 48 && w[2] == 52),
{
    assert(w == seq![50u8, 48, 52] <==> w[0] == 50 && w[1] == 48 && w[2] == 52) by {
        if w[0] == 50 && w[1] == 48 && w[2] == 52 {
            assert(w =~= seq![50u8, 48, 52]);
        }
    }
    assert(w == seq![51u8, 48, 52] <==> w[0] == 51 && w[1] == 48 && w[2] == 52) by {
        if w[0] == 51 && w[1] == 48 && w[2] == 52 {
            assert(w =~= seq![51u8, 48, 52]);
        }
    }
}

proof fn header_names()
    ensures
        lowered("host"@).len() == 4,
        lowered("user-agent"@).len() == 10 && lowered("user-agent"@)[0] == 'u',
        lowered("content-type"@).len() == 12,
        lowered("server"@).len() == 6,
        lowered("connection"@).len() == 10 && lowered("connection"@)[0] == 'c',
        lowered("content-length"@).len() == 14,
        lowered("transfer-encoding"@).len() == 17,
{
    reveal_strlit("host");
    reveal_strlit("user-agent");
    reveal_strlit("content-type");
    reveal_strlit("server");
    reveal_strlit("connection");
    reveal_strlit("content-length");
    reveal_strlit("transfer-encoding");
}

/// A header is shown under the field of its name, in any case, and a header
/// without a field of its own under none.
pub proof fn headers_have_their_own_fields(name: Seq<char>)
    ensures
        lowered(name) == lowered("host"@) ==> field_from(name, 0) == Some("http.host"@),
        lowered(name) == lowered("user-agent"@) ==> field_from(name, 0) == Some(
            "http.user_agent"@,
        ),
        lowered(name) == lowered("content-type"@) ==> field_from(name, 0) == Some(
            "http.content_type"@,
        ),
        lowered(name) == lowered("server"@) ==> field_from(name, 0) == Some("http.server"@),
        lowered(name) == lowered("connection"@) ==> field_from(name, 0) == Some(
            "http.connection"@,
        ),
        lowered(name) == lowered("content-length"@) || lowered(name) == lowered(
            "transfer-encoding"@,
        ) ==> field_from(name, 0) is None,
{
    header_names();
    reveal_with_fuel(field_from, 6);
    assert(NAMED@.len() == 5);
    assert(NAMED@[0].0@ == "host"@ && NAMED@[1].0@ == "user-agent"@ && NAMED@[2].0@
        == "content-type"@ && NAMED@[3].0@ == "server"@ && NAMED@[4].0@ == "connection"@);
}

/// The value of a header is what stands behind its colon, without the spaces
/// around it; a length is shown as a number.
pub proof fn headers_are_shown(
    name: Seq<char>,
    value: Seq<char>,
    start: int,
    end: int,
    m: Model,
)
    requires
        free_of(name, ':'),
    ensures
        ({
            let line = name + seq![':'] + value;
            let s = written(header_field(line, start, end, m), m.count());
            let at = |field: Seq<char>, v: ValueView|
                seq![Field { abbrev: field, source: m.source, start, end, value: v }];
            &&& field_from(trimmed(name), 0) matches Some(field) ==> s == at(
                field,
                ValueView::Str(trimmed(value)),
            )
            &&& field_from(trimmed(name), 0) is None && lowered(trimmed(name)) == lowered(
                "transfer-encoding"@,
            ) ==> s == at("http.transfer_encoding"@, ValueView::Str(trimmed(value)))
            &&& field_from(trimmed(name), 0) is None && lowered(trimmed(name)) == lowered(
                "content-length"@,
            ) ==> (match spelled(trimmed(value), 10, u64::MAX as int) {
                Some(v) => s == at("http.content_length"@, ValueView::Unsigned(v as u64)),
                None => s.len() == 0,
            })
        }),
{
    broadcast use writing;

    header_names();
    nothing_written(m);
    let line = name + seq![':'] + value;
    colon_found(name, value, 0);
    assert(line.subrange(0, name.len() as int) =~= name);
    assert(line.subrange(name.len() as int + 1, line.len() as int) =~= value);
    let s = written(header_field(line, start, end, m), m.count());
    if s.len() == 1 {
        assert(s =~= seq![s[0]]);
    }
    assert(s.len() == header_field(line, start, end, m).count() - m.count());
}

proof fn colon_found(name: Seq<char>, value: Seq<char>, i: int)
    requires
        free_of(name, ':'),
        0 <= i <= name.len(),
    ensures
        first_at(name + seq![':'] + value, ':', i) == Some(name.len() as int),
    decreases name.len() - i,
{
    let line = name + seq![':'] + value;
    if i < name.len() {
        assert(line[i] == name[i]);
        colon_found(name, value, i + 1);
    } else {
        assert(line[i] == ':');
    }
}

} // verus!
