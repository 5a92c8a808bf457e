//! Completion suggestions for the filter bar, drawn from the field registry
//! so the same source of truth drives the tree, the language and the hints.

use vstd::prelude::*;
use vstd::utf8::*;

use super::lex::is_field_char;
use crate::bytes;
use crate::dissect::registry::{self, index_of, FieldDef};
use crate::dissect::tables::{abbrev_at, FIELD_COUNT};
use crate::text;
use crate::text::{holds, latin, lowered, stands_at};

verus! {

/// Where the word that ends at `i` starts.
pub open spec fn word_start(d: Seq<u8>, i: int) -> int
    decreases i,
{
    if 0 < i <= d.len() && is_field_char(d[i - 1] as char) {
        word_start(d, i - 1)
    } else {
        i
    }
}

/// The caret, which may stand behind the text, as a position in it.
pub open spec fn caret_in(d: Seq<u8>, caret: usize) -> int {
    if caret < d.len() {
        caret as int
    } else {
        d.len() as int
    }
}

/// What stands in front of the word under the caret is an ASCII character, or
/// nothing.
pub open spec fn separated(text: Seq<char>, caret: usize) -> bool {
    let d = encode_utf8(text);
    let start = word_start(d, caret_in(d, caret));
    start == 0 || d[start - 1] < 0x80
}

/// Part of a field name.
fn field_char(c: char) -> (r: bool)
    ensures
        r == is_field_char(c),
{
    ('a' <= c && c <= 'z') || ('A' <= c && c <= 'Z') || ('0' <= c && c <= '9') || c == '_' || c
        == '.'
}

/// Bytes that are all ASCII are text as they stand.
proof fn lemma_ascii(b: Seq<u8>)
    requires
        forall|i: int| 0 <= i < b.len() ==> #[trigger] b[i] < 0x80,
    ensures
        valid_utf8(b),
        decode_utf8(b) == latin(b),
{
    let c = latin(b);
    assert forall|i: int| 0 <= i < c.len() implies 0 <= #[trigger] c[i] as nat && (c[i] as nat)
        < 128 by {
        assert(b[i] < 0x80);
    }
    assert(is_ascii_chars(c));
    is_ascii_chars_encode_utf8(c);
    assert(encode_utf8(c) =~= b) by {
        assert forall|i: int| 0 <= i < b.len() implies encode_utf8(c)[i] == b[i] by {
            assert(b[i] < 0x80);
            assert(c[i] == b[i] as char);
        }
    }
    encode_utf8_valid_utf8(c);
    encode_utf8_decode_utf8(c);
}

/// Where the word being typed starts, and what it is so far.
pub fn word_at(text: &str, caret: usize) -> (r: (usize, &str))
    requires
        separated(text@, caret),
    ensures
        ({
            let d = encode_utf8(text@);
            let end = caret_in(d, caret);
            &&& r.0 == word_start(d, end)
            &&& r.0 <= end
            &&& r.1@ == latin(d.subrange(r.0 as int, end))
            &&& encode_utf8(r.1@) == d.subrange(r.0 as int, end)
        }),
{
    let d: &[u8] = text.as_bytes();
    let end: usize = if caret < d.len() {
        caret
    } else {
        d.len()
    };
    let mut start: usize = end;
    while start > 0 && field_char(d[start - 1] as char)
        invariant
            start <= end <= d@.len(),
            word_start(d@, end as int) == word_start(d@, start as int),
            forall|i: int| start <= i < end ==> #[trigger] d@[i] < 0x80,
        decreases start,
    {
        start -= 1;
    }
    let part: &[u8] = bytes::part(d, start, end);
    proof {
        lemma_ascii(part@);
        decode_utf8_encode_utf8(part@);
    }
    match text::from_utf8(part) {
        Some(word) => (start, word),
        None => (start, ""),
    }
}

/// The fields from `i` on whose names begin with `prefix`, or, with `inside`,
/// those that hold it somewhere else.
pub open spec fn named_like(prefix: Seq<char>, inside: bool, i: int) -> Seq<int>
    decreases FIELD_COUNT - i,
{
    if i < 0 || i >= FIELD_COUNT {
        Seq::empty()
    } else {
        let begins = stands_at(abbrev_at(i), prefix, 0);
        let rest = named_like(prefix, inside, i + 1);
        if (!inside && begins) || (inside && !begins && holds(abbrev_at(i), prefix)) {
            seq![i] + rest
        } else {
            rest
        }
    }
}

/// Field names that continue `prefix`, best first: exact prefix matches in
/// registry order, then names containing it, at most `limit` of them.
pub open spec fn suggestions(prefix: Seq<char>, limit: int) -> Seq<int> {
    if prefix.len() == 0 {
        Seq::empty()
    } else {
        let word = lowered(prefix);
        let all = named_like(word, false, 0) + named_like(word, true, 0);
        if all.len() <= limit {
            all
        } else {
            all.take(limit)
        }
    }
}

/// The definitions are those of the given fields, in that order.
pub open spec fn are_fields(defs: Seq<FieldDef>, at: Seq<int>) -> bool {
    defs.len() == at.len() && forall|k: int|
        0 <= k < at.len() ==> (#[trigger] defs[k]).is_field(at[k])
}

fn starts(s: &[char], head: &[char]) -> (r: bool)
    ensures
        r == stands_at(s@, head@, 0),
{
    s.len() >= head.len() && text::same_chars(
        vstd::slice::slice_subrange(s, 0, head.len()),
        head,
    )
}

/// Field names that continue `prefix`, best first: exact prefix matches in
/// registry order, then names containing it.
pub fn suggest(prefix: &str, limit: usize) -> (r: Vec<FieldDef>)
    ensures
        are_fields(r@, suggestions(prefix@, limit as int)),
{
    let mut first: Vec<FieldDef> = Vec::new();
    if text::is_empty(prefix) {
        return first;
    }
    let word: Vec<char> = text::lowercase(text::chars_of(prefix).as_slice());
    let mut second: Vec<FieldDef> = Vec::new();
    let ghost w = lowered(prefix@);
    let ghost mut a: Seq<int> = Seq::empty();
    let ghost mut b: Seq<int> = Seq::empty();
    let mut i: usize = 0;
    proof {
        assert(a + named_like(w, false, 0) =~= named_like(w, false, 0));
        assert(b + named_like(w, true, 0) =~= named_like(w, true, 0));
    }
    while i < FIELD_COUNT
        invariant
            i <= FIELD_COUNT,
            word@ == w,
            named_like(w, false, 0) == a + named_like(w, false, i as int),
            named_like(w, true, 0) == b + named_like(w, true, i as int),
            are_fields(first@, a),
            are_fields(second@, b),
        decreases FIELD_COUNT - i,
    {
        let ghost (a0, b0) = (a, b);
        if let Some(def) = registry::field(i as u16) {
            let name: Vec<char> = text::chars_of(def.abbrev);
            if starts(name.as_slice(), word.as_slice()) {
                first.push(def);
                proof {
                    a = a.push(i as int);
                    assert(a0 + (seq![i as int] + named_like(w, false, i + 1)) =~= a + named_like(
                        w,
                        false,
                        i + 1,
                    ));
                }
            } else if text::contains(name.as_slice(), word.as_slice()) {
                second.push(def);
                proof {
                    b = b.push(i as int);
                    assert(b0 + (seq![i as int] + named_like(w, true, i + 1)) =~= b + named_like(
                        w,
                        true,
                        i + 1,
                    ));
                }
            }
        }
        i += 1;
    }
    proof {
        assert(a + Seq::<int>::empty() =~= a);
        assert(b + Seq::<int>::empty() =~= b);
    }
    let ghost n = first@.len();
    first.append(&mut second);
    proof {
        assert(are_fields(first@, a + b));
    }
    if first.len() > limit {
        first.truncate(limit);
    }
    first
}

/// Suggestions for the word the caret is in, with the span they replace. A
/// word that is already exactly a field name needs no suggestions.
pub fn suggest_at(text: &str, caret: usize, limit: usize) -> (r: (usize, usize, Vec<FieldDef>))
    requires
        separated(text@, caret),
    ensures
        ({
            let d = encode_utf8(text@);
            let end = caret_in(d, caret);
            let start = word_start(d, end);
            let word = latin(d.subrange(start, end));
            &&& r.0 == start
            &&& r.1 == end
            &&& are_fields(
                r.2@,
                if index_of(word) is Some {
                    Seq::empty()
                } else {
                    suggestions(word, limit as int)
                },
            )
        }),
{
    let (start, word) = word_at(text, caret);
    let end: usize = start + word.as_bytes().len();
    if registry::lookup(word).is_some() {
        return (start, end, Vec::new());
    }
    (start, end, suggest(word, limit))
}

} // verus!
