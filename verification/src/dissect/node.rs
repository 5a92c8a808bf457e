//! The dissection tree.
//!
//! Dissectors write rows through a `TreeBuilder`, or build `Node`s: an ordinary
//! pointer tree, convenient to construct. The store keeps a `Tree`: the same
//! nodes flattened depth-first into one contiguous array of 28-byte records
//! plus a byte arena for strings. Every node carries the byte range it was
//! decoded from; the hex pane highlights from it and the filter engine reads
//! from it.
//!
//! Labels are not stored: a node holds its field and typed value, and the
//! display label is formatted on demand from the field registry. Nodes that
//! need free text carry it in `text`, which overrides the formatted label.

use std::ops::Range;

use vstd::prelude::*;
use vstd::utf8::*;

use crate::bytes;
use crate::bytes::{be16, le32, le32_bytes, le64};
use crate::dissect::registry;
use crate::dissect::registry::{id_of, index_of, name_of, Interner};
use crate::dissect::tables::{abbrev_at, FIELD_COUNT};
use crate::text;
use crate::text::{dec, digit, hex};

pub use crate::dissect::cursor::SourceId;

verus! {

/// A typed field value. `Bytes` has no payload because the bytes are the
/// node's range within its data source; evaluators read them from there.
#[derive(Debug, Clone, PartialEq, Eq)]
pub enum Value {
    /// A pure container (protocol or group) with no value of its own.
    Empty,
    Bool(bool),
    Unsigned(u64),
    Signed(i64),
    Str(String),
    Bytes,
    Ipv4([u8; 4]),
    Ipv6([u8; 16]),
    Mac([u8; 6]),
}

/// What a value stands for.
#[verifier::ext_equal]
pub enum ValueView {
    Empty,
    Bool(bool),
    Unsigned(u64),
    Signed(i64),
    Str(Seq<char>),
    Bytes,
    Ipv4(Seq<u8>),
    Ipv6(Seq<u8>),
    Mac(Seq<u8>),
}

impl View for Value {
    type V = ValueView;

    open spec fn view(&self) -> ValueView {
        match *self {
            Value::Empty => ValueView::Empty,
            Value::Bool(b) => ValueView::Bool(b),
            Value::Unsigned(u) => ValueView::Unsigned(u),
            Value::Signed(i) => ValueView::Signed(i),
            Value::Str(s) => ValueView::Str(s@),
            Value::Bytes => ValueView::Bytes,
            Value::Ipv4(a) => ValueView::Ipv4(a@),
            Value::Ipv6(a) => ValueView::Ipv6(a@),
            Value::Mac(m) => ValueView::Mac(m@),
        }
    }
}

/// One byte as two hexadecimal digits.
pub open spec fn hex2(b: u8) -> Seq<char> {
    seq![digit((b / 16) as int), digit((b % 16) as int)]
}

/// `aa:bb:cc:dd:ee:ff`.
pub open spec fn mac_text(m: Seq<u8>) -> Seq<char> {
    hex2(m[0]) + ":"@ + hex2(m[1]) + ":"@ + hex2(m[2]) + ":"@ + hex2(m[3]) + ":"@ + hex2(m[4])
        + ":"@ + hex2(m[5])
}

/// Dotted quad.
pub open spec fn ipv4_text(a: Seq<u8>) -> Seq<char> {
    dec(a[0] as int) + "."@ + dec(a[1] as int) + "."@ + dec(a[2] as int) + "."@ + dec(a[3] as int)
}

/// How many consecutive zero groups start at group `i`.
pub open spec fn zero_run(a: Seq<u8>, i: int) -> int
    decreases 8 - i,
{
    if i < 0 || i >= 8 || be16(a, 2 * i) != 0 {
        0
    } else {
        1 + zero_run(a, i + 1)
    }
}

/// The first of the longest runs of zero groups starts at `s`.
pub open spec fn longest_run(a: Seq<u8>, s: int) -> bool {
    &&& 0 <= s < 8
    &&& forall|t: int| 0 <= t < 8 ==> #[trigger] zero_run(a, t) <= zero_run(a, s)
    &&& forall|t: int| 0 <= t < s ==> #[trigger] zero_run(a, t) < zero_run(a, s)
}

/// Groups `i..j` in hexadecimal with colons between them.
pub open spec fn groups_text(a: Seq<u8>, i: int, j: int) -> Seq<char>
    decreases j - i,
{
    if i >= j {
        Seq::empty()
    } else if i + 1 == j {
        hex(be16(a, 2 * i) as int)
    } else {
        groups_text(a, i, j - 1) + ":"@ + hex(be16(a, 2 * (j - 1)) as int)
    }
}

/// An IPv4 address carried in an IPv6 one.
pub open spec fn is_v4_mapped(a: Seq<u8>) -> bool {
    (forall|i: int| 0 <= i < 10 ==> a[i] == 0) && a[10] == 0xff && a[11] == 0xff
}

/// The text of an IPv6 address: lower-case groups without leading zeros, the
/// first longest run of two or more zero groups written `::`, and an IPv4
/// address carried inside written dotted.
pub open spec fn ipv6_text(a: Seq<u8>) -> Seq<char> {
    if is_v4_mapped(a) {
        "::ffff:"@ + ipv4_text(a.subrange(12, 16))
    } else {
        let s = choose|s: int| longest_run(a, s);
        if zero_run(a, s) >= 2 {
            groups_text(a, 0, s) + "::"@ + groups_text(a, s + zero_run(a, s), 8)
        } else {
            groups_text(a, 0, 8)
        }
    }
}

fn push_hex2(s: &mut String, b: u8)
    ensures
        final(s)@ == old(s)@ + hex2(b),
{
    s.push(text::digit_char(b / 16));
    s.push(text::digit_char(b % 16));
    assert(s@ =~= old(s)@ + hex2(b));
}

/// `aa:bb:cc:dd:ee:ff`.
pub fn fmt_mac(m: [u8; 6]) -> (r: String)
    ensures
        r@ == mac_text(m@),
{
    let mut s: String = String::new();
    push_hex2(&mut s, m[0]);
    assert(s@ =~= hex2(m@[0]));
    s.push_str(":");
    push_hex2(&mut s, m[1]);
    s.push_str(":");
    push_hex2(&mut s, m[2]);
    s.push_str(":");
    push_hex2(&mut s, m[3]);
    s.push_str(":");
    push_hex2(&mut s, m[4]);
    s.push_str(":");
    push_hex2(&mut s, m[5]);
    s
}

/// Dotted quad.
pub fn fmt_ipv4(a: [u8; 4]) -> (r: String)
    ensures
        r@ == ipv4_text(a@),
{
    let mut s: String = text::dec_text(a[0] as u64);
    s.push_str(".");
    text::push_dec(&mut s, a[1] as u64);
    s.push_str(".");
    text::push_dec(&mut s, a[2] as u64);
    s.push_str(".");
    text::push_dec(&mut s, a[3] as u64);
    s
}

fn run_at(a: &[u8; 16], i: usize) -> (r: usize)
    requires
        i <= 8,
    ensures
        r == zero_run(a@, i as int),
        r <= 8 - i,
    decreases 8 - i,
{
    if i >= 8 || bytes::get_be16(a, 2 * i) != 0 {
        0
    } else {
        1 + run_at(a, i + 1)
    }
}

fn push_groups(s: &mut String, a: &[u8; 16], i: usize, j: usize)
    requires
        i <= j <= 8,
    ensures
        final(s)@ == old(s)@ + groups_text(a@, i as int, j as int),
    decreases j - i,
{
    if i >= j {
        assert(s@ =~= old(s)@ + groups_text(a@, i as int, j as int));
    } else if i + 1 == j {
        text::push_hex(s, bytes::get_be16(a, 2 * i) as u64, 0);
    } else {
        push_groups(s, a, i, j - 1);
        s.push_str(":");
        text::push_hex(s, bytes::get_be16(a, 2 * (j - 1)) as u64, 0);
        assert(s@ =~= old(s)@ + groups_text(a@, i as int, j as int));
    }
}

/// The text of an IPv6 address.
pub fn fmt_ipv6(a: [u8; 16]) -> (r: String)
    ensures
        r@ == ipv6_text(a@),
{
    let mapped: bool = a[0] == 0 && a[1] == 0 && a[2] == 0 && a[3] == 0 && a[4] == 0 && a[5] == 0
        && a[6] == 0 && a[7] == 0 && a[8] == 0 && a[9] == 0 && a[10] == 0xff && a[11] == 0xff;
    assert(mapped == is_v4_mapped(a@)) by {
        if mapped {
            assert forall|i: int| 0 <= i < 10 implies a@[i] == 0 by {
                if i == 0 {
                } else if i == 1 {
                } else if i == 2 {
                } else if i == 3 {
                } else if i == 4 {
                } else if i == 5 {
                } else if i == 6 {
                } else if i == 7 {
                } else if i == 8 {
                }
            }
        } else if is_v4_mapped(a@) {
            assert(a@[0] == 0 && a@[1] == 0 && a@[2] == 0 && a@[3] == 0 && a@[4] == 0);
            assert(a@[5] == 0 && a@[6] == 0 && a@[7] == 0 && a@[8] == 0 && a@[9] == 0);
        }
    }
    if mapped {
        let v4: [u8; 4] = [a[12], a[13], a[14], a[15]];
        assert(v4@ =~= a@.subrange(12, 16));
        return text::cat("::ffff:", &fmt_ipv4(v4));
    }
    let mut best: usize = 0;
    let mut best_len: usize = run_at(&a, 0);
    let mut i: usize = 1;
    while i < 8
        invariant
            1 <= i <= 8,
            best < i,
            best_len == zero_run(a@, best as int),
            best_len <= 8 - best,
            forall|t: int| 0 <= t < i ==> #[trigger] zero_run(a@, t) <= best_len,
            forall|t: int| 0 <= t < best ==> #[trigger] zero_run(a@, t) < best_len,
        decreases 8 - i,
    {
        let n: usize = run_at(&a, i);
        if n > best_len {
            best = i;
            best_len = n;
        }
        i += 1;
    }
    assert(longest_run(a@, best as int));
    let ghost s0 = choose|s: int| longest_run(a@, s);
    assert(longest_run(a@, s0));
    assert(s0 == best) by {
        assert(zero_run(a@, s0) <= zero_run(a@, best as int));
        assert(zero_run(a@, best as int) <= zero_run(a@, s0));
    }
    let mut s: String = String::new();
    if best_len >= 2 {
        push_groups(&mut s, &a, 0, best);
        assert(s@ =~= groups_text(a@, 0, best as int));
        s.push_str("::");
        push_groups(&mut s, &a, best + best_len, 8);
    } else {
        push_groups(&mut s, &a, 0, 8);
        assert(s@ =~= groups_text(a@, 0, 8));
    }
    s
}

/// The text of a value on its own.
pub open spec fn value_display(v: ValueView) -> Seq<char> {
    match v {
        ValueView::Empty | ValueView::Bytes => Seq::empty(),
        ValueView::Bool(b) => if b {
            "true"@
        } else {
            "false"@
        },
        ValueView::Unsigned(u) => dec(u as int),
        ValueView::Signed(i) => text::signed(i as int),
        ValueView::Str(s) => s,
        ValueView::Ipv4(a) => ipv4_text(a),
        ValueView::Ipv6(a) => ipv6_text(a),
        ValueView::Mac(m) => mac_text(m),
    }
}

impl Value {
    /// The text of this value on its own.
    pub fn text(&self) -> (r: String)
        ensures
            r@ == value_display(self@),
    {
        match self {
            Value::Empty | Value::Bytes => String::new(),
            Value::Bool(b) => if *b {
                text::owned("true")
            } else {
                text::owned("false")
            },
            Value::Unsigned(u) => text::dec_text(*u),
            Value::Signed(i) => {
                let mut s: String = String::new();
                text::push_signed(&mut s, *i);
                assert(s@ =~= text::signed(*i as int));
                s
            },
            Value::Str(s) => s.clone(),
            Value::Ipv4(a) => fmt_ipv4(*a),
            Value::Ipv6(a) => fmt_ipv6(*a),
            Value::Mac(m) => fmt_mac(*m),
        }
    }

    /// A copy of this value.
    pub fn copied(&self) -> (r: Value)
        ensures
            r@ == self@,
    {
        match self {
            Value::Empty => Value::Empty,
            Value::Bool(b) => Value::Bool(*b),
            Value::Unsigned(u) => Value::Unsigned(*u),
            Value::Signed(i) => Value::Signed(*i),
            Value::Str(s) => Value::Str(s.clone()),
            Value::Bytes => Value::Bytes,
            Value::Ipv4(a) => Value::Ipv4(*a),
            Value::Ipv6(a) => Value::Ipv6(*a),
            Value::Mac(m) => Value::Mac(*m),
        }
    }
}

/// One row of a tree: a node without its children, at a depth.
#[verifier::ext_equal]
pub struct Row {
    pub abbrev: Seq<char>,
    pub source: SourceId,
    pub start: int,
    pub end: int,
    pub depth: int,
    pub value: ValueView,
    pub text: Option<Seq<char>>,
}

// ---- rows under construction ------------------------------------------------

/// One row as a dissector wrote it.
#[derive(Debug)]
pub struct Entry {
    pub abbrev: &'static str,
    pub source: SourceId,
    pub start: usize,
    pub end: usize,
    pub depth: u8,
    pub value: Value,
    pub text: Option<String>,
}

/// The characters of optional text.
pub open spec fn text_view(t: Option<String>) -> Option<Seq<char>> {
    match t {
        Some(s) => Some(s@),
        None => None,
    }
}

impl View for Entry {
    type V = Row;

    open spec fn view(&self) -> Row {
        Row {
            abbrev: self.abbrev@,
            source: self.source,
            start: self.start as int,
            end: self.end as int,
            depth: self.depth as int,
            value: self.value@,
            text: text_view(self.text),
        }
    }
}

/// The rows of a sequence of entries.
pub open spec fn entry_rows(s: Seq<Entry>) -> Seq<Row> {
    s.map_values(|e: Entry| e@)
}

/// Rows written so far and the depth the next one goes to.
#[verifier::ext_equal]
pub struct Trace {
    pub rows: Seq<Row>,
    pub depth: int,
}

/// One level deeper; depths stop at what a byte holds.
pub open spec fn deeper(d: int) -> int {
    if d < 255 {
        d + 1
    } else {
        255
    }
}

/// One level up; the outermost level is its own parent.
pub open spec fn shallower(d: int) -> int {
    if d > 0 {
        d - 1
    } else {
        0
    }
}

impl Trace {
    /// A row at the current depth.
    pub open spec fn leaf(
        self,
        abbrev: Seq<char>,
        source: SourceId,
        start: int,
        end: int,
        value: ValueView,
    ) -> Trace {
        Trace {
            rows: self.rows.push(
                Row { abbrev, source, start, end, depth: self.depth, value, text: None },
            ),
            ..self
        }
    }

    /// A row at the current depth with a label of its own.
    pub open spec fn leaf_text(
        self,
        abbrev: Seq<char>,
        source: SourceId,
        start: int,
        end: int,
        value: ValueView,
        text: Seq<char>,
    ) -> Trace {
        Trace {
            rows: self.rows.push(
                Row { abbrev, source, start, end, depth: self.depth, value, text: Some(text) },
            ),
            ..self
        }
    }

    /// Later rows are children of the row written last.
    pub open spec fn down(self) -> Trace {
        Trace { depth: deeper(self.depth), ..self }
    }

    /// Later rows are siblings of the open container.
    pub open spec fn up(self) -> Trace {
        Trace { depth: shallower(self.depth), ..self }
    }

    /// Later rows go to depth `depth`.
    pub open spec fn at_depth(self, depth: int) -> Trace {
        Trace { depth, ..self }
    }

    /// Row `id` labelled `text`.
    pub open spec fn label(self, id: int, text: Seq<char>) -> Trace {
        Trace { rows: self.rows.update(id, Row { text: Some(text), ..self.rows[id] }), ..self }
    }

    /// Row `id` ending at `end`.
    pub open spec fn end_at(self, id: int, end: int) -> Trace {
        Trace { rows: self.rows.update(id, Row { end, ..self.rows[id] }), ..self }
    }

    /// Row `id`, if there is one, holding `value`.
    pub open spec fn hold(self, id: int, value: ValueView) -> Trace {
        if 0 <= id < self.rows.len() {
            Trace { rows: self.rows.update(id, Row { value, ..self.rows[id] }), ..self }
        } else {
            self
        }
    }

    /// The rows of `other` behind these.
    pub open spec fn append(self, other: Trace) -> Trace {
        Trace { rows: self.rows + other.rows, ..self }
    }
}

/// The furthest end among rows `lo..` that lie in `source`, at least `least`.
pub open spec fn furthest(rows: Seq<Row>, lo: int, source: SourceId, least: int) -> int
    decreases rows.len() - lo,
{
    if lo < 0 || lo >= rows.len() {
        least
    } else {
        furthest(
            rows,
            lo + 1,
            source,
            if rows[lo].source == source && rows[lo].end > least {
                rows[lo].end
            } else {
                least
            },
        )
    }
}

/// Position of a row among those written.
pub type NodeId = usize;

/// Writes rows in depth-first order.
#[derive(Debug)]
pub struct TreeBuilder {
    rows: Vec<Entry>,
    depth: u8,
}

impl View for TreeBuilder {
    type V = Trace;

    closed spec fn view(&self) -> Trace {
        Trace { rows: entry_rows(self.rows@), depth: self.depth as int }
    }
}

impl TreeBuilder {
    pub fn new() -> (r: TreeBuilder)
        ensures
            r@ == (Trace { rows: Seq::empty(), depth: 0 }),
    {
        let r = TreeBuilder { rows: Vec::new(), depth: 0 };
        assert(r@.rows =~= Seq::empty());
        r
    }

    /// A builder whose first row goes to `depth`, for rows that are appended
    /// to another builder later.
    pub fn at(depth: u8) -> (r: TreeBuilder)
        ensures
            r@ == (Trace { rows: Seq::empty(), depth: depth as int }),
    {
        let r = TreeBuilder { rows: Vec::new(), depth };
        assert(r@.rows =~= Seq::empty());
        r
    }

    fn push(&mut self, e: Entry)
        ensures
            final(self)@ == (Trace { rows: old(self)@.rows.push(e@), ..old(self)@ }),
    {
        self.rows.push(e);
        assert(self@.rows =~= old(self)@.rows.push(e@));
    }

    /// A row at the current depth.
    pub fn leaf(
        &mut self,
        abbrev: &'static str,
        source: SourceId,
        range: Range<usize>,
        value: Value,
    ) -> (id: NodeId)
        ensures
            id == old(self)@.rows.len(),
            final(self)@ == old(self)@.leaf(
                abbrev@,
                source,
                range.start as int,
                range.end as int,
                value@,
            ),
    {
        let id: usize = self.rows.len();
        let depth: u8 = self.depth;
        self.push(
            Entry { abbrev, source, start: range.start, end: range.end, depth, value, text: None },
        );
        id
    }

    /// A row at the current depth with a label of its own.
    pub fn leaf_text(
        &mut self,
        abbrev: &'static str,
        source: SourceId,
        range: Range<usize>,
        value: Value,
        text: String,
    ) -> (id: NodeId)
        ensures
            id == old(self)@.rows.len(),
            final(self)@ == old(self)@.leaf_text(
                abbrev@,
                source,
                range.start as int,
                range.end as int,
                value@,
                text@,
            ),
    {
        let id: usize = self.rows.len();
        let depth: u8 = self.depth;
        self.push(
            Entry {
                abbrev,
                source,
                start: range.start,
                end: range.end,
                depth,
                value,
                text: Some(text),
            },
        );
        id
    }

    /// Open a container; rows written until `end` are its children.
    pub fn begin(&mut self, abbrev: &'static str, source: SourceId, range: Range<usize>) -> (id:
        NodeId)
        ensures
            id == old(self)@.rows.len(),
            final(self)@ == old(self)@.leaf(
                abbrev@,
                source,
                range.start as int,
                range.end as int,
                ValueView::Empty,
            ).down(),
    {
        let id: usize = self.leaf(abbrev, source, range, Value::Empty);
        self.down();
        id
    }

    /// Later rows are children of the row written last.
    pub fn down(&mut self)
        ensures
            final(self)@ == old(self)@.down(),
    {
        if self.depth < 255 {
            self.depth = self.depth + 1;
        }
    }

    /// Close the innermost container.
    pub fn end(&mut self)
        ensures
            final(self)@ == old(self)@.up(),
    {
        if self.depth > 0 {
            self.depth = self.depth - 1;
        }
    }

    /// The depth the next row goes to.
    pub fn depth(&self) -> (r: u8)
        ensures
            r == self@.depth,
    {
        self.depth
    }

    pub fn set_depth(&mut self, depth: u8)
        ensures
            final(self)@ == old(self)@.at_depth(depth as int),
    {
        self.depth = depth;
    }

    /// Rows written so far.
    pub fn len(&self) -> (r: usize)
        ensures
            r == self@.rows.len(),
    {
        self.rows.len()
    }

    /// Label row `id`.
    pub fn set_text(&mut self, id: NodeId, text: String)
        requires
            id < old(self)@.rows.len(),
        ensures
            final(self)@ == old(self)@.label(id as int, text@),
    {
        self.rows[id].text = Some(text);
        assert(self@.rows =~= old(self)@.label(id as int, text@).rows);
    }

    /// Set where row `id` ends.
    pub fn set_end(&mut self, id: NodeId, end: usize)
        requires
            id < old(self)@.rows.len(),
        ensures
            final(self)@ == old(self)@.end_at(id as int, end as int),
    {
        self.rows[id].end = end;
        assert(self@.rows =~= old(self)@.end_at(id as int, end as int).rows);
    }

    /// Replace the value of row `id`, if there is one.
    pub fn set_value(&mut self, id: NodeId, value: Value)
        ensures
            final(self)@ == old(self)@.hold(id as int, value@),
    {
        if id < self.rows.len() {
            self.rows[id].value = value;
            assert(self@.rows =~= old(self)@.hold(id as int, value@).rows);
        }
    }

    /// Put the rows of `other` behind these.
    pub fn append(&mut self, other: TreeBuilder)
        ensures
            final(self)@ == old(self)@.append(other@),
    {
        let mut rows: Vec<Entry> = other.rows;
        self.rows.append(&mut rows);
        assert(self@.rows =~= old(self)@.append(other@).rows);
    }

    /// The furthest end among rows `lo..` that lie in `source`.
    pub fn furthest_end(&self, lo: usize, source: SourceId, least: usize) -> (r: usize)
        ensures
            r == furthest(self@.rows, lo as int, source, least as int),
    {
        let mut best: usize = least;
        let mut i: usize = lo;
        while i < self.rows.len()
            invariant
                lo <= i,
                i <= self.rows.len() || i == lo,
                furthest(self@.rows, lo as int, source, least as int) == furthest(
                    self@.rows,
                    i as int,
                    source,
                    best as int,
                ),
                self@.rows == entry_rows(self.rows@),
            decreases self.rows.len() - i,
        {
            assert(self@.rows[i as int] == self.rows@[i as int]@);
            if self.rows[i].source == source && self.rows[i].end > best {
                best = self.rows[i].end;
            }
            i += 1;
        }
        best
    }

    /// Make row `id` cover the rows written since.
    pub fn fit_range(&mut self, id: NodeId)
        requires
            id < old(self)@.rows.len(),
        ensures
            final(self)@ == old(self)@.end_at(
                id as int,
                furthest(
                    old(self)@.rows,
                    id as int,
                    old(self)@.rows[id as int].source,
                    old(self)@.rows[id as int].start,
                ),
            ),
    {
        assert(self@.rows[id as int] == self.rows@[id as int]@);
        let source: SourceId = self.rows[id].source;
        let start: usize = self.rows[id].start;
        let end: usize = self.furthest_end(id, source, start);
        self.set_end(id, end);
    }
}

// ---- compact form -------------------------------------------------------------

const TAG_EMPTY: u8 = 0;

const TAG_BOOL: u8 = 1;

const TAG_UNSIGNED: u8 = 2;

const TAG_SIGNED: u8 = 3;

const TAG_STR: u8 = 4;

const TAG_BYTES: u8 = 5;

const TAG_IPV4: u8 = 6;

const TAG_IPV6: u8 = 7;

const TAG_MAC: u8 = 8;

/// One flattened node. 28 bytes.
#[derive(Debug, Clone, Copy, PartialEq, Eq)]
pub struct TreeNode {
    field: u16,
    depth: u8,
    source: SourceId,
    tag: u8,
    text_len: u16,
    start: u32,
    len: u32,
    text_off: u32,
    /// Inline scalar, or offset and length in the arena for strings and IPv6.
    payload: [u8; 8],
}

/// A frame's dissection tree in flattened, depth-first form.
#[derive(Debug, PartialEq, Eq)]
pub struct Tree {
    nodes: Vec<TreeNode>,
    arena: Vec<u8>,
    names: Interner,
}

/// A view of one node in a `Tree`.
#[derive(Debug, Clone, Copy)]
pub struct NodeRef<'a> {
    tree: &'a Tree,
    index: usize,
}

/// `len` bytes of `arena` at `off`, or nothing where it is too short.
spec fn arena_part(arena: Seq<u8>, off: int, len: int) -> Seq<u8> {
    if off + len <= arena.len() {
        arena.subrange(off, off + len)
    } else {
        Seq::empty()
    }
}

impl TreeNode {
    spec fn stored_value(self, arena: Seq<u8>) -> ValueView {
        let p = self.payload@;
        let part = arena_part(arena, le32(p, 0) as int, le32(p, 4) as int);
        if self.tag == TAG_BOOL {
            ValueView::Bool(p[0] != 0)
        } else if self.tag == TAG_UNSIGNED {
            ValueView::Unsigned(le64(p, 0))
        } else if self.tag == TAG_SIGNED {
            ValueView::Signed(le64(p, 0) as i64)
        } else if self.tag == TAG_STR {
            ValueView::Str(decode_utf8(part))
        } else if self.tag == TAG_BYTES {
            ValueView::Bytes
        } else if self.tag == TAG_IPV4 {
            ValueView::Ipv4(p.subrange(0, 4))
        } else if self.tag == TAG_IPV6 {
            ValueView::Ipv6(
                if part.len() == 16 {
                    part
                } else {
                    Seq::new(16, |i: int| 0u8)
                },
            )
        } else if self.tag == TAG_MAC {
            ValueView::Mac(p.subrange(0, 6))
        } else {
            ValueView::Empty
        }
    }

    spec fn stored_text(self, arena: Seq<u8>) -> Option<Seq<char>> {
        let part = arena_part(arena, self.text_off as int, self.text_len as int);
        if self.text_len == 0 || self.text_off + self.text_len > arena.len() || !valid_utf8(part) {
            None
        } else {
            Some(decode_utf8(part))
        }
    }

    spec fn row(self, arena: Seq<u8>, names: Seq<Seq<char>>) -> Row {
        Row {
            abbrev: name_of(names, self.field as int),
            source: self.source,
            start: self.start as int,
            end: self.start + self.len,
            depth: self.depth as int,
            value: self.stored_value(arena),
            text: self.stored_text(arena),
        }
    }

    /// Strings are UTF-8.
    spec fn sound(self, arena: Seq<u8>) -> bool {
        self.tag == TAG_STR ==> {
            let part = arena_part(
                arena,
                le32(self.payload@, 0) as int,
                le32(self.payload@, 4) as int,
            );
            le32(self.payload@, 0) + le32(self.payload@, 4) <= arena.len() && valid_utf8(part)
        }
    }

    /// The field is the one that the name shown for it has the id of.
    spec fn named(self, names: Seq<Seq<char>>) -> bool {
        &&& self.field < FIELD_COUNT + names.len()
        &&& id_of(names, name_of(names, self.field as int)) == Some(self.field as int)
    }

    /// What the node refers to lies within the first `n` bytes and `k` names.
    spec fn within(self, n: int, k: int) -> bool {
        &&& (self.tag == TAG_STR || self.tag == TAG_IPV6) ==> le32(self.payload@, 0) + le32(
            self.payload@,
            4,
        ) <= n
        &&& self.text_off + self.text_len <= n
        &&& self.field < FIELD_COUNT + k
    }
}

impl View for Tree {
    type V = Seq<Row>;

    closed spec fn view(&self) -> Seq<Row> {
        Seq::new(self.nodes@.len(), |i: int| self.nodes@[i].row(self.arena@, self.names@))
    }
}

/// `n`, or the most that 32 bits hold.
pub open spec fn clip32(n: int) -> int {
    if n < 0xffff_ffff {
        n
    } else {
        0xffff_ffff
    }
}

/// The label as the compact form keeps it: at most 65535 bytes of it, dropped
/// where cutting there splits a character, and an empty one is none.
pub open spec fn kept_text(t: Option<Seq<char>>) -> Option<Seq<char>> {
    match t {
        None => None,
        Some(s) => {
            let b = encode_utf8(s);
            if b.len() <= 0xffff {
                if b.len() == 0 {
                    None
                } else {
                    Some(s)
                }
            } else if valid_utf8(b.take(0xffff)) {
                Some(decode_utf8(b.take(0xffff)))
            } else {
                None
            }
        },
    }
}

/// A row as the compact form keeps it: offsets and lengths in 32 bits, an
/// inverted range empty, and the label shortened as `kept_text` says.
pub open spec fn kept(r: Row) -> Row {
    let len = if r.end > r.start {
        r.end - r.start
    } else {
        0
    };
    Row {
        start: clip32(r.start),
        end: clip32(r.start) + clip32(len),
        text: kept_text(r.text),
        ..r
    }
}

/// Arena bytes a value takes.
pub open spec fn value_bytes(v: ValueView) -> int {
    match v {
        ValueView::Str(s) => encode_utf8(s).len() as int,
        ValueView::Ipv6(_) => 16,
        _ => 0,
    }
}

/// Arena bytes a label takes.
pub open spec fn text_bytes(t: Option<Seq<char>>) -> int {
    match t {
        Some(s) => encode_utf8(s).len() as int,
        None => 0,
    }
}

/// Arena bytes a row takes.
pub open spec fn row_bytes(r: Row) -> int {
    value_bytes(r.value) + text_bytes(r.text)
}

/// Arena bytes the rows take.
pub open spec fn rows_bytes(rows: Seq<Row>) -> int
    decreases rows.len(),
{
    if rows.len() == 0 {
        0
    } else {
        rows_bytes(rows.drop_last()) + row_bytes(rows.last())
    }
}

/// The names among the rows that are not registered, each once, in the order
/// they are met.
pub open spec fn strangers(rows: Seq<Row>) -> Seq<Seq<char>>
    decreases rows.len(),
{
    if rows.len() == 0 {
        Seq::empty()
    } else {
        let before = strangers(rows.drop_last());
        if id_of(before, rows.last().abbrev) is Some {
            before
        } else {
            before.push(rows.last().abbrev)
        }
    }
}

/// Where every field is registered there are no other names.
pub proof fn registered_rows_are_no_strangers(rows: Seq<Row>)
    requires
        forall|i: int| 0 <= i < rows.len() ==> index_of((#[trigger] rows[i]).abbrev) is Some,
    ensures
        strangers(rows) == Seq::<Seq<char>>::empty(),
    decreases rows.len(),
{
    if rows.len() > 0 {
        assert forall|i: int| 0 <= i < rows.drop_last().len() implies index_of(
            (#[trigger] rows.drop_last()[i]).abbrev,
        ) is Some by {
            assert(rows.drop_last()[i] == rows[i]);
        }
        registered_rows_are_no_strangers(rows.drop_last());
        assert(rows.last() == rows[rows.len() - 1]);
    }
}

/// Rows as a packed tree keeps them.
pub open spec fn all_kept(rows: Seq<Row>) -> Seq<Row> {
    rows.map_values(|x: Row| kept(x))
}

/// The compact form can address every string and every name of the rows: its
/// arena offsets have 32 bits and its field ids 16.
pub open spec fn packable(rows: Seq<Row>) -> bool {
    rows_bytes(rows) <= 0xffff_ffff && strangers(rows).len() + FIELD_COUNT <= 0x1_0000
}

/// Row `k` of a packed tree stands for `r`: whatever became of strings, it has
/// the same place, and the same name if that is a registered one, and the same
/// value if that is no string or IPv6 address; and a label of its own is never
/// an empty one.
pub open spec fn stands_for(k: Row, r: Row) -> bool {
    &&& k.source == r.source
    &&& k.start == kept(r).start
    &&& k.end == kept(r).end
    &&& k.depth == r.depth
    &&& index_of(r.abbrev) is Some ==> k.abbrev == r.abbrev
    &&& r.value !is Str && r.value !is Ipv6 ==> k.value == r.value
    &&& r.value is Str ==> k.value is Str
    &&& r.value is Ipv6 ==> k.value is Ipv6
    &&& k.text matches Some(t) ==> t.len() > 0
}

/// The rows of a packed tree stand for `rows`, one for one.
pub open spec fn outlines(packed: Seq<Row>, rows: Seq<Row>) -> bool {
    &&& packed.len() == rows.len()
    &&& forall|i: int| 0 <= i < rows.len() ==> stands_for(#[trigger] packed[i], rows[i])
}

fn clip(n: usize) -> (r: u32)
    ensures
        r == clip32(n as int),
{
    if n < 0xffff_ffff {
        n as u32
    } else {
        0xffff_ffff
    }
}

fn le_pair(a: u32, b: u32) -> (r: [u8; 8])
    ensures
        le32(r@, 0) == a,
        le32(r@, 4) == b,
{
    proof {
        crate::bytes::le32_reads_back(a);
        crate::bytes::le32_reads_back(b);
    }
    let r: [u8; 8] = [
        (a % 0x100) as u8,
        (a / 0x100 % 0x100) as u8,
        (a / 0x1_0000 % 0x100) as u8,
        (a / 0x100_0000) as u8,
        (b % 0x100) as u8,
        (b / 0x100 % 0x100) as u8,
        (b / 0x1_0000 % 0x100) as u8,
        (b / 0x100_0000) as u8,
    ];
    reveal(le32_bytes);
    assert(le32(r@, 0) == le32(le32_bytes(a), 0));
    assert(le32(r@, 4) == le32(le32_bytes(b), 0));
    r
}

fn le_word(v: u64) -> (r: [u8; 8])
    ensures
        le64(r@, 0) == v,
{
    le_pair((v % 0x1_0000_0000) as u32, (v / 0x1_0000_0000) as u32)
}

/// Copy `b` into the arena; the offset and length to find it again. Where the
/// arena has no room left, nothing is stored and the result is empty.
fn arena_ref(arena: &mut Vec<u8>, b: &[u8]) -> (r: (u32, u32))
    ensures
        r.0 + r.1 <= final(arena)@.len(),
        old(arena)@.len() <= final(arena)@.len() <= old(arena)@.len() + b@.len(),
        final(arena)@.take(old(arena)@.len() as int) == old(arena)@,
        old(arena)@.len() + b@.len() <= 0xffff_ffff ==> arena_part(
            final(arena)@,
            r.0 as int,
            r.1 as int,
        ) == b@ && final(arena)@.len() == old(arena)@.len() + b@.len(),
        arena_part(final(arena)@, r.0 as int, r.1 as int) == b@ || r.1 == 0,
        old(arena)@.len() <= 0xffff_ffff ==> final(arena)@.len() <= 0xffff_ffff,
{
    let off: usize = arena.len();
    let n: usize = b.len();
    if off <= 0xffff_ffff && n <= 0xffff_ffff - off {
        bytes::put_all(arena, b);
        assert(arena@.subrange(off as int, off + n) =~= b@);
        assert(arena@.take(off as int) =~= old(arena)@);
        (off as u32, n as u32)
    } else {
        assert(arena@.take(off as int) =~= old(arena)@);
        (0, 0)
    }
}

proof fn lemma_part_grows(a: Seq<u8>, b: Seq<u8>, off: int, len: int)
    requires
        0 <= off,
        0 <= len,
        off + len <= a.len() <= b.len(),
        b.take(a.len() as int) == a,
    ensures
        arena_part(b, off, len) == arena_part(a, off, len),
{
    assert(b.subrange(off, off + len) =~= a.subrange(off, off + len)) by {
        assert forall|k: int| 0 <= k < a.len() implies b[k] == a[k] by {
            assert(b.take(a.len() as int)[k] == b[k]);
        }
    }
}

proof fn lemma_row_grows(
    n: TreeNode,
    a: Seq<u8>,
    b: Seq<u8>,
    k: Seq<Seq<char>>,
    l: Seq<Seq<char>>,
)
    requires
        n.within(a.len() as int, k.len() as int),
        a.len() <= b.len(),
        b.take(a.len() as int) == a,
        k.len() <= l.len(),
        l.take(k.len() as int) == k,
    ensures
        n.row(b, l) == n.row(a, k),
        n.within(b.len() as int, l.len() as int),
        n.sound(a) ==> n.sound(b),
{
    if n.tag == TAG_STR || n.tag == TAG_IPV6 {
        lemma_part_grows(a, b, le32(n.payload@, 0) as int, le32(n.payload@, 4) as int);
    }
    lemma_part_grows(a, b, n.text_off as int, n.text_len as int);
    if n.field >= FIELD_COUNT {
        assert(l.take(k.len() as int)[n.field - FIELD_COUNT] == l[n.field - FIELD_COUNT]);
    }
}

fn pack_value(value: &Value, arena: &mut Vec<u8>) -> (r: (u8, [u8; 8]))
    ensures
        old(arena)@.len() <= final(arena)@.len() <= old(arena)@.len() + value_bytes(value@),
        old(arena)@.len() + value_bytes(value@) <= 0xffff_ffff ==> final(arena)@.len() == old(
            arena,
        )@.len() + value_bytes(value@),
        final(arena)@.take(old(arena)@.len() as int) == old(arena)@,
        old(arena)@.len() <= 0xffff_ffff ==> final(arena)@.len() <= 0xffff_ffff,
        value@ is Str <==> r.0 == TAG_STR,
        value@ is Ipv6 <==> r.0 == TAG_IPV6,
        forall|n: TreeNode|
            n.tag == r.0 && n.payload == r.1 ==> {
                &&& #[trigger] n.sound(final(arena)@)
                &&& (n.tag == TAG_STR || n.tag == TAG_IPV6) ==> le32(n.payload@, 0) + le32(
                    n.payload@,
                    4,
                ) <= final(arena)@.len()
                &&& old(arena)@.len() + value_bytes(value@) <= 0xffff_ffff ==> n.stored_value(
                    final(arena)@,
                ) == value@
            },
{
    broadcast use {encode_utf8_valid_utf8, encode_utf8_decode_utf8};

    assert(arena@.take(arena@.len() as int) =~= arena@);
    let zero: [u8; 8] = [0, 0, 0, 0, 0, 0, 0, 0];
    match value {
        Value::Empty => (TAG_EMPTY, zero),
        Value::Bool(b) => {
            let f: u8 = if *b {
                1
            } else {
                0
            };
            (TAG_BOOL, [f, 0, 0, 0, 0, 0, 0, 0])
        },
        Value::Unsigned(u) => (TAG_UNSIGNED, le_word(*u)),
        Value::Signed(i) => {
            let v: i64 = *i;
            assert((v as u64) as i64 == v) by (bit_vector);
            (TAG_SIGNED, le_word(v as u64))
        },
        Value::Str(s) => {
            let (off, len) = arena_ref(arena, s.as_str().as_bytes());
            let p: [u8; 8] = le_pair(off, len);
            proof {
                let part = arena_part(arena@, off as int, len as int);
                if len == 0 {
                    assert(part =~= Seq::<u8>::empty());
                    assert(encode_utf8(Seq::<char>::empty()) =~= Seq::<u8>::empty());
                    assert(valid_utf8(encode_utf8(Seq::<char>::empty())));
                }
            }
            (TAG_STR, p)
        },
        Value::Bytes => (TAG_BYTES, zero),
        Value::Ipv4(a) => {
            let p: [u8; 8] = [a[0], a[1], a[2], a[3], 0, 0, 0, 0];
            assert(p@.subrange(0, 4) =~= a@);
            (TAG_IPV4, p)
        },
        Value::Ipv6(a) => {
            let (off, len) = arena_ref(arena, a.as_slice());
            (TAG_IPV6, le_pair(off, len))
        },
        Value::Mac(m) => {
            let p: [u8; 8] = [m[0], m[1], m[2], m[3], m[4], m[5], 0, 0];
            assert(p@.subrange(0, 6) =~= m@);
            (TAG_MAC, p)
        },
    }
}

fn pack_text(text: &Option<String>, arena: &mut Vec<u8>) -> (r: (u32, u16))
    ensures
        old(arena)@.len() <= final(arena)@.len() <= old(arena)@.len() + match *text {
            Some(s) => encode_utf8(s@).len() as int,
            None => 0,
        },
        old(arena)@.len() + text_bytes(text_view(*text)) <= 0xffff_ffff ==> final(arena)@.len()
            == old(arena)@.len() + text_bytes(text_view(*text)),
        final(arena)@.take(old(arena)@.len() as int) == old(arena)@,
        old(arena)@.len() <= 0xffff_ffff ==> final(arena)@.len() <= 0xffff_ffff,
        r.0 + r.1 <= final(arena)@.len(),
        forall|n: TreeNode|
            n.text_off == r.0 && n.text_len == r.1 && old(arena)@.len() + match *text {
                Some(s) => encode_utf8(s@).len() as int,
                None => 0,
            } <= 0xffff_ffff ==> #[trigger] n.stored_text(final(arena)@) == kept_text(
                text_view(*text),
            ),
{
    broadcast use {encode_utf8_valid_utf8, encode_utf8_decode_utf8};

    match text {
        None => {
            assert(arena@.take(arena@.len() as int) =~= arena@);
            (0, 0)
        },
        Some(s) => {
            let (off, len) = arena_ref(arena, s.as_str().as_bytes());
            let cut: u16 = if len <= 0xffff {
                len as u16
            } else {
                0xffff
            };
            proof {
                let b = encode_utf8(s@);
                if arena_part(arena@, off as int, len as int) == b && b.len() > 0xffff {
                    assert(arena_part(arena@, off as int, 0xffff) =~= b.take(0xffff));
                }
            }
            (off, cut)
        },
    }
}

impl Tree {
    /// Strings are UTF-8, every range ends at an offset, and every field id is
    /// that of the name shown for it.
    #[verifier::type_invariant]
    spec fn sound(self) -> bool {
        forall|i: int|
            0 <= i < self.nodes@.len() ==> (#[trigger] self.nodes@[i]).sound(self.arena@)
                && self.nodes@[i].start + self.nodes@[i].len <= usize::MAX && self.nodes@[i].named(
                self.names@,
            )
    }

    /// The names of fields that are not registered, by which their ids go.
    pub closed spec fn extra_names(&self) -> Seq<Seq<char>> {
        self.names@
    }

    /// The compact form of `rows`.
    pub fn pack(rows: &Vec<Entry>) -> (r: Tree)
        ensures
            outlines(r@, entry_rows(rows@)),
            packable(entry_rows(rows@)) ==> r@ == all_kept(entry_rows(rows@)),
            r.extra_names() == strangers(entry_rows(rows@)),
            rows_bytes(entry_rows(rows@)) <= 0xffff_ffff ==> r.held() == 28 * rows@.len()
                + rows_bytes(entry_rows(rows@)),
    {
        let mut nodes: Vec<TreeNode> = Vec::new();
        let mut arena: Vec<u8> = Vec::new();
        let mut names: Interner = Interner::new();
        let ghost all = entry_rows(rows@);
        let mut i: usize = 0;
        while i < rows.len()
            invariant
                i <= rows.len(),
                nodes@.len() == i,
                all == entry_rows(rows@),
                forall|j: int|
                    0 <= j < i ==> (#[trigger] nodes@[j]).sound(arena@) && nodes@[j].start
                        + nodes@[j].len <= usize::MAX && nodes@[j].named(names@),
                names@ == strangers(all.take(i as int)),
                rows_bytes(all) <= 0xffff_ffff ==> arena@.len() == rows_bytes(all.take(i as int)),
                arena@.len() <= 0xffff_ffff,
                forall|j: int, a: Seq<u8>, n: Seq<Seq<char>>|
                    0 <= j < i ==> stands_for(#[trigger] nodes@[j].row(a, n), all[j]),
                packable(all) ==> {
                    forall|j: int|
                        0 <= j < i ==> (#[trigger] nodes@[j]).within(
                            arena@.len() as int,
                            names@.len() as int,
                        ) && nodes@[j].row(arena@, names@) == kept(all[j])
                },
            decreases rows.len() - i,
        {
            let e = &rows[i];
            let ghost arena0 = arena@;
            let ghost names0 = names@;
            let ghost row = all[i as int];
            assert(row == e@);
            assert(all.take(i + 1).drop_last() =~= all.take(i as int));
            assert(all.take(i + 1).last() == row);
            proof {
                lemma_rows_bytes_grow(all, i + 1, all.len() as int);
                lemma_strangers_grow(all, i + 1, all.len() as int);
                assert(all.take(all.len() as int) =~= all);
                lemma_rows_bytes_grow(all, 0, i as int);
            }
            let (tag, payload) = pack_value(&e.value, &mut arena);
            let ghost arena1 = arena@;
            let (text_off, text_len) = pack_text(&e.text, &mut arena);
            let field: u16 = registry::field_id(&mut names, e.abbrev);
            let len: usize = if e.end > e.start {
                e.end - e.start
            } else {
                0
            };
            let node = TreeNode {
                field,
                depth: e.depth,
                source: e.source,
                tag,
                text_len,
                start: clip(e.start),
                len: clip(len),
                text_off,
                payload,
            };
            proof {
                assert(node.sound(arena1));
                assert(arena@.take(arena0.len() as int) =~= arena0) by {
                    assert(arena@.take(arena1.len() as int).take(arena0.len() as int)
                        =~= arena@.take(arena0.len() as int));
                }
                if node.tag == TAG_STR || node.tag == TAG_IPV6 {
                    lemma_part_grows(
                        arena1,
                        arena@,
                        le32(node.payload@, 0) as int,
                        le32(node.payload@, 4) as int,
                    );
                }
                assert(node.sound(arena@));
                assert(names@.take(names0.len() as int) =~= names0);
                registry::index_of_is_a_row(e.abbrev@);
                registry::stored_ids_name_a_field(names@, e.abbrev@);
                assert forall|j: int| 0 <= j < i implies (#[trigger] nodes@[j]).sound(arena@)
                    && nodes@[j].named(names@) by {
                    lemma_sound_grows(nodes@[j], arena0, arena@);
                    let shown = name_of(names0, nodes@[j].field as int);
                    if names@.len() > names0.len() {
                        registry::ids_are_stable(names0, e.abbrev@, shown);
                    }
                }
                assert forall|a: Seq<u8>, n: Seq<Seq<char>>| stands_for(
                    #[trigger] node.row(a, n),
                    row,
                ) by {
                    if row.value !is Str && row.value !is Ipv6 {
                        assert(node.stored_value(arena1) == row.value);
                        assert(node.stored_value(a) == node.stored_value(arena1));
                    }
                    lemma_labels_show(node, a);
                }
                if packable(all) {
                    assert(node.stored_text(arena@) == kept_text(row.text));
                    assert(node.stored_value(arena1) == row.value);
                    assert(node.row(arena@, names@) == kept(row));
                    registry::id_is_known(names@, e.abbrev@);
                    assert(node.within(arena@.len() as int, names@.len() as int));
                    assert forall|j: int| 0 <= j < i implies (#[trigger] nodes@[j]).within(
                        arena@.len() as int,
                        names@.len() as int,
                    ) && nodes@[j].row(arena@, names@) == kept(all[j]) by {
                        lemma_row_grows(nodes@[j], arena0, arena@, names0, names@);
                    }
                }
            }
            nodes.push(node);
            i += 1;
        }
        let r = Tree { nodes, arena, names };
        proof {
            assert(all.take(rows@.len() as int) =~= all);
            assert forall|j: int| 0 <= j < all.len() implies stands_for(
                #[trigger] r@[j],
                all[j],
            ) by {
                assert(r@[j] == r.nodes@[j].row(r.arena@, r.names@));
            }
            if packable(all) {
                assert(r@ =~= all.map_values(|x: Row| kept(x)));
            }
        }
        r
    }
}

proof fn lemma_labels_show(n: TreeNode, arena: Seq<u8>)
    ensures
        n.stored_text(arena) matches Some(t) ==> t.len() > 0,
{
    broadcast use decode_utf8_encode_utf8;

    if let Some(t) = n.stored_text(arena) {
        let part = arena_part(arena, n.text_off as int, n.text_len as int);
        assert(encode_utf8(t) == part);
        if t.len() == 0 {
            assert(encode_utf8(t) =~= Seq::<u8>::empty());
        }
    }
}

proof fn lemma_sound_grows(n: TreeNode, a: Seq<u8>, b: Seq<u8>)
    requires
        n.sound(a),
        a.len() <= b.len(),
        b.take(a.len() as int) == a,
    ensures
        n.sound(b),
{
    if n.tag == TAG_STR {
        lemma_part_grows(a, b, le32(n.payload@, 0) as int, le32(n.payload@, 4) as int);
    }
}

proof fn lemma_rows_bytes_grow(rows: Seq<Row>, i: int, j: int)
    requires
        0 <= i <= j <= rows.len(),
    ensures
        0 <= rows_bytes(rows.take(i)) <= rows_bytes(rows.take(j)),
    decreases j,
{
    if i < j {
        assert(rows.take(j).drop_last() =~= rows.take(j - 1));
        lemma_rows_bytes_grow(rows, i, j - 1);
    } else if i > 0 {
        assert(rows.take(i).drop_last() =~= rows.take(i - 1));
        lemma_rows_bytes_grow(rows, i - 1, i - 1);
    }
}

proof fn lemma_strangers_grow(rows: Seq<Row>, i: int, j: int)
    requires
        0 <= i <= j <= rows.len(),
    ensures
        strangers(rows.take(i)).len() <= strangers(rows.take(j)).len(),
    decreases j,
{
    if i < j {
        assert(rows.take(j).drop_last() =~= rows.take(j - 1));
        lemma_strangers_grow(rows, i, j - 1);
    }
}

impl Clone for Tree {
    fn clone(&self) -> (r: Tree)
        ensures
            r@ == self@,
            r.extra_names() == self.extra_names(),
    {
        proof {
            use_type_invariant(self);
        }
        let mut nodes: Vec<TreeNode> = Vec::new();
        let mut i: usize = 0;
        while i < self.nodes.len()
            invariant
                i <= self.nodes.len(),
                nodes@ == self.nodes@.take(i as int),
            decreases self.nodes.len() - i,
        {
            nodes.push(self.nodes[i]);
            i += 1;
            assert(nodes@ =~= self.nodes@.take(i as int));
        }
        assert(nodes@ =~= self.nodes@);
        let arena: Vec<u8> = bytes::copy_of(&self.arena);
        let r = Tree { nodes, arena, names: self.names.copied() };
        assert(r@ =~= self@);
        r
    }
}

impl Default for Tree {
    fn default() -> (r: Tree)
        ensures
            r@ == Seq::<Row>::empty(),
    {
        let r = Tree { nodes: Vec::new(), arena: Vec::new(), names: Interner::new() };
        assert(r@ =~= Seq::empty());
        r
    }
}

/// The positions in `lo..hi` whose row satisfies `p`, in order.
pub open spec fn picks(rows: Seq<Row>, lo: int, hi: int, p: spec_fn(Row) -> bool) -> Seq<int>
    decreases hi - lo,
{
    if lo >= hi {
        Seq::empty()
    } else if p(rows[hi - 1]) {
        picks(rows, lo, hi - 1, p).push(hi - 1)
    } else {
        picks(rows, lo, hi - 1, p)
    }
}

/// The first position from `i` on whose depth is at most `depth`.
pub open spec fn subtree_end_from(rows: Seq<Row>, depth: int, i: int) -> int
    decreases rows.len() - i,
{
    if i < 0 || i >= rows.len() || rows[i].depth <= depth {
        i
    } else {
        subtree_end_from(rows, depth, i + 1)
    }
}

/// Whether row `i` covers `offset` in `source`.
pub open spec fn covers(r: Row, source: SourceId, offset: int) -> bool {
    r.source == source && r.start <= offset < r.end
}

/// Row `a` is further inside than row `b`: deeper, or as deep and shorter.
pub open spec fn more_inner(a: Row, b: Row) -> bool {
    a.depth > b.depth || (a.depth == b.depth && a.end - a.start < b.end - b.start)
}

impl<'a> NodeRef<'a> {
    /// The node is one of the tree's.
    #[verifier::type_invariant]
    spec fn inside(self) -> bool {
        self.index < self.tree.nodes@.len()
    }

    /// The rows of the tree this node belongs to.
    pub closed spec fn rows(self) -> Seq<Row> {
        self.tree@
    }

    /// The names of the tree's fields that are not registered.
    pub closed spec fn extra_names(self) -> Seq<Seq<char>> {
        self.tree.names@
    }

    /// The position of this node among the rows.
    pub closed spec fn at(self) -> int {
        self.index as int
    }

    /// This node's row.
    pub open spec fn row(self) -> Row {
        self.rows()[self.at()]
    }

    /// This node sits at position `i` of `rows`.
    pub open spec fn is_at(self, rows: Seq<Row>, i: int) -> bool {
        self.rows() == rows && self.at() == i && 0 <= i < rows.len()
    }

    fn node(&self) -> (r: TreeNode)
        ensures
            r == self.tree.nodes@[self.index as int],
            self.row() == r.row(self.tree.arena@, self.tree.names@),
            0 <= self.at() < self.rows().len(),
            r.sound(self.tree.arena@),
            r.start + r.len <= usize::MAX,
            r.named(self.tree.names@),
    {
        proof {
            use_type_invariant(*self);
            use_type_invariant(self.tree);
        }
        self.tree.nodes[self.index]
    }

    pub fn index(&self) -> (r: usize)
        ensures
            r == self.at(),
            r < self.rows().len(),
    {
        proof {
            use_type_invariant(*self);
        }
        self.index
    }

    /// The field's filter name.
    pub fn abbrev(&self) -> (r: &'static str)
        ensures
            r@ == self.row().abbrev,
    {
        let n = self.node();
        registry::field_abbrev(&self.tree.names, n.field)
    }

    /// The numeric id of the field: its row in the field table, or for a name
    /// that is not registered its place behind it.
    pub fn field_id(&self) -> (r: u16)
        ensures
            id_of(self.extra_names(), self.row().abbrev) == Some(r as int),
            index_of(self.row().abbrev) matches Some(i) ==> r == i,
            index_of(self.row().abbrev) is None ==> r >= FIELD_COUNT,
            r < FIELD_COUNT ==> self.row().abbrev == abbrev_at(r as int),
    {
        let n = self.node();
        proof {
            registry::index_of_is_a_row(self.row().abbrev);
            registry::id_is_known(self.extra_names(), self.row().abbrev);
        }
        n.field
    }

    pub fn depth(&self) -> (r: u8)
        ensures
            r == self.row().depth,
    {
        self.node().depth
    }

    pub fn source(&self) -> (r: SourceId)
        ensures
            r == self.row().source,
    {
        self.node().source
    }

    /// The byte range within the data source.
    pub fn range(&self) -> (r: Range<usize>)
        ensures
            r.start == self.row().start,
            r.end == self.row().end,
            r.start <= r.end,
    {
        let n = self.node();
        let start: usize = n.start as usize;
        start..start + n.len as usize
    }

    /// The label this node carries itself.
    pub fn text(&self) -> (r: Option<&'a str>)
        ensures
            match r {
                Some(s) => self.row().text == Some(s@),
                None => self.row().text is None,
            },
    {
        let n = self.node();
        if n.text_len == 0 {
            return None;
        }
        let off: usize = n.text_off as usize;
        let len: usize = n.text_len as usize;
        if off > self.tree.arena.len() || len > self.tree.arena.len() - off {
            return None;
        }
        text::from_utf8(bytes::part(&self.tree.arena, off, off + len))
    }

    fn arena_slice(&self) -> (r: &'a [u8])
        ensures
            r@ == arena_part(
                self.tree.arena@,
                le32(self.tree.nodes@[self.index as int].payload@, 0) as int,
                le32(self.tree.nodes@[self.index as int].payload@, 4) as int,
            ),
    {
        let n = self.node();
        let off: usize = bytes::get_le32(&n.payload, 0) as usize;
        let len: usize = bytes::get_le32(&n.payload, 4) as usize;
        if off > self.tree.arena.len() || len > self.tree.arena.len() - off {
            let none: &'a [u8] = &[];
            assert(none@ =~= Seq::<u8>::empty());
            return none;
        }
        bytes::part(&self.tree.arena, off, off + len)
    }

    /// The value, reconstructed (strings are copied).
    pub fn value(&self) -> (r: Value)
        ensures
            r@ == self.row().value,
    {
        let n = self.node();
        let p: [u8; 8] = n.payload;
        if n.tag == TAG_BOOL {
            Value::Bool(p[0] != 0)
        } else if n.tag == TAG_UNSIGNED {
            Value::Unsigned(bytes::get_le64(&p, 0))
        } else if n.tag == TAG_SIGNED {
            Value::Signed(bytes::get_le64(&p, 0) as i64)
        } else if n.tag == TAG_STR {
            match text::from_utf8(self.arena_slice()) {
                Some(s) => Value::Str(text::owned(s)),
                None => Value::Str(String::new()),
            }
        } else if n.tag == TAG_BYTES {
            Value::Bytes
        } else if n.tag == TAG_IPV4 {
            let a: [u8; 4] = [p[0], p[1], p[2], p[3]];
            assert(a@ =~= p@.subrange(0, 4));
            Value::Ipv4(a)
        } else if n.tag == TAG_IPV6 {
            let s = self.arena_slice();
            if s.len() == 16 {
                let a: [u8; 16] = [
                    s[0], s[1], s[2], s[3], s[4], s[5], s[6], s[7], s[8], s[9], s[10], s[11], s[12],
                    s[13], s[14], s[15],
                ];
                assert(a@ =~= s@);
                Value::Ipv6(a)
            } else {
                let a: [u8; 16] = [0, 0, 0, 0, 0, 0, 0, 0, 0, 0, 0, 0, 0, 0, 0, 0];
                assert(a@ =~= Seq::new(16, |i: int| 0u8));
                Value::Ipv6(a)
            }
        } else if n.tag == TAG_MAC {
            let a: [u8; 6] = [p[0], p[1], p[2], p[3], p[4], p[5]];
            assert(a@ =~= p@.subrange(0, 6));
            Value::Mac(a)
        } else {
            Value::Empty
        }
    }

    /// The string value without copying, if this is a string.
    pub fn str_value(&self) -> (r: Option<&'a str>)
        ensures
            match r {
                Some(s) => self.row().value == ValueView::Str(s@),
                None => !(self.row().value is Str),
            },
    {
        let n = self.node();
        if n.tag == TAG_STR {
            text::from_utf8(self.arena_slice())
        } else {
            None
        }
    }

    /// The number, if this is an unsigned one.
    pub fn unsigned(&self) -> (r: Option<u64>)
        ensures
            match r {
                Some(v) => self.row().value == ValueView::Unsigned(v),
                None => !(self.row().value is Unsigned),
            },
    {
        let n = self.node();
        if n.tag == TAG_UNSIGNED {
            Some(bytes::get_le64(&n.payload, 0))
        } else {
            None
        }
    }

    /// A protocol or group with no value of its own.
    pub fn is_container(&self) -> (r: bool)
        ensures
            r == (self.row().value is Empty),
    {
        self.value_is_empty()
    }

    fn value_is_empty(&self) -> (r: bool)
        ensures
            r == (self.row().value is Empty),
    {
        match self.value() {
            Value::Empty => true,
            _ => false,
        }
    }

    /// Whether the next node is a child of this one.
    pub fn has_children(&self) -> (r: bool)
        ensures
            r == (self.at() + 1 < self.rows().len() && self.rows()[self.at() + 1].depth
                > self.row().depth),
    {
        let n = self.node();
        let count: usize = self.tree.nodes.len();
        if self.index + 1 < count {
            assert(self.rows()[self.at() + 1].depth == self.tree.nodes@[self.index + 1].depth);
            self.tree.nodes[self.index + 1].depth > n.depth
        } else {
            false
        }
    }

    /// Position one past the last descendant.
    pub fn subtree_end(&self) -> (r: usize)
        ensures
            r == subtree_end_from(self.rows(), self.row().depth, self.at() + 1),
            self.at() < r <= self.rows().len(),
    {
        let n = self.node();
        let count: usize = self.tree.nodes.len();
        assert(self.index < count);
        let mut i: usize = self.index + 1;
        while i < self.tree.nodes.len() && self.tree.nodes[i].depth > n.depth
            invariant
                self.index < i <= self.tree.nodes.len(),
                self.rows() == self.tree@,
                self.rows().len() == self.tree.nodes@.len(),
                self.row().depth == n.depth,
                self.at() == self.index,
                subtree_end_from(self.rows(), self.row().depth, self.at() + 1) == subtree_end_from(
                    self.rows(),
                    self.row().depth,
                    i as int,
                ),
            decreases self.tree.nodes.len() - i,
        {
            assert(self.rows()[i as int].depth == self.tree.nodes@[i as int].depth);
            i += 1;
        }
        if i < self.tree.nodes.len() {
            assert(self.rows()[i as int].depth == self.tree.nodes@[i as int].depth);
        }
        i
    }

    /// Direct children, in order.
    pub fn children(&self) -> (r: Vec<NodeRef<'a>>)
        ensures
            ({
                let hi = subtree_end_from(self.rows(), self.row().depth, self.at() + 1);
                let d = self.row().depth + 1;
                let at = picks(self.rows(), self.at() + 1, hi, |x: Row| x.depth == d);
                r@.len() == at.len() && forall|k: int|
                    0 <= k < at.len() ==> (#[trigger] r@[k]).is_at(self.rows(), at[k])
            }),
            forall|k: int|
                0 <= k < r@.len() ==> (#[trigger] r@[k]).extra_names() == self.extra_names(),
    {
        let n = self.node();
        let depth: u16 = n.depth as u16 + 1;
        let hi: usize = self.subtree_end();
        let mut out: Vec<NodeRef<'a>> = Vec::new();
        let mut i: usize = self.index + 1;
        let ghost d = self.row().depth + 1;
        let ghost p = |x: Row| x.depth == d;
        while i < hi
            invariant
                self.index < i <= hi <= self.tree.nodes.len(),
                self.rows() == self.tree@,
                self.rows().len() == self.tree.nodes@.len(),
                self.at() == self.index,
                depth == d,
                p == (|x: Row| x.depth == d),
                out@.len() == picks(self.rows(), self.at() + 1, i as int, p).len(),
                forall|k: int|
                    0 <= k < out@.len() ==> (#[trigger] out@[k]).is_at(
                        self.rows(),
                        picks(self.rows(), self.at() + 1, i as int, p)[k],
                    ),
                forall|k: int|
                    0 <= k < out@.len() ==> (#[trigger] out@[k]).extra_names()
                        == self.extra_names(),
            decreases hi - i,
        {
            let c = NodeRef { tree: self.tree, index: i };
            assert(self.rows()[i as int].depth == self.tree.nodes@[i as int].depth);
            if self.tree.nodes[i].depth as u16 == depth {
                out.push(c);
            }
            i += 1;
        }
        out
    }

    /// First direct child with field `abbrev`.
    pub fn child(&self, abbrev: &str) -> (r: Option<NodeRef<'a>>)
        ensures
            ({
                let hi = subtree_end_from(self.rows(), self.row().depth, self.at() + 1);
                let d = self.row().depth + 1;
                let at = picks(
                    self.rows(),
                    self.at() + 1,
                    hi,
                    |x: Row| x.depth == d && x.abbrev == abbrev@,
                );
                match r {
                    Some(n) => at.len() > 0 && n.is_at(self.rows(), at[0]),
                    None => at.len() == 0,
                }
            }),
            r matches Some(n) ==> n.extra_names() == self.extra_names(),
    {
        let n = self.node();
        let depth: u16 = n.depth as u16 + 1;
        let hi: usize = self.subtree_end();
        let mut i: usize = self.index + 1;
        let ghost d = self.row().depth + 1;
        let ghost p = |x: Row| x.depth == d && x.abbrev == abbrev@;
        while i < hi
            invariant
                self.index < i <= hi <= self.tree.nodes.len(),
                self.rows() == self.tree@,
                self.rows().len() == self.tree.nodes@.len(),
                self.at() == self.index,
                depth == d,
                d == self.row().depth + 1,
                p == (|x: Row| x.depth == d && x.abbrev == abbrev@),
                picks(self.rows(), self.at() + 1, i as int, p).len() == 0,
                hi == subtree_end_from(self.rows(), self.row().depth, self.at() + 1),
            decreases hi - i,
        {
            let c = NodeRef { tree: self.tree, index: i };
            assert(c.row() == self.rows()[i as int]);
            assert(self.rows()[i as int].depth == self.tree.nodes@[i as int].depth);
            if self.tree.nodes[i].depth as u16 == depth && text::same(c.abbrev(), abbrev) {
                proof {
                    assert(picks(self.rows(), self.at() + 1, i + 1, p) =~= seq![i as int]);
                    lemma_picks_prefix(self.rows(), self.at() + 1, i + 1, hi as int, p);
                    assert(picks(self.rows(), self.at() + 1, i + 1, p)[0] == i);
                    assert(picks(self.rows(), self.at() + 1, hi as int, p)[0] == i);
                    assert(c.is_at(self.rows(), i as int));
                }
                return Some(c);
            }
            i += 1;
        }
        None
    }
}

/// Picking from a longer range begins with the picks of a shorter one.
proof fn lemma_picks_prefix(rows: Seq<Row>, lo: int, mid: int, hi: int, p: spec_fn(Row) -> bool)
    requires
        lo <= mid <= hi,
    ensures
        picks(rows, lo, mid, p).len() <= picks(rows, lo, hi, p).len(),
        forall|k: int|
            0 <= k < picks(rows, lo, mid, p).len() ==> picks(rows, lo, hi, p)[k] == picks(
                rows,
                lo,
                mid,
                p,
            )[k],
    decreases hi - mid,
{
    if mid < hi {
        lemma_picks_prefix(rows, lo, mid, hi - 1, p);
    }
}

/// The position of the first row called `abbrev`, from `i` on.
pub open spec fn first_named(rows: Seq<Row>, abbrev: Seq<char>, i: int) -> Option<int>
    decreases rows.len() - i,
{
    if i < 0 || i >= rows.len() {
        None
    } else if rows[i].abbrev == abbrev {
        Some(i)
    } else {
        first_named(rows, abbrev, i + 1)
    }
}

impl Tree {
    pub fn len(&self) -> (r: usize)
        ensures
            r == self@.len(),
    {
        self.nodes.len()
    }

    pub fn is_empty(&self) -> (r: bool)
        ensures
            r == (self@.len() == 0),
    {
        self.nodes.len() == 0
    }

    /// The node at position `index`.
    pub fn get(&self, index: usize) -> (r: Option<NodeRef<'_>>)
        ensures
            match r {
                Some(n) => n.is_at(self@, index as int),
                None => index >= self@.len(),
            },
            r matches Some(n) ==> n.extra_names() == self.extra_names(),
    {
        if index < self.nodes.len() {
            Some(NodeRef { tree: self, index })
        } else {
            None
        }
    }

    /// The first node called `abbrev`.
    pub fn first(&self, abbrev: &str) -> (r: Option<NodeRef<'_>>)
        ensures
            match r {
                Some(n) => first_named(self@, abbrev@, 0) == Some(n.at()) && n.is_at(
                    self@,
                    n.at(),
                ),
                None => first_named(self@, abbrev@, 0) is None,
            },
            r matches Some(n) ==> n.extra_names() == self.extra_names(),
    {
        let mut i: usize = 0;
        while i < self.nodes.len()
            invariant
                i <= self.nodes@.len() == self@.len(),
                first_named(self@, abbrev@, 0) == first_named(self@, abbrev@, i as int),
            decreases self.nodes.len() - i,
        {
            let node = NodeRef { tree: self, index: i };
            if text::same(node.abbrev(), abbrev) {
                return Some(node);
            }
            i += 1;
        }
        None
    }

    /// All nodes in depth-first order.
    pub fn iter(&self) -> (r: Vec<NodeRef<'_>>)
        ensures
            r@.len() == self@.len(),
            forall|i: int| 0 <= i < r@.len() ==> (#[trigger] r@[i]).is_at(self@, i),
            forall|k: int|
                0 <= k < r@.len() ==> (#[trigger] r@[k]).extra_names() == self.extra_names(),
    {
        let mut out: Vec<NodeRef<'_>> = Vec::new();
        let mut i: usize = 0;
        while i < self.nodes.len()
            invariant
                i <= self.nodes.len(),
                out@.len() == i,
                self@.len() == self.nodes@.len(),
                forall|k: int| 0 <= k < i ==> (#[trigger] out@[k]).is_at(self@, k),
                forall|k: int|
                    0 <= k < out@.len() ==> (#[trigger] out@[k]).extra_names()
                        == self.extra_names(),
            decreases self.nodes.len() - i,
        {
            out.push(NodeRef { tree: self, index: i });
            i += 1;
        }
        out
    }

    /// Top-level nodes.
    pub fn roots(&self) -> (r: Vec<NodeRef<'_>>)
        ensures
            ({
                let at = picks(self@, 0, self@.len() as int, |x: Row| x.depth == 0);
                r@.len() == at.len() && forall|k: int|
                    0 <= k < at.len() ==> (#[trigger] r@[k]).is_at(self@, at[k])
            }),
            forall|k: int|
                0 <= k < r@.len() ==> (#[trigger] r@[k]).extra_names() == self.extra_names(),
    {
        let mut out: Vec<NodeRef<'_>> = Vec::new();
        let mut i: usize = 0;
        let ghost p = |x: Row| x.depth == 0;
        while i < self.nodes.len()
            invariant
                i <= self.nodes.len(),
                self@.len() == self.nodes@.len(),
                p == (|x: Row| x.depth == 0),
                out@.len() == picks(self@, 0, i as int, p).len(),
                forall|k: int|
                    0 <= k < out@.len() ==> (#[trigger] out@[k]).is_at(
                        self@,
                        picks(self@, 0, i as int, p)[k],
                    ),
                forall|k: int|
                    0 <= k < out@.len() ==> (#[trigger] out@[k]).extra_names()
                        == self.extra_names(),
            decreases self.nodes.len() - i,
        {
            assert(self@[i as int].depth == self.nodes@[i as int].depth);
            if self.nodes[i].depth == 0 {
                out.push(NodeRef { tree: self, index: i });
            }
            i += 1;
        }
        out
    }

    /// Nodes whose field is `abbrev`, in tree order.
    pub fn find(&self, abbrev: &str) -> (r: Vec<NodeRef<'_>>)
        ensures
            ({
                let at = picks(self@, 0, self@.len() as int, |x: Row| x.abbrev == abbrev@);
                r@.len() == at.len() && forall|k: int|
                    0 <= k < at.len() ==> (#[trigger] r@[k]).is_at(self@, at[k])
            }),
            forall|k: int|
                0 <= k < r@.len() ==> (#[trigger] r@[k]).extra_names() == self.extra_names(),
    {
        let mut out: Vec<NodeRef<'_>> = Vec::new();
        let mut i: usize = 0;
        let ghost p = |x: Row| x.abbrev == abbrev@;
        while i < self.nodes.len()
            invariant
                i <= self.nodes.len(),
                self@.len() == self.nodes@.len(),
                p == (|x: Row| x.abbrev == abbrev@),
                out@.len() == picks(self@, 0, i as int, p).len(),
                forall|k: int|
                    0 <= k < out@.len() ==> (#[trigger] out@[k]).is_at(
                        self@,
                        picks(self@, 0, i as int, p)[k],
                    ),
                forall|k: int|
                    0 <= k < out@.len() ==> (#[trigger] out@[k]).extra_names()
                        == self.extra_names(),
            decreases self.nodes.len() - i,
        {
            let n = NodeRef { tree: self, index: i };
            assert(n.row() == self@[i as int]);
            if text::same(n.abbrev(), abbrev) {
                out.push(n);
            }
            i += 1;
        }
        out
    }

    /// The innermost node in `source` whose non-empty range covers `offset`:
    /// the first of the deepest, and among those of the shortest.
    pub fn innermost_at(&self, source: SourceId, offset: usize) -> (r: Option<NodeRef<'_>>)
        ensures
            match r {
                Some(n) => {
                    &&& n.is_at(self@, n.at())
                    &&& covers(n.row(), source, offset as int)
                    &&& forall|j: int|
                        0 <= j < self@.len() && covers(#[trigger] self@[j], source, offset as int)
                            ==> !more_inner(self@[j], n.row()) && (j < n.at() ==> more_inner(
                            n.row(),
                            self@[j],
                        ))
                },
                None => forall|j: int|
                    0 <= j < self@.len() ==> !covers(#[trigger] self@[j], source, offset as int),
            },
            r matches Some(n) ==> n.extra_names() == self.extra_names(),
    {
        let mut best: Option<usize> = None;
        let mut i: usize = 0;
        while i < self.nodes.len()
            invariant
                i <= self.nodes.len(),
                self@.len() == self.nodes@.len(),
                match best {
                    Some(b) => {
                        &&& b < i
                        &&& covers(self@[b as int], source, offset as int)
                        &&& forall|j: int|
                            0 <= j < i && covers(#[trigger] self@[j], source, offset as int)
                                ==> !more_inner(self@[j], self@[b as int]) && (j < b ==> more_inner(
                                self@[b as int],
                                self@[j],
                            ))
                    },
                    None => forall|j: int|
                        0 <= j < i ==> !covers(#[trigger] self@[j], source, offset as int),
                },
            decreases self.nodes.len() - i,
        {
            let n: TreeNode = self.nodes[i];
            let ghost row = self@[i as int];
            assert(row.start == n.start && row.end == n.start + n.len && row.depth == n.depth
                && row.source == n.source);
            let at: u64 = offset as u64;
            let start: u64 = n.start as u64;
            let end: u64 = n.start as u64 + n.len as u64;
            if n.source == source && start <= at && at < end {
                let better: bool = match best {
                    None => true,
                    Some(b) => {
                        let m: TreeNode = self.nodes[b];
                        assert(self@[b as int].depth == m.depth && self@[b as int].start == m.start
                            && self@[b as int].end == m.start + m.len);
                        n.depth > m.depth || (n.depth == m.depth && n.len < m.len)
                    },
                };
                if better {
                    best = Some(i);
                }
            }
            i += 1;
        }
        match best {
            Some(b) => Some(NodeRef { tree: self, index: b }),
            None => None,
        }
    }

    /// Flatten `layers` (each a top-level node) into a tree.
    pub fn from_layers(layers: &[Node]) -> (r: Tree)
        ensures
            outlines(r@, nodes_rows(layers@, 0)),
            packable(nodes_rows(layers@, 0)) ==> r@ == all_kept(nodes_rows(layers@, 0)),
            r.extra_names() == strangers(nodes_rows(layers@, 0)),
            rows_bytes(nodes_rows(layers@, 0)) <= 0xffff_ffff ==> r.held() == 28 * nodes_rows(
                layers@,
                0,
            ).len() + rows_bytes(nodes_rows(layers@, 0)),
    {
        let mut out: Vec<Entry> = Vec::new();
        flatten_all(layers, 0, &mut out);
        assert(entry_rows(out@) =~= nodes_rows(layers@, 0));
        Tree::pack(&out)
    }

    /// Heap bytes held: 28 for each node, and the strings.
    pub closed spec fn held(&self) -> int {
        (self.nodes@.len() * 28 + self.arena@.len()) as int
    }

    /// A tree takes 28 bytes for each row, and none of its strings takes less
    /// than nothing.
    pub proof fn rows_are_held(&self)
        ensures
            self.held() >= 28 * self@.len(),
    {
    }

    /// A copy of this tree.
    pub fn copied(&self) -> (r: Tree)
        ensures
            r@ == self@,
            r.extra_names() == self.extra_names(),
            r.held() == self.held(),
    {
        proof {
            use_type_invariant(self);
        }
        let mut nodes: Vec<TreeNode> = Vec::new();
        let mut i: usize = 0;
        while i < self.nodes.len()
            invariant
                i <= self.nodes@.len(),
                nodes@ =~= self.nodes@.take(i as int),
            decreases self.nodes.len() - i,
        {
            nodes.push(self.nodes[i]);
            i += 1;
        }
        assert(nodes@ =~= self.nodes@);
        let r = Tree {
            nodes,
            arena: bytes::copy_of(self.arena.as_slice()),
            names: self.names.copied(),
        };
        assert(r@ =~= self@);
        r
    }

    /// Heap bytes held: 28 for each node, and the strings.
    pub fn approx_size(&self) -> (r: usize)
        ensures
            r == (if self.held() <= usize::MAX {
                self.held()
            } else {
                usize::MAX as int
            }),
    {
        let n: usize = self.nodes.len();
        match n.checked_mul(28) {
            Some(m) => m.saturating_add(self.arena.len()),
            None => usize::MAX,
        }
    }
}

// ---- pointer form -----------------------------------------------------------------

/// The pointer form of a node.
#[derive(Debug, PartialEq, Eq)]
pub struct Node {
    /// Filter field name (`tcp.srcport`); protocols use their bare name.
    pub abbrev: &'static str,
    /// Byte range within data source `source` this node was decoded from.
    pub range: Range<usize>,
    pub source: SourceId,
    pub value: Value,
    /// Free-text label override. `None` means "format from the registry".
    pub text: Option<String>,
    pub children: Vec<Node>,
}

/// The row of a node, without its children, at `depth`.
pub open spec fn node_row(n: Node, depth: int) -> Row {
    Row {
        abbrev: n.abbrev@,
        source: n.source,
        start: n.range.start as int,
        end: n.range.end as int,
        depth,
        value: n.value@,
        text: text_view(n.text),
    }
}

/// A node and everything beneath it, depth-first.
pub open spec fn node_rows(n: Node, depth: int) -> Seq<Row>
    decreases n,
{
    seq![node_row(n, depth)] + nodes_rows(n.children@, deeper(depth))
}

/// Each node and everything beneath it, in order.
pub open spec fn nodes_rows(ns: Seq<Node>, depth: int) -> Seq<Row>
    decreases ns,
{
    if ns.len() == 0 {
        Seq::empty()
    } else {
        nodes_rows(ns.drop_last(), depth) + node_rows(ns.last(), depth)
    }
}

impl Node {
    pub fn new(abbrev: &'static str, range: Range<usize>, value: Value) -> (r: Node)
        ensures
            r.abbrev == abbrev,
            r.range == range,
            r.value == value,
            r.source == 0,
            r.text is None,
            r.children@.len() == 0,
    {
        Node { abbrev, range, source: 0, value, text: None, children: Vec::new() }
    }

    /// This node with a label of its own.
    pub fn with_text(self, text: String) -> (r: Node)
        ensures
            r == (Node { text: Some(text), ..self }),
    {
        let mut n = self;
        n.text = Some(text);
        n
    }

    /// This node with these children.
    pub fn with_children(self, children: Vec<Node>) -> (r: Node)
        ensures
            r == (Node { children, ..self }),
    {
        let mut n = self;
        n.children = children;
        n
    }

    /// This node in data source `source`.
    pub fn with_source(self, source: SourceId) -> (r: Node)
        ensures
            r == (Node { source, ..self }),
    {
        let mut n = self;
        n.source = source;
        n
    }

    /// Reserve room for `n` children.
    pub fn reserve(self, n: usize) -> (r: Node)
        ensures
            r.abbrev == self.abbrev,
            r.range == self.range,
            r.value == self.value,
            r.source == self.source,
            r.text == self.text,
            r.children@ == self.children@,
    {
        let mut out = self;
        out.children.reserve(n);
        out
    }

    /// Add a child behind the others.
    pub fn push(&mut self, child: Node)
        ensures
            final(self).children@ == old(self).children@.push(child),
            final(self).abbrev == old(self).abbrev,
            final(self).range == old(self).range,
            final(self).value == old(self).value,
            final(self).source == old(self).source,
            final(self).text == old(self).text,
    {
        self.children.push(child);
    }

    /// Number of nodes in this subtree including itself.
    pub fn count(&self) -> (r: usize)
        requires
            node_rows(*self, 0).len() <= usize::MAX,
        ensures
            r == node_rows(*self, 0).len(),
        decreases self,
    {
        let mut n: usize = 1;
        let mut i: usize = 0;
        assert(self.children@.take(self.children@.len() as int) =~= self.children@);
        proof {
            lemma_depth_irrelevant_all(self.children@, deeper(0), 0);
        }
        while i < self.children.len()
            invariant
                i <= self.children.len(),
                n == 1 + nodes_rows(self.children@.take(i as int), 0).len(),
                1 + nodes_rows(self.children@, 0).len() <= usize::MAX,
            decreases self.children.len() - i,
        {
            assert(self.children@.take(i + 1).drop_last() =~= self.children@.take(i as int));
            assert(self.children@.take(i + 1).last() == self.children@[i as int]);
            proof {
                lemma_rows_prefix(self.children@, i + 1, 0);
            }
            assert(decreases_to!(self => self.children@[i as int]));
            n = n + self.children[i].count();
            i += 1;
        }
        assert(self.children@.take(self.children@.len() as int) =~= self.children@);
        n
    }
}

proof fn lemma_rows_prefix(ns: Seq<Node>, i: int, depth: int)
    requires
        0 <= i <= ns.len(),
    ensures
        nodes_rows(ns.take(i), depth).len() <= nodes_rows(ns, depth).len(),
    decreases ns.len() - i,
{
    if i < ns.len() {
        lemma_rows_prefix(ns, i + 1, depth);
        assert(ns.take(i + 1).drop_last() =~= ns.take(i));
    } else {
        assert(ns.take(i) =~= ns);
    }
}

proof fn lemma_depth_irrelevant(n: Node, a: int, b: int)
    ensures
        node_rows(n, a).len() == node_rows(n, b).len(),
    decreases n,
{
    lemma_depth_irrelevant_all(n.children@, deeper(a), deeper(b));
}

proof fn lemma_depth_irrelevant_all(ns: Seq<Node>, a: int, b: int)
    ensures
        nodes_rows(ns, a).len() == nodes_rows(ns, b).len(),
    decreases ns,
{
    if ns.len() > 0 {
        lemma_depth_irrelevant_all(ns.drop_last(), a, b);
        lemma_depth_irrelevant(ns.last(), a, b);
    }
}

fn flatten(n: &Node, depth: u8, out: &mut Vec<Entry>)
    ensures
        entry_rows(final(out)@) == entry_rows(old(out)@) + node_rows(*n, depth as int),
    decreases n, 1int,
{
    let text: Option<String> = match &n.text {
        Some(t) => Some(t.clone()),
        None => None,
    };
    let e = Entry {
        abbrev: n.abbrev,
        source: n.source,
        start: n.range.start,
        end: n.range.end,
        depth,
        value: n.value.copied(),
        text,
    };
    out.push(e);
    assert(entry_rows(out@) =~= entry_rows(old(out)@).push(e@));
    let below: u8 = if depth < 255 {
        depth + 1
    } else {
        255
    };
    assert(decreases_to!(n => n.children@));
    flatten_all(&n.children, below, out);
    assert(entry_rows(out@) =~= entry_rows(old(out)@) + node_rows(*n, depth as int));
}

fn flatten_all(ns: &[Node], depth: u8, out: &mut Vec<Entry>)
    ensures
        entry_rows(final(out)@) == entry_rows(old(out)@) + nodes_rows(ns@, depth as int),
    decreases ns@, 0int,
{
    let mut i: usize = 0;
    let ghost before = entry_rows(out@);
    assert(nodes_rows(ns@.take(0), depth as int) =~= Seq::empty());
    while i < ns.len()
        invariant
            i <= ns.len(),
            before == entry_rows(old(out)@),
            entry_rows(out@) == before + nodes_rows(ns@.take(i as int), depth as int),
        decreases ns.len() - i,
    {
        assert(decreases_to!(ns@ => ns@[i as int]));
        flatten(&ns[i], depth, out);
        i += 1;
        assert(ns@.take(i as int).drop_last() =~= ns@.take(i - 1));
        assert(entry_rows(out@) =~= before + nodes_rows(ns@.take(i as int), depth as int));
    }
    assert(ns@.take(ns@.len() as int) =~= ns@);
}

impl TreeBuilder {
    /// The finished tree.
    pub fn finish(self) -> (r: Tree)
        ensures
            outlines(r@, self@.rows),
            packable(self@.rows) ==> r@ == all_kept(self@.rows),
            r.extra_names() == strangers(self@.rows),
            rows_bytes(self@.rows) <= 0xffff_ffff ==> r.held() == 28 * self@.rows.len()
                + rows_bytes(self@.rows),
    {
        Tree::pack(&self.rows)
    }
}

} // verus!
