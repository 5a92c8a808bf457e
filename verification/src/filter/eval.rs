//! Evaluating a compiled filter over a stored frame.
//!
//! This never re-dissects: it walks the flat tree the frame already carries.
//! Multi-occurrence semantics follow the usual convention: a comparison is
//! true when ANY occurrence of the field in the frame satisfies it. So
//! `tcp.port == 443` is true for a segment from 50000 to 443, and
//! `ip.src != 10.0.0.1` is true when any `ip.src` in the frame differs,
//! which for a frame carrying one IPv4 header is the intuitive reading, and
//! for a frame carrying two (an ICMP error quoting the offending header) is
//! the surprising one. `!(ip.src == 10.0.0.1)` is the way to say "no
//! occurrence matches".

use vstd::prelude::*;
use vstd::utf8::encode_utf8;

use super::ast::{CmpOp, Slice};
use super::types::{
    apply_v4, apply_v6, byte_regex_finds, find, find_bytes, masked, operands_view, regex_finds,
    Operand, OperandView, Target, TargetView, Test, TestView,
};
use crate::bytes;
use crate::bytes::{order_bytes, order_from, order_numbers, order_of, Order};
use crate::dissect::node::{value_display, NodeRef, Row, Value, ValueView};
use crate::dissect::registry::{self, Kind};
use crate::dissect::tables::{abbrev_at, FIELD_COUNT};
use crate::dissect::{source_of, Frame, FrameView};
use crate::text;
use crate::text::holds;

verus! {

// ---- order ----------------------------------------------------------------------

/// Whether an order satisfies an operator.
pub open spec fn satisfies(o: Order, op: CmpOp) -> bool {
    match op {
        CmpOp::Eq => o is Equal,
        CmpOp::Ne => !(o is Equal),
        CmpOp::Gt => o is Greater,
        CmpOp::Ge => !(o is Less),
        CmpOp::Lt => o is Less,
        CmpOp::Le => !(o is Greater),
        CmpOp::Contains | CmpOp::Matches => false,
    }
}

fn ord_op(o: Order, op: CmpOp) -> (r: bool)
    ensures
        r == satisfies(o, op),
{
    match op {
        CmpOp::Eq => matches!(o, Order::Equal),
        CmpOp::Ne => !matches!(o, Order::Equal),
        CmpOp::Gt => matches!(o, Order::Greater),
        CmpOp::Ge => !matches!(o, Order::Less),
        CmpOp::Lt => matches!(o, Order::Less),
        CmpOp::Le => !matches!(o, Order::Greater),
        CmpOp::Contains | CmpOp::Matches => false,
    }
}

// ---- bytes ----------------------------------------------------------------------

/// `needle` stands at position `i` of `d`.
pub open spec fn bytes_at(d: Seq<u8>, needle: Seq<u8>, i: int) -> bool {
    0 <= i && i + needle.len() <= d.len() && d.subrange(i, i + needle.len()) == needle
}

/// `needle` stands somewhere in `d`; an empty one stands everywhere.
pub open spec fn holds_bytes(d: Seq<u8>, needle: Seq<u8>) -> bool {
    exists|i: int| #[trigger] bytes_at(d, needle, i)
}

fn contains_bytes(d: &[u8], needle: &[u8]) -> (r: bool)
    ensures
        r == holds_bytes(d@, needle@),
{
    if needle.len() > d.len() {
        return false;
    }
    let most: usize = d.len() - needle.len();
    let mut i: usize = 0;
    loop
        invariant
            i <= most,
            most == d@.len() - needle@.len(),
            d@.len() <= usize::MAX,
            forall|j: int| 0 <= j < i ==> !#[trigger] bytes_at(d@, needle@, j),
        decreases most - i,
    {
        if bytes::same(bytes::part(d, i, i + needle.len()), needle) {
            assert(bytes_at(d@, needle@, i as int));
            return true;
        }
        assert(!bytes_at(d@, needle@, i as int));
        if i == most {
            return false;
        }
        i += 1;
    }
}

/// Whether bytes satisfy an operator.
pub open spec fn bytes_satisfy(got: Seq<u8>, want: Seq<u8>, op: CmpOp) -> bool {
    if op is Contains {
        holds_bytes(got, want)
    } else {
        satisfies(order_from(got, want, 0), op)
    }
}

fn bytes_op(got: &[u8], want: &[u8], op: CmpOp) -> (r: bool)
    ensures
        r == bytes_satisfy(got@, want@, op),
{
    if matches!(op, CmpOp::Contains) {
        contains_bytes(got, want)
    } else {
        ord_op(order_bytes(got, want), op)
    }
}

/// The bytes a row covers in its data source.
pub open spec fn row_bytes(row: Row, source: Seq<u8>) -> Option<Seq<u8>> {
    if 0 <= row.start <= row.end <= source.len() {
        Some(source.subrange(row.start, row.end))
    } else {
        None
    }
}

/// The bytes `contains` and `matches` search for a target. A protocol layer
/// row covers only its own header (so that selecting it highlights the
/// header), but a filter asking whether TCP contains some text means the
/// segment and everything it encapsulates, so searching runs from the
/// layer's start to the end of its data source. Groups and ordinary fields
/// search exactly their own bytes.
pub open spec fn searched_bytes(row: Row, source: Seq<u8>, target: TargetView) -> Option<Seq<u8>> {
    if target.kind is Protocol && target.slice is None {
        if 0 <= row.start <= source.len() {
            Some(source.subrange(row.start, source.len() as int))
        } else {
            None
        }
    } else {
        row_bytes(row, source)
    }
}

/// The bytes a slice selects from a row's own bytes. A slice that runs past
/// the field's bytes selects nothing, rather than a shorter run.
pub open spec fn sliced_bytes(row: Row, source: Seq<u8>, slice: Slice) -> Option<Seq<u8>> {
    match row_bytes(row, source) {
        None => None,
        Some(whole) => {
            let n = whole.len() as int;
            let start = if slice.offset < n {
                slice.offset as int
            } else {
                n
            };
            match slice.len {
                None => Some(whole.subrange(start, n)),
                Some(len) => if start + len <= n {
                    Some(whole.subrange(start, start + len))
                } else {
                    None
                },
            }
        },
    }
}

/// The bytes of an optional slice.
pub open spec fn part_view(b: Option<&[u8]>) -> Option<Seq<u8>> {
    match b {
        Some(b) => Some(b@),
        None => None,
    }
}

fn field_bytes<'a>(node: &NodeRef<'_>, source: &'a [u8]) -> (r: Option<&'a [u8]>)
    ensures
        part_view(r) == row_bytes(node.row(), source@),
{
    let range = node.range();
    if range.end <= source.len() {
        Some(bytes::part(source, range.start, range.end))
    } else {
        None
    }
}

fn search_bytes<'a>(node: &NodeRef<'_>, source: &'a [u8], target: &Target) -> (r: Option<&'a [u8]>)
    ensures
        part_view(r) == searched_bytes(node.row(), source@, target@),
{
    if matches!(target.kind, Kind::Protocol) && target.slice.is_none() {
        let start: usize = node.range().start;
        return if start <= source.len() {
            Some(bytes::part(source, start, source.len()))
        } else {
            None
        };
    }
    field_bytes(node, source)
}

fn slice_bytes<'a>(node: &NodeRef<'_>, source: &'a [u8], slice: Slice) -> (r: Option<&'a [u8]>)
    ensures
        part_view(r) == sliced_bytes(node.row(), source@, slice),
{
    match field_bytes(node, source) {
        None => None,
        Some(whole) => {
            let n: usize = whole.len();
            let start: usize = if slice.offset < n {
                slice.offset
            } else {
                n
            };
            match slice.len {
                None => Some(bytes::part(whole, start, n)),
                Some(len) => if len <= n - start {
                    Some(bytes::part(whole, start, start + len))
                } else {
                    None
                },
            }
        },
    }
}

// ---- one occurrence -------------------------------------------------------------

/// Whether an address in a network satisfies an operator.
pub open spec fn net_satisfies(inside: bool, op: CmpOp) -> bool {
    match op {
        CmpOp::Eq => inside,
        CmpOp::Ne => !inside,
        _ => false,
    }
}

fn net_op(inside: bool, op: CmpOp) -> (r: bool)
    ensures
        r == net_satisfies(inside, op),
{
    match op {
        CmpOp::Eq => inside,
        CmpOp::Ne => !inside,
        _ => false,
    }
}

/// Whether a bool counts as one or zero.
pub open spec fn bit(b: bool) -> int {
    if b {
        1
    } else {
        0
    }
}

/// Whether one occurrence of a field satisfies a comparison.
pub open spec fn compared(
    row: Row,
    source: Seq<u8>,
    target: TargetView,
    op: CmpOp,
    value: OperandView,
) -> bool {
    if target.slice is Some {
        match (sliced_bytes(row, source, target.slice->0), value) {
            (Some(got), OperandView::Bytes(want)) => bytes_satisfy(got, want, op),
            _ => false,
        }
    } else {
        match (value, row.value) {
            (OperandView::Unsigned(want), ValueView::Unsigned(got)) => satisfies(
                order_of(got as int, want as int),
                op,
            ),
            (OperandView::Signed(want), ValueView::Signed(got)) => satisfies(
                order_of(got as int, want as int),
                op,
            ),
            (OperandView::Signed(want), ValueView::Unsigned(got)) => got <= i64::MAX && satisfies(
                order_of(got as int, want as int),
                op,
            ),
            (OperandView::Bool(want), ValueView::Bool(got)) => satisfies(
                order_of(bit(got), bit(want)),
                op,
            ),
            (OperandView::Str(want), ValueView::Str(got)) => if op is Contains {
                holds(got, want)
            } else {
                satisfies(order_from(encode_utf8(got), encode_utf8(want), 0), op)
            },
            (OperandView::Ipv4(want), ValueView::Ipv4(got)) => satisfies(
                order_from(got, want, 0),
                op,
            ),
            (OperandView::Ipv4Net(net, mask), ValueView::Ipv4(got)) => net_satisfies(
                masked(got, mask) == net,
                op,
            ),
            (OperandView::Ipv6(want), ValueView::Ipv6(got)) => satisfies(
                order_from(got, want, 0),
                op,
            ),
            (OperandView::Ipv6Net(net, mask), ValueView::Ipv6(got)) => net_satisfies(
                masked(got, mask) == net,
                op,
            ),
            (OperandView::Bytes(want), ValueView::Mac(got)) => bytes_satisfy(got, want, op),
            (OperandView::Bytes(want), _) => match if op is Contains {
                searched_bytes(row, source, target)
            } else {
                row_bytes(row, source)
            } {
                Some(got) => bytes_satisfy(got, want, op),
                None => false,
            },
            // Protocol and group rows carry no value; a string searches the
            // bytes the layer covers.
            (OperandView::Str(want), ValueView::Empty) => if target.kind is Protocol
                || target.kind is Group {
                match searched_bytes(row, source, target) {
                    Some(got) => bytes_satisfy(got, encode_utf8(want), op),
                    None => false,
                }
            } else {
                false
            },
            _ => false,
        }
    }
}

fn compare(node: &NodeRef<'_>, source: &[u8], target: &Target, op: CmpOp, value: &Operand) -> (r:
    bool)
    ensures
        r == compared(node.row(), source@, target@, op, value@),
{
    if let Some(slice) = target.slice {
        return match (slice_bytes(node, source, slice), value) {
            (Some(got), Operand::Bytes(want)) => bytes_op(got, want.as_slice(), op),
            _ => false,
        };
    }
    match (value, node.value()) {
        (Operand::Unsigned(want), Value::Unsigned(got)) => ord_op(
            order_numbers(got as i128, *want as i128),
            op,
        ),
        (Operand::Signed(want), Value::Signed(got)) => ord_op(
            order_numbers(got as i128, *want as i128),
            op,
        ),
        (Operand::Signed(want), Value::Unsigned(got)) => got <= i64::MAX as u64 && ord_op(
            order_numbers(got as i128, *want as i128),
            op,
        ),
        (Operand::Bool(want), Value::Bool(got)) => {
            let a: i128 = if got {
                1
            } else {
                0
            };
            let b: i128 = if *want {
                1
            } else {
                0
            };
            ord_op(order_numbers(a, b), op)
        },
        (Operand::Str(want), Value::Str(got)) => if matches!(op, CmpOp::Contains) {
            text::contains(
                text::chars_of(got.as_str()).as_slice(),
                text::chars_of(want.as_str()).as_slice(),
            )
        } else {
            ord_op(order_bytes(got.as_str().as_bytes(), want.as_str().as_bytes()), op)
        },
        (Operand::Ipv4(want), Value::Ipv4(got)) => ord_op(order_bytes(&got, want), op),
        (Operand::Ipv4Net(net, mask), Value::Ipv4(got)) => {
            let inside: [u8; 4] = apply_v4(got, *mask);
            net_op(bytes::same(&inside, net), op)
        },
        (Operand::Ipv6(want), Value::Ipv6(got)) => ord_op(order_bytes(&got, want), op),
        (Operand::Ipv6Net(net, mask), Value::Ipv6(got)) => {
            let inside: [u8; 16] = apply_v6(got, *mask);
            net_op(bytes::same(&inside, net), op)
        },
        (Operand::Bytes(want), Value::Mac(got)) => bytes_op(&got, want.as_slice(), op),
        (Operand::Bytes(want), _) => {
            let got: Option<&[u8]> = if matches!(op, CmpOp::Contains) {
                search_bytes(node, source, target)
            } else {
                field_bytes(node, source)
            };
            match got {
                Some(got) => bytes_op(got, want.as_slice(), op),
                None => false,
            }
        },
        (Operand::Str(want), Value::Empty) => if matches!(
            target.kind,
            Kind::Protocol | Kind::Group
        ) {
            match search_bytes(node, source, target) {
                Some(got) => bytes_op(got, want.as_str().as_bytes(), op),
                None => false,
            }
        } else {
            false
        },
        _ => false,
    }
}

/// What a pattern is searched in.
#[derive(Debug)]
pub enum Haystack<'a> {
    Nothing,
    Text(String),
    Bytes(&'a [u8]),
}

/// What a pattern is searched in.
#[verifier::ext_equal]
pub enum HaystackView {
    Nothing,
    Text(Seq<char>),
    Bytes(Seq<u8>),
}

impl<'a> View for Haystack<'a> {
    type V = HaystackView;

    open spec fn view(&self) -> HaystackView {
        match *self {
            Haystack::Nothing => HaystackView::Nothing,
            Haystack::Text(s) => HaystackView::Text(s@),
            Haystack::Bytes(b) => HaystackView::Bytes(b@),
        }
    }
}

/// The bytes that may be searched.
pub open spec fn in_bytes(b: Option<Seq<u8>>) -> HaystackView {
    match b {
        Some(b) => HaystackView::Bytes(b),
        None => HaystackView::Nothing,
    }
}

/// What a pattern is searched in at one occurrence of a field: the bytes of a
/// slice, the text of a string, the bytes of what has no value of its own, and
/// the text of any other value.
pub open spec fn haystack_of(row: Row, source: Seq<u8>, target: TargetView) -> HaystackView {
    match (target.slice, row.value) {
        (Some(slice), _) => in_bytes(sliced_bytes(row, source, slice)),
        (None, ValueView::Bytes) | (None, ValueView::Empty) => in_bytes(
            searched_bytes(row, source, target),
        ),
        (None, v) => HaystackView::Text(value_display(v)),
    }
}

/// What a pattern is searched in at one occurrence of a field.
pub fn haystack<'a>(node: &NodeRef<'_>, source: &'a [u8], target: &Target) -> (r: Haystack<'a>)
    ensures
        r@ == haystack_of(node.row(), source@, target@),
{
    if let Some(slice) = target.slice {
        return match slice_bytes(node, source, slice) {
            Some(b) => Haystack::Bytes(b),
            None => Haystack::Nothing,
        };
    }
    match node.value() {
        Value::Bytes | Value::Empty => match search_bytes(node, source, target) {
            Some(b) => Haystack::Bytes(b),
            None => Haystack::Nothing,
        },
        other => Haystack::Text(other.text()),
    }
}

/// Whether a pattern is found.
pub open spec fn pattern_found(h: HaystackView, pattern: Seq<char>) -> bool {
    match h {
        HaystackView::Nothing => false,
        HaystackView::Text(s) => regex_finds(pattern, s),
        HaystackView::Bytes(b) => byte_regex_finds(pattern, b),
    }
}

/// Whether one occurrence equals one of several values.
pub open spec fn equals_one(
    row: Row,
    source: Seq<u8>,
    target: TargetView,
    values: Seq<OperandView>,
) -> bool {
    exists|k: int|
        0 <= k < values.len() && compared(row, source, target, CmpOp::Eq, #[trigger] values[k])
}

/// Whether one occurrence satisfies a test of a field.
pub open spec fn passes(t: TestView, row: Row, source: Seq<u8>) -> bool {
    match t {
        TestView::Compare { target, op, value } => compared(row, source, target, op, value),
        TestView::In { target, values } => equals_one(row, source, target, values),
        TestView::Regex { target, pattern } => pattern_found(
            haystack_of(row, source, target),
            pattern,
        ),
        _ => false,
    }
}

fn one_of(node: &NodeRef<'_>, source: &[u8], target: &Target, values: &Vec<Operand>) -> (r: bool)
    ensures
        r == equals_one(node.row(), source@, target@, operands_view(values@)),
{
    let ghost vs = operands_view(values@);
    let mut k: usize = 0;
    while k < values.len()
        invariant
            k <= values@.len(),
            vs == operands_view(values@),
            forall|j: int|
                0 <= j < k ==> !compared(
                    node.row(),
                    source@,
                    target@,
                    CmpOp::Eq,
                    #[trigger] vs[j],
                ),
        decreases values.len() - k,
    {
        assert(vs[k as int] == values@[k as int]@);
        if compare(node, source, target, CmpOp::Eq, &values[k]) {
            assert(k < vs.len() && compared(
                node.row(),
                source@,
                target@,
                CmpOp::Eq,
                vs[k as int],
            ));
            return true;
        }
        k += 1;
    }
    false
}

fn passed(t: &Test, node: &NodeRef<'_>, source: &[u8]) -> (r: bool)
    ensures
        r == passes(t@, node.row(), source@),
{
    match t {
        Test::Compare { target, op, value } => compare(node, source, target, *op, value),
        Test::In { target, values } => one_of(node, source, target, values),
        Test::Regex { target, pattern } => match haystack(node, source, target) {
            Haystack::Nothing => false,
            Haystack::Text(s) => find(pattern.as_str(), s.as_str()),
            Haystack::Bytes(b) => find_bytes(pattern.as_str(), b),
        },
        _ => false,
    }
}

// ---- a whole frame --------------------------------------------------------------

/// A row is an occurrence of one of the target's fields.
pub open spec fn occurs(target: TargetView, row: Row) -> bool {
    exists|k: int|
        0 <= k < target.ids.len() && #[trigger] target.ids[k] < FIELD_COUNT && abbrev_at(
            target.ids[k] as int,
        ) == row.abbrev
}

/// Row `i` is an occurrence of the target that satisfies the test.
pub open spec fn hit(t: TestView, target: TargetView, f: FrameView, i: int) -> bool {
    occurs(target, f.rows[i]) && match source_of(f.bytes, f.extra, f.rows[i].source) {
        Some(source) => passes(t, f.rows[i], source),
        None => false,
    }
}

/// Whether a frame satisfies a filter: a test of a field holds when any
/// occurrence of it does.
pub open spec fn satisfied(t: TestView, f: FrameView) -> bool
    decreases t,
{
    match t {
        TestView::And(a, b) => satisfied(*a, f) && satisfied(*b, f),
        TestView::Or(a, b) => satisfied(*a, f) || satisfied(*b, f),
        TestView::Not(a) => !satisfied(*a, f),
        TestView::Present(target) => exists|i: int|
            0 <= i < f.rows.len() && occurs(target, #[trigger] f.rows[i]),
        TestView::Compare { target, .. } => exists|i: int|
            0 <= i < f.rows.len() && #[trigger] hit(t, target, f, i),
        TestView::In { target, .. } => exists|i: int|
            0 <= i < f.rows.len() && #[trigger] hit(t, target, f, i),
        TestView::Regex { target, .. } => exists|i: int|
            0 <= i < f.rows.len() && #[trigger] hit(t, target, f, i),
    }
}

fn is_occurrence(target: &Target, node: &NodeRef<'_>) -> (r: bool)
    ensures
        r == occurs(target@, node.row()),
{
    let id: u16 = node.field_id();
    let abbrev: &'static str = node.abbrev();
    let none = registry::Interner::new();
    let mut k: usize = 0;
    while k < target.ids.len()
        invariant
            k <= target.ids@.len(),
            id < FIELD_COUNT ==> node.row().abbrev == abbrev_at(id as int),
            abbrev@ == node.row().abbrev,
            forall|j: int|
                0 <= j < k ==> !(#[trigger] target@.ids[j] < FIELD_COUNT && abbrev_at(
                    target@.ids[j] as int,
                ) == node.row().abbrev),
        decreases target.ids.len() - k,
    {
        let want: u16 = target.ids[k];
        if (want as usize) < FIELD_COUNT {
            if want == id || text::same(registry::field_abbrev(&none, want), abbrev) {
                assert(target@.ids[k as int] == want);
                return true;
            }
        }
        k += 1;
    }
    false
}

fn any_present(target: &Target, frame: &Frame) -> (r: bool)
    ensures
        r == satisfied(TestView::Present(target@), frame@),
{
    let n: usize = frame.tree.len();
    let mut i: usize = 0;
    while i < n
        invariant
            i <= n == frame@.rows.len(),
            forall|j: int| 0 <= j < i ==> !occurs(target@, #[trigger] frame@.rows[j]),
        decreases n - i,
    {
        if let Some(node) = frame.tree.get(i) {
            if is_occurrence(target, &node) {
                assert(occurs(target@, frame@.rows[i as int]));
                return true;
            }
        }
        i += 1;
    }
    false
}

/// Run the test over each occurrence of the target's fields, stopping at the
/// first that matches.
fn any_occurrence(t: &Test, target: &Target, frame: &Frame) -> (r: bool)
    ensures
        r == exists|i: int| 0 <= i < frame@.rows.len() && #[trigger] hit(t@, target@, frame@, i),
{
    let n: usize = frame.tree.len();
    let mut i: usize = 0;
    while i < n
        invariant
            i <= n == frame@.rows.len(),
            forall|j: int| 0 <= j < i ==> !#[trigger] hit(t@, target@, frame@, j),
        decreases n - i,
    {
        if let Some(node) = frame.tree.get(i) {
            if is_occurrence(target, &node) {
                if let Some(source) = frame.source(node.source()) {
                    if passed(t, &node, source) {
                        assert(hit(t@, target@, frame@, i as int));
                        return true;
                    }
                }
            }
        }
        assert(!hit(t@, target@, frame@, i as int));
        i += 1;
    }
    false
}

/// Does `frame` match?
pub fn matches(test: &Test, frame: &Frame) -> (r: bool)
    ensures
        r == satisfied(test@, frame@),
    decreases test,
{
    match test {
        Test::And(a, b) => matches(a, frame) && matches(b, frame),
        Test::Or(a, b) => matches(a, frame) || matches(b, frame),
        Test::Not(a) => !matches(a, frame),
        Test::Present(target) => any_present(target, frame),
        Test::Compare { target, .. } => any_occurrence(test, target, frame),
        Test::In { target, .. } => any_occurrence(test, target, frame),
        Test::Regex { target, .. } => any_occurrence(test, target, frame),
    }
}

// ---- what any occurrence means --------------------------------------------------

/// The field that a test is about.
pub open spec fn target_of(t: TestView) -> Option<TargetView> {
    match t {
        TestView::Present(target) => Some(target),
        TestView::Compare { target, .. } => Some(target),
        TestView::In { target, .. } => Some(target),
        TestView::Regex { target, .. } => Some(target),
        _ => None,
    }
}

/// A test of a field that the frame does not have never matches, and its
/// negation always does.
pub proof fn missing_field_never_matches(t: TestView, target: TargetView, f: FrameView)
    requires
        target_of(t) == Some(target),
        forall|i: int| 0 <= i < f.rows.len() ==> !occurs(target, #[trigger] f.rows[i]),
    ensures
        !satisfied(t, f),
        satisfied(TestView::Not(Box::new(t)), f),
{
    assert(!satisfied(t, f)) by {
        if !(t is Present) && satisfied(t, f) {
            let i = choose|i: int| 0 <= i < f.rows.len() && #[trigger] hit(t, target, f, i);
            assert(occurs(target, f.rows[i]));
        }
    }
    assert(satisfied(TestView::Not(Box::new(t)), f) == !satisfied(t, f));
}

/// The negation of an equality says that no occurrence equals the value, which
/// is more than that some occurrence differs.
pub proof fn not_equal_means_no_occurrence(target: TargetView, value: OperandView, f: FrameView)
    ensures
        ({
            let t = TestView::Compare { target, op: CmpOp::Eq, value };
            satisfied(TestView::Not(Box::new(t)), f) <==> forall|i: int|
                0 <= i < f.rows.len() ==> !#[trigger] hit(t, target, f, i)
        }),
{
    let t = TestView::Compare { target, op: CmpOp::Eq, value };
    assert(satisfied(TestView::Not(Box::new(t)), f) == !satisfied(t, f));
}

/// `field in {a, b, c}` is `field == a || field == b || field == c`.
pub proof fn in_is_any_equality(target: TargetView, values: Seq<OperandView>, f: FrameView)
    ensures
        satisfied(TestView::In { target, values }, f) <==> exists|k: int|
            0 <= k < values.len() && satisfied(
                (TestView::Compare { target, op: CmpOp::Eq, value: #[trigger] values[k] }),
                f,
            ),
{
    let t = TestView::In { target, values };
    if satisfied(t, f) {
        let i = choose|i: int| 0 <= i < f.rows.len() && #[trigger] hit(t, target, f, i);
        let source = source_of(f.bytes, f.extra, f.rows[i].source)->0;
        assert(equals_one(f.rows[i], source, target, values));
        let k = choose|k: int|
            0 <= k < values.len() && compared(
                f.rows[i],
                source,
                target,
                CmpOp::Eq,
                #[trigger] values[k],
            );
        let one = TestView::Compare { target, op: CmpOp::Eq, value: values[k] };
        assert(hit(one, target, f, i));
        assert(satisfied(one, f));
    }
    if exists|k: int|
        0 <= k < values.len() && satisfied(
            (TestView::Compare { target, op: CmpOp::Eq, value: #[trigger] values[k] }),
            f,
        ) {
        let k = choose|k: int|
            0 <= k < values.len() && satisfied(
                (TestView::Compare { target, op: CmpOp::Eq, value: #[trigger] values[k] }),
                f,
            );
        let one = TestView::Compare { target, op: CmpOp::Eq, value: values[k] };
        let i = choose|i: int| 0 <= i < f.rows.len() && #[trigger] hit(one, target, f, i);
        let source = source_of(f.bytes, f.extra, f.rows[i].source)->0;
        assert(compared(f.rows[i], source, target, CmpOp::Eq, values[k]));
        assert(equals_one(f.rows[i], source, target, values));
        assert(hit(t, target, f, i));
    }
}

} // verus!
