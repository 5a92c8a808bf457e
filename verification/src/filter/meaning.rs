//! What filters mean, in terms of the values that frames hold.

use vstd::prelude::*;
use vstd::utf8::encode_utf8;

use super::ast::{CmpOp, LiteralView, Slice};
use super::eval::{bytes_at, compared, hit, holds_bytes, row_bytes, satisfied, sliced_bytes};
use super::types::{mask_of, masked, operand_of, OperandView, TargetView, TestView};
use crate::bytes::{order_from, Order};
use crate::dissect::node::{Row, ValueView};
use crate::dissect::{source_of, FrameView};
use crate::text::{holds, stands_at};

verus! {

// ---- numbers --------------------------------------------------------------------

/// Comparing a number with a number asks how the two numbers are related, as
/// the operator says.
pub proof fn numbers_compare_as_numbers(
    row: Row,
    source: Seq<u8>,
    target: TargetView,
    got: u64,
    want: u64,
)
    requires
        target.slice is None,
        row.value == ValueView::Unsigned(got),
    ensures
        ({
            let value = OperandView::Unsigned(want);
            &&& compared(row, source, target, CmpOp::Eq, value) <==> got == want
            &&& compared(row, source, target, CmpOp::Ne, value) <==> got != want
            &&& compared(row, source, target, CmpOp::Lt, value) <==> got < want
            &&& compared(row, source, target, CmpOp::Le, value) <==> got <= want
            &&& compared(row, source, target, CmpOp::Gt, value) <==> got > want
            &&& compared(row, source, target, CmpOp::Ge, value) <==> got >= want
        }),
{
}

/// The same for numbers that may be negative, whichever way the field holds
/// its own.
pub proof fn signed_numbers_compare_as_numbers(
    row: Row,
    source: Seq<u8>,
    target: TargetView,
    got: int,
    want: i64,
)
    requires
        target.slice is None,
        i64::MIN <= got <= i64::MAX,
        row.value == ValueView::Signed(got as i64) || got >= 0 && row.value == ValueView::Unsigned(
            got as u64,
        ),
    ensures
        ({
            let value = OperandView::Signed(want);
            &&& compared(row, source, target, CmpOp::Eq, value) <==> got == want
            &&& compared(row, source, target, CmpOp::Ne, value) <==> got != want
            &&& compared(row, source, target, CmpOp::Lt, value) <==> got < want
            &&& compared(row, source, target, CmpOp::Le, value) <==> got <= want
            &&& compared(row, source, target, CmpOp::Gt, value) <==> got > want
            &&& compared(row, source, target, CmpOp::Ge, value) <==> got >= want
        }),
{
}

/// A flag equals what it is, and differs from what it is not.
pub proof fn flags_compare_as_flags(
    row: Row,
    source: Seq<u8>,
    target: TargetView,
    got: bool,
    want: bool,
)
    requires
        target.slice is None,
        row.value == ValueView::Bool(got),
    ensures
        compared(row, source, target, CmpOp::Eq, OperandView::Bool(want)) <==> got == want,
        compared(row, source, target, CmpOp::Ne, OperandView::Bool(want)) <==> got != want,
        compared(row, source, target, CmpOp::Lt, OperandView::Bool(want)) <==> !got && want,
        compared(row, source, target, CmpOp::Gt, OperandView::Bool(want)) <==> got && !want,
        compared(row, source, target, CmpOp::Le, OperandView::Bool(want)) <==> (got ==> want),
        compared(row, source, target, CmpOp::Ge, OperandView::Bool(want)) <==> (want ==> got),
{
}

// ---- byte strings ---------------------------------------------------------------

/// `a` and `b` agree in their first `k` bytes, and behind those `a` has the
/// smaller byte or none.
pub open spec fn parts_at(a: Seq<u8>, b: Seq<u8>, k: int) -> bool {
    &&& 0 <= k < b.len()
    &&& k <= a.len()
    &&& a.take(k) == b.take(k)
    &&& k < a.len() ==> a[k] < b[k]
}

/// `a` comes before `b` in the dictionary.
pub open spec fn comes_before(a: Seq<u8>, b: Seq<u8>) -> bool {
    exists|k: int| #[trigger] parts_at(a, b, k)
}

proof fn lemma_dictionary(a: Seq<u8>, b: Seq<u8>, i: int)
    requires
        0 <= i <= a.len(),
        i <= b.len(),
        a.take(i) == b.take(i),
    ensures
        order_from(a, b, i) == Order::Less <==> comes_before(a, b),
        order_from(a, b, i) == Order::Greater <==> comes_before(b, a),
        order_from(a, b, i) == Order::Equal <==> a == b,
    decreases a.len() - i,
{
    if i < a.len() && i < b.len() && a[i] == b[i] {
        assert(a.take(i + 1) =~= a.take(i).push(a[i]));
        assert(b.take(i + 1) =~= b.take(i).push(b[i]));
        lemma_dictionary(a, b, i + 1);
    } else {
        if i == a.len() && i == b.len() {
            assert(a =~= a.take(i) && b =~= b.take(i));
        }
        if order_from(a, b, i) == Order::Less {
            assert(parts_at(a, b, i));
        }
        if order_from(a, b, i) == Order::Greater {
            assert(parts_at(b, a, i));
        }
        assert forall|k: int| #[trigger] parts_at(a, b, k) implies order_from(a, b, i)
            == Order::Less by {
            lemma_same_start(a, b, i, k);
        }
        assert forall|k: int| #[trigger] parts_at(b, a, k) implies order_from(a, b, i)
            == Order::Greater by {
            lemma_same_start(b, a, i, k);
        }
    }
}

proof fn lemma_same_start(a: Seq<u8>, b: Seq<u8>, i: int, k: int)
    requires
        0 <= i <= a.len(),
        i <= b.len(),
        a.take(i) == b.take(i),
        i == a.len() || i == b.len() || a[i] != b[i],
        parts_at(a, b, k),
    ensures
        k == i,
{
    if k < i {
        assert(a.take(i)[k] == a[k] && b.take(i)[k] == b[k]);
    } else if i < k {
        assert(a.take(k)[i] == a[i] && b.take(k)[i] == b[i]);
    }
}

/// Byte strings are ordered as in a dictionary.
pub proof fn bytes_are_ordered_as_in_a_dictionary(a: Seq<u8>, b: Seq<u8>)
    ensures
        order_from(a, b, 0) == Order::Less <==> comes_before(a, b),
        order_from(a, b, 0) == Order::Greater <==> comes_before(b, a),
        order_from(a, b, 0) == Order::Equal <==> a == b,
{
    assert(a.take(0) =~= b.take(0));
    lemma_dictionary(a, b, 0);
}

/// The bytes that a comparison is about: the octets of an address, the UTF-8
/// of a string, or what the row covers.
pub open spec fn compared_bytes(row: Row, source: Seq<u8>) -> Option<Seq<u8>> {
    match row.value {
        ValueView::Mac(m) => Some(m),
        ValueView::Ipv4(a) => Some(a),
        ValueView::Ipv6(a) => Some(a),
        ValueView::Str(s) => Some(encode_utf8(s)),
        _ => if 0 <= row.start <= row.end <= source.len() {
            Some(source.subrange(row.start, row.end))
        } else {
            None
        },
    }
}

/// What is compared as bytes compares as in a dictionary: strings with
/// strings, addresses with addresses, and bytes with hardware addresses and
/// with what holds no other value.
pub proof fn byte_strings_compare_as_in_a_dictionary(
    row: Row,
    source: Seq<u8>,
    target: TargetView,
    value: OperandView,
    got: Seq<u8>,
    want: Seq<u8>,
)
    requires
        target.slice is None,
        compared_bytes(row, source) == Some(got),
        match value {
            OperandView::Str(s) => row.value is Str && want == encode_utf8(s),
            OperandView::Ipv4(a) => row.value is Ipv4 && want == a,
            OperandView::Ipv6(a) => row.value is Ipv6 && want == a,
            OperandView::Bytes(b) => (row.value is Mac || row.value is Bytes) && want == b,
            _ => false,
        },
    ensures
        compared(row, source, target, CmpOp::Eq, value) <==> got == want,
        compared(row, source, target, CmpOp::Ne, value) <==> got != want,
        compared(row, source, target, CmpOp::Lt, value) <==> comes_before(got, want),
        compared(row, source, target, CmpOp::Le, value) <==> comes_before(got, want) || got == want,
        compared(row, source, target, CmpOp::Gt, value) <==> comes_before(want, got),
        compared(row, source, target, CmpOp::Ge, value) <==> comes_before(want, got) || got == want,
{
    bytes_are_ordered_as_in_a_dictionary(got, want);
}

// ---- operators ------------------------------------------------------------------

/// The value is no network, which has no order.
pub open spec fn is_single(value: OperandView) -> bool {
    !(value is Ipv4Net) && !(value is Ipv6Net)
}

/// The operators are related as their signs are, in every occurrence: `<=` is
/// `<` or `==`, and `>=` is `>` or `==`; at most one of `<`, `==` and `>`
/// holds; and `!=` is `<` or `>`.
pub proof fn operators_agree(
    row: Row,
    source: Seq<u8>,
    target: TargetView,
    value: OperandView,
)
    requires
        is_single(value),
    ensures
        ({
            let lt = compared(row, source, target, CmpOp::Lt, value);
            let eq = compared(row, source, target, CmpOp::Eq, value);
            let gt = compared(row, source, target, CmpOp::Gt, value);
            &&& compared(row, source, target, CmpOp::Le, value) <==> lt || eq
            &&& compared(row, source, target, CmpOp::Ge, value) <==> gt || eq
            &&& compared(row, source, target, CmpOp::Ne, value) <==> lt || gt
            &&& !(lt && eq) && !(lt && gt) && !(eq && gt)
        }),
{
}

proof fn lemma_hit(t: TestView, target: TargetView, f: FrameView, i: int)
    requires
        0 <= i < f.rows.len(),
        hit(t, target, f, i),
        t matches TestView::Compare { target: x, .. } && x == target,
    ensures
        satisfied(t, f),
{
}

/// A frame matches `field <= value` exactly when it matches `field < value` or
/// `field == value`, and `field >= value` exactly when it matches
/// `field > value` or `field == value`.
pub proof fn at_most_is_less_or_equal(target: TargetView, value: OperandView, f: FrameView)
    requires
        is_single(value),
    ensures
        ({
            let lt = satisfied(TestView::Compare { target, op: CmpOp::Lt, value }, f);
            let eq = satisfied(TestView::Compare { target, op: CmpOp::Eq, value }, f);
            let gt = satisfied(TestView::Compare { target, op: CmpOp::Gt, value }, f);
            &&& satisfied(TestView::Compare { target, op: CmpOp::Le, value }, f) <==> lt || eq
            &&& satisfied(TestView::Compare { target, op: CmpOp::Ge, value }, f) <==> gt || eq
            &&& satisfied(TestView::Compare { target, op: CmpOp::Ne, value }, f) <==> lt || gt
        }),
{
    let lt = TestView::Compare { target, op: CmpOp::Lt, value };
    let eq = TestView::Compare { target, op: CmpOp::Eq, value };
    let gt = TestView::Compare { target, op: CmpOp::Gt, value };
    let le = TestView::Compare { target, op: CmpOp::Le, value };
    let ge = TestView::Compare { target, op: CmpOp::Ge, value };
    let ne = TestView::Compare { target, op: CmpOp::Ne, value };
    assert forall|i: int| 0 <= i < f.rows.len() implies (#[trigger] hit(le, target, f, i) <==> hit(
        lt,
        target,
        f,
        i,
    ) || hit(eq, target, f, i)) && (hit(ge, target, f, i) <==> hit(gt, target, f, i) || hit(
        eq,
        target,
        f,
        i,
    )) && (hit(ne, target, f, i) <==> hit(lt, target, f, i) || hit(gt, target, f, i)) by {
        if let Some(source) = source_of(f.bytes, f.extra, f.rows[i].source) {
            operators_agree(f.rows[i], source, target, value);
        }
    }
    lemma_either(le, lt, eq, target, f);
    lemma_either(ge, gt, eq, target, f);
    lemma_either(ne, lt, gt, target, f);
}

proof fn lemma_either(t: TestView, a: TestView, b: TestView, target: TargetView, f: FrameView)
    requires
        t matches TestView::Compare { target: x, .. } && x == target,
        a matches TestView::Compare { target: x, .. } && x == target,
        b matches TestView::Compare { target: x, .. } && x == target,
        forall|i: int|
            0 <= i < f.rows.len() ==> (#[trigger] hit(t, target, f, i) <==> hit(a, target, f, i)
                || hit(b, target, f, i)),
    ensures
        satisfied(t, f) <==> satisfied(a, f) || satisfied(b, f),
{
    if satisfied(t, f) {
        let i = choose|i: int| 0 <= i < f.rows.len() && #[trigger] hit(t, target, f, i);
        if hit(a, target, f, i) {
            lemma_hit(a, target, f, i);
        } else {
            lemma_hit(b, target, f, i);
        }
    }
    if satisfied(a, f) {
        let i = choose|i: int| 0 <= i < f.rows.len() && #[trigger] hit(a, target, f, i);
        assert(hit(t, target, f, i));
    }
    if satisfied(b, f) {
        let i = choose|i: int| 0 <= i < f.rows.len() && #[trigger] hit(b, target, f, i);
        assert(hit(t, target, f, i));
    }
}

/// `&&`, `||` and `!` are and, or and not.
pub proof fn connectives_are_logical(a: TestView, b: TestView, f: FrameView)
    ensures
        satisfied(TestView::And(Box::new(a), Box::new(b)), f) <==> satisfied(a, f) && satisfied(
            b,
            f,
        ),
        satisfied(TestView::Or(Box::new(a), Box::new(b)), f) <==> satisfied(a, f) || satisfied(
            b,
            f,
        ),
        satisfied(TestView::Not(Box::new(a)), f) <==> !satisfied(a, f),
{
}

// ---- searching ------------------------------------------------------------------

/// `contains` on bytes: what is searched is something, then what is looked
/// for, then something.
pub proof fn holding_bytes_is_being_made_of_them(d: Seq<u8>, needle: Seq<u8>)
    ensures
        holds_bytes(d, needle) <==> exists|a: Seq<u8>, b: Seq<u8>|
            d == #[trigger] (a + needle + b),
{
    if holds_bytes(d, needle) {
        let i = choose|i: int| #[trigger] bytes_at(d, needle, i);
        let (a, b) = (d.take(i), d.skip(i + needle.len()));
        assert(d =~= a + needle + b);
    }
    if exists|a: Seq<u8>, b: Seq<u8>| d == #[trigger] (a + needle + b) {
        let (a, b) = choose|a: Seq<u8>, b: Seq<u8>| d == #[trigger] (a + needle + b);
        assert(d.subrange(a.len() as int, (a.len() + needle.len()) as int) =~= needle);
        assert(bytes_at(d, needle, a.len() as int));
    }
}

/// The same for text.
pub proof fn holding_text_is_being_made_of_it(s: Seq<char>, needle: Seq<char>)
    ensures
        holds(s, needle) <==> exists|a: Seq<char>, b: Seq<char>|
            s == #[trigger] (a + needle + b),
{
    if holds(s, needle) {
        let i = choose|i: int| #[trigger] stands_at(s, needle, i);
        let (a, b) = (s.take(i), s.skip(i + needle.len()));
        assert(s =~= a + needle + b);
    }
    if exists|a: Seq<char>, b: Seq<char>| s == #[trigger] (a + needle + b) {
        let (a, b) = choose|a: Seq<char>, b: Seq<char>| s == #[trigger] (a + needle + b);
        assert(s.subrange(a.len() as int, (a.len() + needle.len()) as int) =~= needle);
        assert(stands_at(s, needle, a.len() as int));
    }
}

/// A protocol holds what stands anywhere from the start of its header to the
/// end of the data; a field holds only what stands in its own bytes; and text
/// holds what stands in the text.
pub proof fn contains_searches_the_right_bytes(
    row: Row,
    source: Seq<u8>,
    target: TargetView,
    want: Seq<u8>,
    text: Seq<char>,
)
    requires
        target.slice is None,
        0 <= row.start <= row.end <= source.len(),
    ensures
        row.value is Empty || row.value is Bytes ==> (compared(
            row,
            source,
            target,
            CmpOp::Contains,
            OperandView::Bytes(want),
        ) <==> holds_bytes(
            if target.kind is Protocol {
                source.skip(row.start)
            } else {
                source.subrange(row.start, row.end)
            },
            want,
        )),
        row.value matches ValueView::Str(s) ==> (compared(
            row,
            source,
            target,
            CmpOp::Contains,
            OperandView::Str(text),
        ) <==> holds(s, text)),
{
    assert(source.subrange(row.start, source.len() as int) =~= source.skip(row.start));
}

/// A slice compares the bytes that stand that far into the field: as many as
/// it asks for, or all that are left. One that asks for more than there are
/// matches nothing.
pub proof fn slices_compare_the_bytes_they_name(
    row: Row,
    source: Seq<u8>,
    target: TargetView,
    slice: Slice,
    want: Seq<u8>,
)
    requires
        target.slice == Some(slice),
        0 <= row.start <= row.end <= source.len(),
        slice.offset <= row.end - row.start,
    ensures
        ({
            let value = OperandView::Bytes(want);
            let from = row.start + slice.offset;
            match slice.len {
                None => compared(row, source, target, CmpOp::Eq, value) <==> source.subrange(
                    from,
                    row.end,
                ) == want,
                Some(n) => if from + n <= row.end {
                    compared(row, source, target, CmpOp::Eq, value) <==> source.subrange(
                        from,
                        from + n,
                    ) == want
                } else {
                    forall|op: CmpOp| !#[trigger] compared(row, source, target, op, value)
                },
            }
        }),
{
    let from = row.start + slice.offset;
    let whole = source.subrange(row.start, row.end);
    assert(row_bytes(row, source) == Some(whole));
    let got = match slice.len {
        None => source.subrange(from, row.end),
        Some(n) => if from + n <= row.end {
            source.subrange(from, from + n)
        } else {
            Seq::empty()
        },
    };
    match slice.len {
        None => {
            assert(whole.subrange(slice.offset as int, whole.len() as int) =~= got);
            assert(sliced_bytes(row, source, slice) == Some(got));
        },
        Some(n) => {
            if from + n <= row.end {
                assert(whole.subrange(slice.offset as int, slice.offset + n) =~= got);
                assert(sliced_bytes(row, source, slice) == Some(got));
            } else {
                assert(sliced_bytes(row, source, slice) is None);
            }
        },
    }
    bytes_are_ordered_as_in_a_dictionary(got, want);
}

// ---- networks -------------------------------------------------------------------

/// Two addresses have the same first `n` bits: the same whole bytes, and the
/// same high bits in the byte behind them.
pub open spec fn same_prefix(a: Seq<u8>, b: Seq<u8>, n: int) -> bool {
    &&& forall|i: int| 0 <= i < a.len() && 8 * (i + 1) <= n ==> #[trigger] a[i] == b[i]
    &&& n % 8 != 0 && n / 8 < a.len() ==> a[n / 8] >> ((8 - n % 8) as u8) == b[n / 8] >> ((8 - n
        % 8) as u8)
}

proof fn lemma_high_bits(x: u8, y: u8)
    ensures
        x & 0 == y & 0,
        x & 0xff == y & 0xff <==> x == y,
        x & 0x80 == y & 0x80 <==> x >> 7u8 == y >> 7u8,
        x & 0xc0 == y & 0xc0 <==> x >> 6u8 == y >> 6u8,
        x & 0xe0 == y & 0xe0 <==> x >> 5u8 == y >> 5u8,
        x & 0xf0 == y & 0xf0 <==> x >> 4u8 == y >> 4u8,
        x & 0xf8 == y & 0xf8 <==> x >> 3u8 == y >> 3u8,
        x & 0xfc == y & 0xfc <==> x >> 2u8 == y >> 2u8,
        x & 0xfe == y & 0xfe <==> x >> 1u8 == y >> 1u8,
{
    assert(x & 0 == y & 0) by (bit_vector);
    assert(x & 0xff == y & 0xff <==> x == y) by (bit_vector);
    assert(x & 0x80 == y & 0x80 <==> x >> 7u8 == y >> 7u8) by (bit_vector);
    assert(x & 0xc0 == y & 0xc0 <==> x >> 6u8 == y >> 6u8) by (bit_vector);
    assert(x & 0xe0 == y & 0xe0 <==> x >> 5u8 == y >> 5u8) by (bit_vector);
    assert(x & 0xf0 == y & 0xf0 <==> x >> 4u8 == y >> 4u8) by (bit_vector);
    assert(x & 0xf8 == y & 0xf8 <==> x >> 3u8 == y >> 3u8) by (bit_vector);
    assert(x & 0xfc == y & 0xfc <==> x >> 2u8 == y >> 2u8) by (bit_vector);
    assert(x & 0xfe == y & 0xfe <==> x >> 1u8 == y >> 1u8) by (bit_vector);
}

proof fn lemma_masked(a: Seq<u8>, b: Seq<u8>, n: u8)
    requires
        a.len() == b.len(),
        n <= 8 * a.len(),
    ensures
        masked(a, mask_of(n, a.len() as int)) == masked(b, mask_of(n, a.len() as int))
            <==> same_prefix(a, b, n as int),
{
    let k = a.len() as int;
    let (x, y) = (masked(a, mask_of(n, k)), masked(b, mask_of(n, k)));
    assert forall|i: int| 0 <= i < k implies (#[trigger] x[i] == y[i] <==> (8 * (i + 1) <= n
        ==> a[i] == b[i]) && (n % 8 != 0 && n / 8 == i ==> a[i] >> ((8 - n % 8) as u8) == b[i] >> ((
    8 - n % 8) as u8))) by {
        lemma_high_bits(a[i], b[i]);
        assert(x[i] == a[i] & mask_of(n, k)[i]);
        assert(y[i] == b[i] & mask_of(n, k)[i]);
    }
    if x == y {
        assert forall|i: int| 0 <= i < k && 8 * (i + 1) <= n implies #[trigger] a[i] == b[i] by {
            assert(x[i] == y[i]);
        }
        if n % 8 != 0 && n / 8 < k {
            assert(x[(n / 8) as int] == y[(n / 8) as int]);
        }
    }
    if same_prefix(a, b, n as int) {
        assert(x =~= y);
    }
}

/// An address equals a network exactly when it has the network's first bits,
/// and differs from it when it has not.
pub proof fn networks_hold_their_addresses(
    row: Row,
    source: Seq<u8>,
    target: TargetView,
    net: LiteralView,
    n: u8,
    got: Seq<u8>,
    op: CmpOp,
)
    requires
        target.slice is None,
        op is Eq || op is Ne,
        ({
            ||| target.kind is Ipv4 && row.value == ValueView::Ipv4(got) && got.len() == 4 && n
                <= 32 && (net matches LiteralView::Ipv4Cidr(a, k) && k == n && a.len() == 4)
            ||| target.kind is Ipv6 && row.value == ValueView::Ipv6(got) && got.len() == 16 && n
                <= 128 && (net matches LiteralView::Ipv6Cidr(a, k) && k == n && a.len() == 16)
        }),
    ensures
        ({
            let a = match net {
                LiteralView::Ipv4Cidr(a, _) => a,
                LiteralView::Ipv6Cidr(a, _) => a,
                _ => Seq::empty(),
            };
            let value = operand_of(target, net, op);
            &&& value is Ok
            &&& op is Eq ==> (compared(row, source, target, op, value->Ok_0) <==> same_prefix(
                got,
                a,
                n as int,
            ))
            &&& op is Ne ==> (compared(row, source, target, op, value->Ok_0) <==> !same_prefix(
                got,
                a,
                n as int,
            ))
        }),
{
    let a = match net {
        LiteralView::Ipv4Cidr(a, _) => a,
        LiteralView::Ipv6Cidr(a, _) => a,
        _ => Seq::empty(),
    };
    lemma_masked(got, a, n);
}

} // verus!
