//! Which values a field can be compared with, and what they then stand for.

use vstd::prelude::*;
use vstd::utf8::encode_utf8;

use super::ast::{CmpOp, LiteralView};
use super::types::{
    operand_of, ordered, searchable, sliceable, sliced_operand, value_named, OperandView,
    TargetView,
};
use crate::dissect::registry::{named_from, KindView};
use crate::text::lowered;

verus! {

/// Numbers are compared as they are written; a signed field takes any that it
/// can hold, an unsigned one takes none below zero.
pub proof fn numbers_stand_for_themselves(target: TargetView, n: u64, k: i64, op: CmpOp)
    ensures
        target.kind is Unsigned || target.kind is Enum ==> operand_of(
            target,
            LiteralView::Unsigned(n),
            op,
        ) == Ok::<OperandView, Seq<char>>(OperandView::Unsigned(n)),
        target.kind is Unsigned || target.kind is Enum ==> operand_of(
            target,
            LiteralView::Signed(k),
            op,
        ) is Err,
        target.kind is Signed ==> operand_of(target, LiteralView::Signed(k), op) == Ok::<
            OperandView,
            Seq<char>,
        >(OperandView::Signed(k)),
        target.kind is Signed && n <= i64::MAX ==> (operand_of(target, LiteralView::Unsigned(n), op)
            matches Ok(OperandView::Signed(v)) && v == n),
        target.kind is Signed && n > i64::MAX ==> operand_of(target, LiteralView::Unsigned(n), op)
            is Err,
{
}

/// A flag is compared with a truth value, for which one and zero can stand.
pub proof fn flags_take_truth_values(target: TargetView, n: u64, b: bool, op: CmpOp)
    requires
        target.kind is Bool,
    ensures
        operand_of(target, LiteralView::Bool(b), op) == Ok::<OperandView, Seq<char>>(
            OperandView::Bool(b),
        ),
        operand_of(target, LiteralView::Unsigned(1), op) == Ok::<OperandView, Seq<char>>(
            OperandView::Bool(true),
        ),
        operand_of(target, LiteralView::Unsigned(0), op) == Ok::<OperandView, Seq<char>>(
            OperandView::Bool(false),
        ),
        n > 1 ==> operand_of(target, LiteralView::Unsigned(n), op) is Err,
{
}

/// Addresses are compared with addresses of their own family, and hardware
/// addresses with six bytes.
pub proof fn addresses_take_their_own_kind(target: TargetView, a: Seq<u8>, op: CmpOp)
    ensures
        target.kind is Ipv4 ==> operand_of(target, LiteralView::Ipv4(a), op) == Ok::<
            OperandView,
            Seq<char>,
        >(OperandView::Ipv4(a)) && operand_of(target, LiteralView::Ipv6(a), op) is Err,
        target.kind is Ipv6 ==> operand_of(target, LiteralView::Ipv6(a), op) == Ok::<
            OperandView,
            Seq<char>,
        >(OperandView::Ipv6(a)) && operand_of(target, LiteralView::Ipv4(a), op) is Err,
        target.kind is Mac && a.len() == 6 ==> operand_of(target, LiteralView::Bytes(a), op)
            == Ok::<OperandView, Seq<char>>(OperandView::Bytes(a)),
        target.kind is Mac && a.len() != 6 ==> operand_of(target, LiteralView::Bytes(a), op)
            is Err,
{
}

/// Text stands for itself against text, and for its bytes against bytes.
pub proof fn text_stands_for_itself_or_its_bytes(target: TargetView, s: Seq<char>, op: CmpOp)
    ensures
        target.kind is Str ==> operand_of(target, LiteralView::Str(s), op) == Ok::<
            OperandView,
            Seq<char>,
        >(OperandView::Str(s)),
        target.kind is Bytes ==> operand_of(target, LiteralView::Str(s), op) == Ok::<
            OperandView,
            Seq<char>,
        >(OperandView::Bytes(encode_utf8(s))),
        (target.kind is Protocol || target.kind is Group) && op is Contains ==> operand_of(
            target,
            LiteralView::Str(s),
            op,
        ) == Ok::<OperandView, Seq<char>>(OperandView::Bytes(encode_utf8(s))),
        (target.kind is Protocol || target.kind is Group) && !(op is Contains) ==> operand_of(
            target,
            LiteralView::Str(s),
            op,
        ) is Err,
{
}

/// What follows a slice is bytes: bytes as they stand, text as its bytes, a
/// number that fits one byte, or the bytes of an address.
pub proof fn slices_take_bytes(b: Seq<u8>, s: Seq<char>, n: u64)
    ensures
        sliced_operand(LiteralView::Bytes(b)) == Some(b),
        sliced_operand(LiteralView::Ipv4(b)) == Some(b),
        sliced_operand(LiteralView::Ipv6(b)) == Some(b),
        sliced_operand(LiteralView::Str(s)) == Some(encode_utf8(s)),
        n <= 255 ==> sliced_operand(LiteralView::Unsigned(n)) == Some(seq![n as u8]),
        n > 255 ==> sliced_operand(LiteralView::Unsigned(n)) is None,
{
}

/// The name of a value, in any case, stands for a value of that name.
pub proof fn names_stand_for_values(t: Seq<(u64, &'static str)>, name: Seq<char>, i: int)
    requires
        0 <= i <= t.len(),
    ensures
        value_named(t, name, i) matches Some(v) ==> exists|k: int|
            i <= k < t.len() && (#[trigger] t[k]).0 == v && lowered(t[k].1@) == lowered(name),
        value_named(t, name, i) is None ==> forall|k: int|
            i <= k < t.len() ==> lowered((#[trigger] t[k]).1@) != lowered(name),
    decreases t.len() - i,
{
    if i < t.len() {
        names_stand_for_values(t, name, i + 1);
        if lowered(t[i].1@) == lowered(name) {
            assert(t[i].0 == value_named(t, name, i)->0);
        }
    }
}

/// What a value is called stands for that value again, where no other value
/// is called the same.
pub proof fn shown_names_read_back(t: Seq<(u64, &'static str)>, v: u64, i: int, j: int)
    requires
        0 <= i <= j <= t.len(),
        named_from(t, v, j) is Some,
        forall|k: int, l: int|
            i <= k < t.len() && i <= l < t.len() && lowered((#[trigger] t[k]).1@) == lowered(
                (#[trigger] t[l]).1@,
            ) ==> t[k].0 == t[l].0,
    ensures
        value_named(t, named_from(t, v, j)->0, i) == Some(v),
{
    let name = named_from(t, v, j)->0;
    named_is_listed(t, v, j);
    names_stand_for_values(t, name, i);
    let l = choose|l: int| j <= l < t.len() && (#[trigger] t[l]).0 == v && t[l].1@ == name;
    assert(lowered(t[l].1@) == lowered(name));
}

proof fn named_is_listed(t: Seq<(u64, &'static str)>, v: u64, i: int)
    requires
        0 <= i <= t.len(),
        named_from(t, v, i) is Some,
    ensures
        exists|l: int|
            i <= l < t.len() && (#[trigger] t[l]).0 == v && t[l].1@ == named_from(t, v, i)->0,
    decreases t.len() - i,
{
    if i < t.len() && t[i].0 != v {
        named_is_listed(t, v, i + 1);
    } else if i < t.len() {
        assert(t[i].0 == v);
    }
}

/// Numbers, text and bytes have an order; flags, addresses and layers have
/// none, but for a slice, which is bytes. Text, bytes and layers can be
/// searched, and flags and layers have no bytes to slice.
pub proof fn kinds_allow_what_makes_sense(kind: KindView)
    ensures
        ordered(kind, true) && searchable(kind, true),
        ordered(kind, false) <==> kind is Unsigned || kind is Signed || kind is Enum || kind is Str
            || kind is Bytes,
        searchable(kind, false) <==> kind is Str || kind is Bytes || kind is Protocol || kind
            is Group,
        sliceable(kind) <==> !(kind is Bool) && !(kind is Protocol) && !(kind is Group),
        CmpOp::Gt.orders() && CmpOp::Ge.orders() && CmpOp::Lt.orders() && CmpOp::Le.orders(),
        !CmpOp::Eq.orders() && !CmpOp::Ne.orders() && !CmpOp::Contains.orders()
            && !CmpOp::Matches.orders(),
{
}

} // verus!
