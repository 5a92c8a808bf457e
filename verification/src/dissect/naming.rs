//! How values are shown, and which name is meant by a mistyped one.

use vstd::prelude::*;

use super::node::hex2;
use super::registry::{
    distance, edit_budget, edits, hex_digits, hex_shown, named_from, unsigned_text, Base,
};
use crate::text::{dec, hex_pad};

verus! {

/// A value is called by the first name that its table has for it.
pub proof fn values_have_the_first_name_listed(t: Seq<(u64, &'static str)>, v: u64, i: int, k: int)
    requires
        0 <= i <= k < t.len(),
        t[k].0 == v,
        forall|j: int| i <= j < k ==> (#[trigger] t[j]).0 != v,
    ensures
        named_from(t, v, i) == Some(t[k].1@),
    decreases k - i,
{
    if i < k {
        values_have_the_first_name_listed(t, v, i + 1, k);
    }
}

/// A number is shown in decimal, in hexadecimal with two digits to the byte,
/// or in both; one with a name is shown in decimal.
pub proof fn numbers_are_shown_in_their_base(v: u64, width: int)
    requires
        1 <= width <= 8,
    ensures
        unsigned_text(v, Base::Dec, width) == dec(v as int),
        unsigned_text(v, Base::Name, width) == dec(v as int),
        unsigned_text(v, Base::Hex, width) == "0x"@ + hex_pad(v as int, 2 * width),
        unsigned_text(v, Base::HexDec, width) == "0x"@ + hex_pad(v as int, 2 * width) + " ("@
            + dec(v as int) + ")"@,
{
}

/// Bytes are shown as two digits each, in their order.
pub proof fn bytes_are_shown_in_order(b: Seq<u8>, i: int)
    requires
        0 <= i < b.len(),
    ensures
        hex_digits(b).len() == 2 * b.len(),
        hex_digits(b)[2 * i] == hex2(b[i])[0],
        hex_digits(b)[2 * i + 1] == hex2(b[i])[1],
    decreases b.len(),
{
    let front = b.drop_last();
    if front.len() > 0 {
        if i < front.len() {
            bytes_are_shown_in_order(front, i);
        } else {
            bytes_are_shown_in_order(front, 0);
        }
    } else {
        assert(hex_digits(front).len() == 0);
    }
}

/// No more than 48 bytes of a value are shown, and more are hinted at.
pub proof fn long_values_are_cut(b: Seq<u8>)
    ensures
        b.len() <= 48 ==> hex_shown(b) == hex_digits(b),
        b.len() > 48 ==> hex_shown(b) == hex_digits(b.take(48)).push('\u{2026}'),
{
}

// ---- suggestions ----------------------------------------------------------------

proof fn distances_are_even_handed(a: Seq<u8>, b: Seq<u8>, i: int, j: int)
    requires
        0 <= i <= a.len(),
        0 <= j <= b.len(),
    ensures
        distance(a, b, i, j) == distance(b, a, j, i),
        distance(a, b, i, j) >= 0,
        distance(a, b, i, j) >= i - j,
        distance(a, b, i, j) >= j - i,
    decreases i, j,
{
    if i > 0 && j > 0 {
        distances_are_even_handed(a, b, i - 1, j - 1);
        distances_are_even_handed(a, b, i - 1, j);
        distances_are_even_handed(a, b, i, j - 1);
    }
}

proof fn same_is_near(a: Seq<u8>, i: int)
    requires
        0 <= i <= a.len(),
    ensures
        distance(a, a, i, i) == 0,
    decreases i,
{
    if i > 0 {
        same_is_near(a, i - 1);
        distances_are_even_handed(a, a, i - 1, i);
        distances_are_even_handed(a, a, i, i - 1);
    }
}

/// Names are as far apart as the fewest edits that lead from one to the other:
/// none for the same name, as many one way as the other, and at least one for
/// each letter that one has more.
pub proof fn distances_count_edits(a: Seq<u8>, b: Seq<u8>)
    ensures
        edits(a, a) == 0,
        edits(a, b) == edits(b, a),
        edits(a, b) >= a.len() - b.len(),
        edits(a, b) >= b.len() - a.len(),
        edits(a, b) <= a.len() + b.len(),
{
    same_is_near(a, a.len() as int);
    distances_are_even_handed(a, b, a.len() as int, b.len() as int);
    distances_are_bounded(a, b, a.len() as int, b.len() as int);
}

proof fn distances_are_bounded(a: Seq<u8>, b: Seq<u8>, i: int, j: int)
    requires
        0 <= i <= a.len(),
        0 <= j <= b.len(),
    ensures
        distance(a, b, i, j) <= i + j,
    decreases i, j,
{
    if i > 0 && j > 0 {
        distances_are_bounded(a, b, i - 1, j - 1);
        distances_are_bounded(a, b, i - 1, j);
        distances_are_bounded(a, b, i, j - 1);
    }
}

/// One letter more at the end is one edit, and so is another letter there.
pub proof fn one_letter_is_one_edit(a: Seq<u8>, x: u8, y: u8)
    ensures
        edits(a, a.push(x)) == 1,
        x != y ==> edits(a.push(x), a.push(y)) == 1,
{
    let n = a.len() as int;
    let b = a.push(x);
    let c = a.push(y);
    same_is_near(a, n);
    shared_front(a, b, n);
    shared_front(b, c, n);
    distances_are_even_handed(a, b, n, n + 1);
    distances_are_even_handed(b, c, n + 1, n);
    distances_are_even_handed(b, c, n, n + 1);
    if n > 0 {
        distances_are_even_handed(a, b, n - 1, n);
        distances_are_even_handed(a, b, n - 1, n + 1);
    }
    assert(distance(a, b, n, n) == 0);
}

proof fn shared_front(a: Seq<u8>, b: Seq<u8>, i: int)
    requires
        0 <= i <= a.len(),
        i <= b.len(),
        forall|k: int| 0 <= k < i ==> a[k] == b[k],
    ensures
        distance(a, b, i, i) == 0,
    decreases i,
{
    if i > 0 {
        shared_front(a, b, i - 1);
        distances_are_even_handed(a, b, i - 1, i);
        distances_are_even_handed(a, b, i, i - 1);
    }
}

/// A suggestion is at most a third of the name away: one edit at least, and
/// four at most.
pub proof fn suggestions_are_near(name: Seq<char>)
    ensures
        1 <= edit_budget(name) <= 4,
        3 <= vstd::utf8::encode_utf8(name).len() <= 14 ==> edit_budget(name)
            == vstd::utf8::encode_utf8(name).len() / 3,
{
}

} // verus!
