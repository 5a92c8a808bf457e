//! Numbers and lists read back as they were written.

use vstd::prelude::*;

use crate::text::{
    dec, digit, digit_value, first_at, hex, joined, number_in, parts, signed, spelled,
    unsigned_digits,
};

verus! {

proof fn digits_are_digits(n: int)
    requires
        0 <= n < 16,
    ensures
        digit_value(digit(n)) == Some(n),
        digit(n) != '+',
{
}

proof fn same_start(a: Seq<char>, b: Seq<char>, n: int, radix: int)
    requires
        0 <= n <= a.len(),
        n <= b.len(),
        forall|i: int| 0 <= i < n ==> a[i] == b[i],
    ensures
        number_in(a, n, radix) == number_in(b, n, radix),
    decreases n,
{
    if n > 0 {
        same_start(a, b, n - 1, radix);
    }
}

proof fn decimal_digits(n: int)
    requires
        0 <= n,
    ensures
        dec(n).len() > 0,
        dec(n)[0] != '+',
        number_in(dec(n), dec(n).len() as int, 10) == Some(n),
    decreases n,
{
    if n < 10 {
        digits_are_digits(n);
        reveal_with_fuel(number_in, 2);
    } else {
        decimal_digits(n / 10);
        digits_are_digits(n % 10);
        let front = dec(n / 10);
        same_start(dec(n), front, front.len() as int, 10);
        assert(dec(n)[0] == front[0]);
    }
}

proof fn hexadecimal_digits(n: int)
    requires
        0 <= n,
    ensures
        hex(n).len() > 0,
        hex(n)[0] != '+',
        number_in(hex(n), hex(n).len() as int, 16) == Some(n),
    decreases n,
{
    if n < 16 {
        digits_are_digits(n);
        reveal_with_fuel(number_in, 2);
    } else {
        hexadecimal_digits(n / 16);
        digits_are_digits(n % 16);
        let front = hex(n / 16);
        same_start(hex(n), front, front.len() as int, 16);
        assert(hex(n)[0] == front[0]);
    }
}

/// A number in decimal spells that number.
pub proof fn decimal_reads_back(n: int, max: int)
    requires
        0 <= n,
    ensures
        spelled(dec(n), 10, max) == if n <= max {
            Some(n)
        } else {
            None
        },
{
    decimal_digits(n);
    assert(unsigned_digits(dec(n)) == dec(n));
}

/// A number in hexadecimal spells that number.
pub proof fn hexadecimal_reads_back(n: int, max: int)
    requires
        0 <= n,
    ensures
        spelled(hex(n), 16, max) == if n <= max {
            Some(n)
        } else {
            None
        },
{
    hexadecimal_digits(n);
    assert(unsigned_digits(hex(n)) == hex(n));
}

/// A number below zero is written with a minus in front of its amount, any
/// other as it is.
pub proof fn signs_stand_in_front(n: int)
    ensures
        n < 0 ==> signed(n)[0] == '-' && signed(n).skip(1) == dec(-n),
        n >= 0 ==> signed(n) == dec(n),
{
    if n < 0 {
        assert(signed(n).skip(1) =~= dec(-n));
    }
}

/// The text holds no `c`.
pub open spec fn free_of(s: Seq<char>, c: char) -> bool {
    forall|i: int| 0 <= i < s.len() ==> s[i] != c
}

proof fn first_behind(a: Seq<char>, b: Seq<char>, c: char, i: int)
    requires
        free_of(a, c),
        0 <= i <= a.len(),
    ensures
        first_at(a + seq![c] + b, c, i) == Some(a.len() as int),
        first_at(a, c, i) is None,
    decreases a.len() - i,
{
    let s = a + seq![c] + b;
    if i < a.len() {
        assert(s[i] == a[i]);
        first_behind(a, b, c, i + 1);
    } else {
        assert(s[i] == c);
    }
}

proof fn parts_of_two(a: Seq<char>, b: Seq<char>, c: char)
    requires
        free_of(a, c),
    ensures
        parts(a + seq![c] + b, c) == seq![a] + parts(b, c),
{
    let s = a + seq![c] + b;
    first_behind(a, b, c, 0);
    assert(s.take(a.len() as int) =~= a);
    assert(s.skip(a.len() as int + 1) =~= b);
}

proof fn joined_front(list: Seq<Seq<char>>, c: char)
    requires
        list.len() > 1,
    ensures
        joined(list, seq![c]) == list[0] + seq![c] + joined(list.skip(1), seq![c]),
    decreases list.len(),
{
    let sep = seq![c];
    if list.len() == 2 {
        assert(list.drop_last() =~= seq![list[0]]);
        assert(list.skip(1) =~= seq![list[1]]);
        assert(joined(list.drop_last(), sep) == list[0]);
    } else {
        let front = list.drop_last();
        joined_front(front, c);
        assert(front.skip(1) =~= list.skip(1).drop_last());
        assert(list.skip(1).last() == list.last());
        let rest = joined(front.skip(1), sep);
        assert(joined(list.skip(1), sep) == rest + sep + list.last());
        assert(list[0] + sep + rest + sep + list.last() =~= list[0] + sep + (rest + sep
            + list.last()));
    }
}

/// A list that was joined with a separator comes apart into its items, as
/// long as none of them holds the separator.
pub proof fn lists_come_apart_again(list: Seq<Seq<char>>, c: char)
    requires
        list.len() > 0,
        forall|i: int| 0 <= i < list.len() ==> free_of(#[trigger] list[i], c),
    ensures
        parts(joined(list, seq![c]), c) == list,
    decreases list.len(),
{
    if list.len() == 1 {
        first_behind(list[0], Seq::empty(), c, 0);
        assert(seq![list[0]] =~= list);
    } else {
        let rest = list.skip(1);
        joined_front(list, c);
        assert forall|i: int| 0 <= i < rest.len() implies free_of(#[trigger] rest[i], c) by {
            assert(rest[i] == list[i + 1]);
        }
        lists_come_apart_again(rest, c);
        parts_of_two(list[0], joined(rest, seq![c]), c);
        assert(seq![list[0]] + rest =~= list);
    }
}

} // verus!
