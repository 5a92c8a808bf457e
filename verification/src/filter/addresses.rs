//! Numbers and addresses as they are shown are read as what they are.

use vstd::prelude::*;

use super::lex::{hex_bytes_of, ipv4_of, number_of, pairs_from, SpannedView, TokView};
use crate::dissect::node::{hex2, ipv4_text, mac_text};
use crate::numerals::{decimal_reads_back, free_of, lists_come_apart_again};
use crate::text::{all_digits, dec, digit, first_at, joined, number_in, spelled};

verus! {

proof fn decimals_are_digits(n: int)
    requires
        0 <= n,
    ensures
        all_digits(dec(n), 10),
        dec(n).len() > 0,
        n < 10 ==> dec(n).len() == 1,
        10 <= n < 100 ==> dec(n).len() == 2,
        100 <= n < 1000 ==> dec(n).len() == 3,
        n >= 10 ==> dec(n)[0] != '0',
        forall|i: int| 0 <= i < dec(n).len() ==> '0' <= #[trigger] dec(n)[i] <= '9',
    decreases n,
{
    if n >= 10 {
        decimals_are_digits(n / 10);
        let front = dec(n / 10);
        assert forall|i: int| 0 <= i < dec(n).len() implies '0' <= #[trigger] dec(n)[i]
            <= '9' by {
            if i < front.len() {
                assert(dec(n)[i] == front[i]);
            }
        }
        assert(dec(n)[0] == front[0]);
        if n / 10 < 10 {
            assert(front == seq![digit(n / 10)]);
        }
    }
}

proof fn no_such_char(s: Seq<char>, c: char, i: int)
    requires
        free_of(s, c),
        0 <= i <= s.len(),
    ensures
        first_at(s, c, i) is None,
    decreases s.len() - i,
{
    if i < s.len() {
        no_such_char(s, c, i + 1);
    }
}

/// A dotted address is read as that address.
pub proof fn ipv4_addresses_read_back(a: Seq<u8>)
    requires
        a.len() == 4,
    ensures
        ipv4_of(ipv4_text(a)) == Some(TokView::Ipv4(a)),
{
    reveal_strlit(".");
    assert("."@ =~= seq!['.']);
    let list = seq![dec(a[0] as int), dec(a[1] as int), dec(a[2] as int), dec(a[3] as int)];
    let w = ipv4_text(a);
    decimals_are_digits(a[0] as int);
    decimals_are_digits(a[1] as int);
    decimals_are_digits(a[2] as int);
    decimals_are_digits(a[3] as int);
    decimal_reads_back(a[0] as int, 255);
    decimal_reads_back(a[1] as int, 255);
    decimal_reads_back(a[2] as int, 255);
    decimal_reads_back(a[3] as int, 255);
    assert(w == joined(list, seq!['.'])) by {
        reveal_with_fuel(joined, 4);
        assert(list.drop_last() =~= seq![list[0], list[1], list[2]]);
        assert(list.drop_last().drop_last() =~= seq![list[0], list[1]]);
        assert(list.drop_last().drop_last().drop_last() =~= seq![list[0]]);
    }
    assert forall|i: int| 0 <= i < list.len() implies free_of(#[trigger] list[i], '.') by {}
    lists_come_apart_again(list, '.');
    assert(free_of(w, '/'));
    no_such_char(w, '/', 0);
    assert(seq![a[0], a[1], a[2], a[3]] =~= a);
}

proof fn pairs_read_back(b: u8)
    ensures
        hex2(b).len() == 2,
        all_digits(hex2(b), 16),
        spelled(hex2(b), 16, 255) == Some(b as int),
        free_of(hex2(b), ':'),
        free_of(hex2(b), '/'),
{
    reveal_with_fuel(number_in, 3);
    let s = hex2(b);
    assert(s[0] != '+');
    assert(number_in(s, 1, 16) == Some((b / 16) as int));
    assert(number_in(s, 2, 16) == Some(b as int));
}

/// A hardware address is read as its bytes.
pub proof fn hardware_addresses_read_back(a: Seq<u8>)
    requires
        a.len() == 6,
    ensures
        hex_bytes_of(mac_text(a)) == Some(TokView::Bytes(a)),
{
    reveal_strlit(":");
    assert(":"@ =~= seq![':']);
    let list = seq![hex2(a[0]), hex2(a[1]), hex2(a[2]), hex2(a[3]), hex2(a[4]), hex2(a[5])];
    let w = mac_text(a);
    pairs_read_back(a[0]);
    pairs_read_back(a[1]);
    pairs_read_back(a[2]);
    pairs_read_back(a[3]);
    pairs_read_back(a[4]);
    pairs_read_back(a[5]);
    assert(w == joined(list, seq![':'])) by {
        reveal_with_fuel(joined, 6);
        let l = list.drop_last();
        assert(l =~= seq![list[0], list[1], list[2], list[3], list[4]]);
        assert(l.drop_last() =~= seq![list[0], list[1], list[2], list[3]]);
        assert(l.drop_last().drop_last() =~= seq![list[0], list[1], list[2]]);
        assert(l.drop_last().drop_last().drop_last() =~= seq![list[0], list[1]]);
        assert(l.drop_last().drop_last().drop_last().drop_last() =~= seq![list[0]]);
    }
    lists_come_apart_again(list, ':');
    assert(free_of(w, '/'));
    no_such_char(w, '/', 0);
    assert(w[2] == ':');
    assert(first_at(w, ':', 0) is Some) by {
        reveal_with_fuel(first_at, 4);
    }
    reveal_with_fuel(pairs_from, 7);
    assert(pairs_from(list, 0) == Some(a)) by {
        assert(pairs_from(list, 6) == Some(Seq::<u8>::empty()));
        assert(pairs_from(list, 5)->0 =~= seq![a[5]]);
        assert(pairs_from(list, 4)->0 =~= seq![a[4], a[5]]);
        assert(pairs_from(list, 3)->0 =~= seq![a[3], a[4], a[5]]);
        assert(pairs_from(list, 2)->0 =~= seq![a[2], a[3], a[4], a[5]]);
        assert(pairs_from(list, 1)->0 =~= seq![a[1], a[2], a[3], a[4], a[5]]);
        assert(pairs_from(list, 0)->0 =~= a);
    }
}

/// A number in decimal is read as that number.
pub proof fn numbers_read_back(n: u64, start: int, end: int, prev: Seq<SpannedView>)
    ensures
        number_of(dec(n as int), start, end, prev) == Ok::<Option<TokView>, super::lex::ErrorView>(
            Some(TokView::Number(n)),
        ),
{
    let w = dec(n as int);
    decimals_are_digits(n as int);
    decimal_reads_back(n as int, u64::MAX as int);
    assert(w[0] >= '0');
    if w.len() >= 2 {
        assert('0' <= w[1] <= '9');
    }
}

} // verus!
