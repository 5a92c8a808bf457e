//! ICMPv6.

use vstd::prelude::*;

use super::names::{control6_names, unasked};
use super::transport::checked_stays;
use super::{keeping_inside, nothing_written, ready, space, within};
use crate::dissect::ctx::Model;
use crate::dissect::proto::checked;
use crate::dissect::proto::icmpv6::{
    body, layer, least_len, option, option_body, options, rest_as_data,
};
use crate::dissect::reporting::verdicts::no_verdict;

verus! {

proof fn option_body_stays(
    m0: Model,
    d: Seq<u8>,
    i: int,
    at: int,
    ty: u8,
    len: u8,
    m: Model,
    n: int,
)
    requires
        within(m0, m, n),
        0 <= i,
        0 < len,
        i + len * 8 - 2 <= d.len(),
        0 <= at,
        at + d.len() <= space(m0, n),
    ensures
        within(m0, option_body(d, i, at, ty, len, m).0, n),
        option_body(d, i, at, ty, len, m).0.count() >= m.count(),
{
    broadcast use keeping_inside;

    control6_names();
}

proof fn option_stays(m0: Model, d: Seq<u8>, i: int, at: int, m: Model, n: int)
    requires
        within(m0, m, n),
        0 <= i < d.len(),
        0 <= at,
        at + d.len() <= space(m0, n),
    ensures
        within(m0, option(d, i, at, m).0, n),
        option(d, i, at, m).0.count() >= m.count(),
        i < option(d, i, at, m).1 <= d.len(),
{
    broadcast use keeping_inside;

    control6_names();
    assert forall|ty: u8, len: u8, x: Model|
        within(m0, x, n) && 0 < len && i + len * 8 <= d.len() implies #[trigger] within(
        m0,
        option_body(d, i + 2, at, ty, len, x).0,
        n,
    ) && option_body(d, i + 2, at, ty, len, x).0.count() >= x.count() by {
        option_body_stays(m0, d, i + 2, at, ty, len, x, n);
    }
}

proof fn options_stay(m0: Model, d: Seq<u8>, i: int, at: int, m: Model, n: int)
    requires
        within(m0, m, n),
        0 <= at,
        at + d.len() <= space(m0, n),
    ensures
        within(m0, options(d, i, at, m), n),
    decreases d.len() - i,
{
    control6_names();
    if 0 <= i < d.len() {
        option_stays(m0, d, i, at, m, n);
        let (next, j, e) = option(d, i, at, m);
        if e is None && i < j <= d.len() {
            options_stay(m0, d, j, at, next, n);
        } else {
            broadcast use keeping_inside;

        }
    }
}

proof fn rest_stays(m0: Model, d: Seq<u8>, i: int, at: int, m: Model, n: int)
    requires
        within(m0, m, n),
        0 <= i,
        0 <= at,
        at + d.len() <= space(m0, n),
    ensures
        within(m0, rest_as_data(d, i, at, m), n),
{
    broadcast use keeping_inside;

    control6_names();
}

proof fn body_stays(m0: Model, d: Seq<u8>, a: int, kind: Seq<char>, m: Model, n: int)
    requires
        within(m0, m, n),
        0 <= a,
        a + d.len() <= space(m0, n),
        least_len(d[0]) <= d.len(),
    ensures
        within(m0, body(d, a, kind, m), n),
{
    broadcast use keeping_inside;

    control6_names();
    assert forall|i: int, x: Model| within(m0, x, n) implies #[trigger] within(
        m0,
        options(d, i, a, x),
        n,
    ) by {
        options_stay(m0, d, i, a, x, n);
    }
    assert forall|i: int, x: Model| within(m0, x, n) && 0 <= i implies #[trigger] within(
        m0,
        rest_as_data(d, i, a, x),
        n,
    ) by {
        rest_stays(m0, d, i, a, x, n);
    }
}

pub proof fn stays_inside(d: Seq<u8>, m: Model, n: int)
    requires
        ready(d, m, n),
    ensures
        within(m, layer(d, m).0, n),
{
    broadcast use keeping_inside;

    control6_names();
    nothing_written(m, n);
    let a = m.base;
    assert forall|x: Model, status: u64|
        within(m, x, n) && (unasked(m.options) ==> no_verdict(status)) && d.len() >= 4
            implies #[trigger] within(
        m,
        checked(x, "icmpv6.checksum.status"@, a + 2, a + 4, status),
        n,
    ) by {
        checked_stays(m, x, n, "icmpv6.checksum.status"@, a + 2, a + 4, status);
    }
    assert forall|kind: Seq<char>, x: Model|
        within(m, x, n) && least_len(d[0]) <= d.len() implies #[trigger] within(
        m,
        body(d, a, kind, x),
        n,
    ) by {
        body_stays(m, d, a, kind, x, n);
    }
}

} // verus!
