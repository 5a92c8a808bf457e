//! What is said of checksums that nobody asked to verify.

use vstd::prelude::*;

use crate::dissect::ctx::Model;
use crate::dissect::node::ValueView;
use crate::dissect::proto::icmp::status_of;
use crate::dissect::proto::{
    checked, icmpv6, ipv4, tcp, udp, CK_BAD, CK_GOOD, CK_NOT_PRESENT, CK_UNVERIFIED,
};

verus! {

/// Neither good nor bad.
pub open spec fn no_verdict(status: u64) -> bool {
    status == CK_UNVERIFIED || status == CK_NOT_PRESENT
}

/// With validation off no header checksum is called good or bad.
pub proof fn unvalidated_headers_have_no_verdict(d: Seq<u8>, m: Model, ihl: int)
    requires
        !m.options.validate_ip_checksums,
    ensures
        no_verdict(ipv4::status_of(d, m, ihl)),
        no_verdict(status_of(d, m)),
{
}

/// With validation off no transport checksum is called good or bad.
pub proof fn unvalidated_transports_have_no_verdict(d: Seq<u8>, m: Model)
    requires
        !m.options.validate_transport_checksums,
    ensures
        no_verdict(tcp::status_of(d, m)),
        no_verdict(udp::status_of(d, m)),
        no_verdict(icmpv6::status_of(d, m)),
{
}

/// A checksum without a verdict is one row that says so, and no finding.
pub proof fn no_verdict_is_no_finding(
    m: Model,
    abbrev: Seq<char>,
    start: int,
    end: int,
    status: u64,
)
    requires
        no_verdict(status),
    ensures
        status != CK_BAD && status != CK_GOOD,
        checked(m, abbrev, start, end, status) == m.leaf(
            abbrev,
            start,
            end,
            ValueView::Unsigned(status),
        ),
{
}

} // verus!
