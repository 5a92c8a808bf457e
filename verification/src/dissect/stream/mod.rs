//! Conversation tracking by 5-tuple.
//!
//! A *stream* is one bidirectional conversation: the same TCP connection or
//! the same UDP flow seen in both directions. Frames carry a stream id so the
//! filter language can select a conversation (`tcp.stream == 3`) and so
//! following a stream knows what to gather.
//!
//! Ids are assigned in the order conversations are first seen and never
//! reused within a capture.

use vstd::prelude::*;

use crate::dissect::ctx::{AddrsView, NetAddrs};
use crate::dissect::node::{fmt_ipv4, fmt_ipv6, ipv4_text, ipv6_text};

pub mod desegment;
pub mod rules;
pub mod table;
pub mod tcp;

pub use desegment::{Desegment, Origin};
pub use table::{Direction, Lookup, StreamKey, StreamTable};

verus! {

/// One end of a conversation.
#[derive(Debug, Clone, Copy, PartialEq, Eq, PartialOrd, Ord, Hash)]
pub struct Endpoint {
    /// IPv4 addresses are held in the first four bytes with the rest zero, so
    /// one representation orders both families.
    pub addr: [u8; 16],
    pub v6: bool,
    pub port: u16,
}

/// What an endpoint stands for.
pub struct EndView {
    pub addr: Seq<u8>,
    pub v6: bool,
    pub port: u16,
}

impl View for Endpoint {
    type V = EndView;

    open spec fn view(&self) -> EndView {
        EndView { addr: self.addr@, v6: self.v6, port: self.port }
    }
}

impl EndView {
    /// Address first, then family, then port.
    pub open spec fn before(self, other: EndView) -> bool {
        if self.addr != other.addr {
            bytes_before(self.addr, other.addr, 0)
        } else if self.v6 != other.v6 {
            !self.v6
        } else {
            self.port < other.port
        }
    }
}

/// `a` comes before `b` byte by byte, looking from byte `i` on.
pub open spec fn bytes_before(a: Seq<u8>, b: Seq<u8>, i: int) -> bool
    decreases 16 - i,
{
    if i < 0 || i >= 16 {
        false
    } else if a[i] != b[i] {
        a[i] < b[i]
    } else {
        bytes_before(a, b, i + 1)
    }
}

proof fn lemma_before(a: Seq<u8>, b: Seq<u8>, i: int)
    requires
        a.len() == 16,
        b.len() == 16,
        0 <= i <= 16,
    ensures
        !(bytes_before(a, b, i) && bytes_before(b, a, i)),
        !bytes_before(a, b, i) && !bytes_before(b, a, i) ==> a.skip(i) == b.skip(i),
    decreases 16 - i,
{
    if i < 16 {
        lemma_before(a, b, i + 1);
        if a[i] == b[i] && a.skip(i + 1) == b.skip(i + 1) {
            assert forall|k: int| 0 <= k < a.skip(i).len() implies a.skip(i)[k] == b.skip(i)[k] by {
                if k > 0 {
                    assert(a.skip(i)[k] == a.skip(i + 1)[k - 1]);
                    assert(b.skip(i)[k] == b.skip(i + 1)[k - 1]);
                }
            }
            assert(a.skip(i) =~= b.skip(i));
        }
    } else {
        assert(a.skip(i) =~= b.skip(i));
    }
}

/// The address bytes an IPv4 endpoint holds.
pub open spec fn v4_padded(a: Seq<u8>) -> Seq<u8> {
    a + Seq::new(12, |i: int| 0u8)
}

impl Endpoint {
    pub fn v4(addr: [u8; 4], port: u16) -> (r: Endpoint)
        ensures
            r.addr@ == v4_padded(addr@),
            !r.v6,
            r.port == port,
    {
        let a: [u8; 16] = [
            addr[0], addr[1], addr[2], addr[3], 0, 0, 0, 0, 0, 0, 0, 0, 0, 0, 0, 0,
        ];
        assert(a@ =~= v4_padded(addr@));
        Endpoint { addr: a, v6: false, port }
    }

    pub fn v6(addr: [u8; 16], port: u16) -> (r: Endpoint)
        ensures
            r.addr@ == addr@,
            r.v6,
            r.port == port,
    {
        Endpoint { addr, v6: true, port }
    }

    /// The address as it should be rendered.
    pub fn text(&self) -> (r: String)
        ensures
            r@ == if self.v6 {
                ipv6_text(self.addr@)
            } else {
                ipv4_text(self.addr@.take(4))
            },
    {
        if self.v6 {
            fmt_ipv6(self.addr)
        } else {
            let a: [u8; 4] = [self.addr[0], self.addr[1], self.addr[2], self.addr[3]];
            assert(a@ =~= self.addr@.take(4));
            fmt_ipv4(a)
        }
    }

    /// Whether this endpoint comes strictly before `other`.
    pub fn is_before(&self, other: &Endpoint) -> (r: bool)
        ensures
            r == self@.before(other@),
    {
        let mut i: usize = 0;
        while i < 16
            invariant
                i <= 16,
                forall|k: int| 0 <= k < i ==> self.addr@[k] == other.addr@[k],
                bytes_before(self.addr@, other.addr@, 0) == bytes_before(
                    self.addr@,
                    other.addr@,
                    i as int,
                ),
            decreases 16 - i,
        {
            if self.addr[i] != other.addr[i] {
                assert(self.addr@ != other.addr@);
                return self.addr[i] < other.addr[i];
            }
            i += 1;
        }
        assert(self.addr@ =~= other.addr@);
        if self.v6 != other.v6 {
            !self.v6
        } else {
            self.port < other.port
        }
    }

    /// Whether the two are the same endpoint.
    pub fn is_same(&self, other: &Endpoint) -> (r: bool)
        ensures
            r == (self@ == other@),
    {
        proof {
            lemma_before(self.addr@, other.addr@, 0);
            assert(self.addr@.skip(0) =~= self.addr@);
            assert(other.addr@.skip(0) =~= other.addr@);
        }
        !self.is_before(other) && !other.is_before(self)
    }
}

/// Of two different endpoints exactly one comes before the other.
pub proof fn endpoints_are_ordered(a: EndView, b: EndView)
    requires
        a.addr.len() == 16,
        b.addr.len() == 16,
    ensures
        a == b <==> !a.before(b) && !b.before(a),
        !(a.before(b) && b.before(a)),
{
    lemma_before(a.addr, b.addr, 0);
    assert(a.addr.skip(0) =~= a.addr);
    assert(b.addr.skip(0) =~= b.addr);
}

/// The endpoints of a frame's transport layer, in wire order.
pub open spec fn endpoints_of(addrs: AddrsView, sport: u16, dport: u16) -> (EndView, EndView) {
    match addrs {
        AddrsView::V4(s, d) => (
            EndView { addr: v4_padded(s), v6: false, port: sport },
            EndView { addr: v4_padded(d), v6: false, port: dport },
        ),
        AddrsView::V6(s, d) => (
            EndView { addr: s, v6: true, port: sport },
            EndView { addr: d, v6: true, port: dport },
        ),
    }
}

/// The two endpoints of a frame's transport layer, in wire order.
pub fn endpoints(addrs: NetAddrs, sport: u16, dport: u16) -> (r: (Endpoint, Endpoint))
    ensures
        (r.0@, r.1@) == endpoints_of(addrs@, sport, dport),
{
    match addrs {
        NetAddrs::V4(s, d) => (Endpoint::v4(s, sport), Endpoint::v4(d, dport)),
        NetAddrs::V6(s, d) => (Endpoint::v6(s, sport), Endpoint::v6(d, dport)),
    }
}

} // verus!
