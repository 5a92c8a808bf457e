//! Per-frame dissection context. Dissectors are functions of their input
//! slice plus this context; the context owns the tree being built and carries
//! what crosses layer boundaries: the summary columns, the protocol chain, the
//! next-layer handoff, extra data sources (reassembly) and the per-worker
//! state carried between frames.

use std::ops::Range;

use vstd::prelude::*;

use super::cursor::SourceId;
use super::expert::{Expert, ExpertView, Group, Severity};
use super::node::{furthest, NodeId, Trace, Tree, TreeBuilder, Value, ValueView};
use super::reassembly::{added, machine_sized, FragKey, FragKeyView, FragResult, FragResultView};
use super::state::{State, StateView};
use super::stream::desegment::{kept, prefix_for, without, Origin, Prefix};
use super::stream::table::{
    analysed, analysis_findings, looked_up, KeyView, Lookup, LookupView,
};
use super::stream::tcp::{Findings, Segment};
use super::stream::{Direction, EndView, Endpoint};
use super::{Addr, AddrView, Summary, SummaryView};
use crate::capture::{LinkType, Timestamp};
use crate::text;

verus! {

/// Every dissector the driver knows how to call.
#[derive(Debug, Clone, Copy, PartialEq, Eq, Hash, Structural)]
pub enum Proto {
    Ethernet,
    Null,
    Vlan,
    Llc,
    Arp,
    Ipv4,
    Ipv6,
    Icmp,
    Icmpv6,
    Udp,
    Tcp,
    Dns,
    Dhcp,
    Http,
    Tls,
    Data,
}

impl Proto {
    /// The name of a protocol.
    pub open spec fn called(self) -> Seq<char> {
        match self {
            Proto::Ethernet => "eth"@,
            Proto::Null => "null"@,
            Proto::Vlan => "vlan"@,
            Proto::Llc => "llc"@,
            Proto::Arp => "arp"@,
            Proto::Ipv4 => "ip"@,
            Proto::Ipv6 => "ipv6"@,
            Proto::Icmp => "icmp"@,
            Proto::Icmpv6 => "icmpv6"@,
            Proto::Udp => "udp"@,
            Proto::Tcp => "tcp"@,
            Proto::Dns => "dns"@,
            Proto::Dhcp => "dhcp"@,
            Proto::Http => "http"@,
            Proto::Tls => "tls"@,
            Proto::Data => "data"@,
        }
    }

    /// Name used in `[Malformed Packet: X]` and `frame.protocols`.
    pub fn name(self) -> (r: &'static str)
        ensures
            r@ == self.called(),
    {
        match self {
            Proto::Ethernet => "eth",
            Proto::Null => "null",
            Proto::Vlan => "vlan",
            Proto::Llc => "llc",
            Proto::Arp => "arp",
            Proto::Ipv4 => "ip",
            Proto::Ipv6 => "ipv6",
            Proto::Icmp => "icmp",
            Proto::Icmpv6 => "icmpv6",
            Proto::Udp => "udp",
            Proto::Tcp => "tcp",
            Proto::Dns => "dns",
            Proto::Dhcp => "dhcp",
            Proto::Http => "http",
            Proto::Tls => "tls",
            Proto::Data => "data",
        }
    }
}

/// Network-layer addresses, needed for transport pseudo-header checksums.
#[derive(Debug, Clone, Copy, PartialEq, Eq)]
pub enum NetAddrs {
    V4([u8; 4], [u8; 4]),
    V6([u8; 16], [u8; 16]),
}

/// The bytes of a pair of network-layer addresses, source first.
#[verifier::ext_equal]
pub enum AddrsView {
    V4(Seq<u8>, Seq<u8>),
    V6(Seq<u8>, Seq<u8>),
}

impl View for NetAddrs {
    type V = AddrsView;

    open spec fn view(&self) -> AddrsView {
        match *self {
            NetAddrs::V4(s, d) => AddrsView::V4(s@, d@),
            NetAddrs::V6(s, d) => AddrsView::V6(s@, d@),
        }
    }
}

/// Where the next layer starts.
#[derive(Debug, Clone, Copy, PartialEq, Eq)]
pub struct Handoff {
    pub proto: Proto,
    pub source: SourceId,
    /// Absolute offset within `source`.
    pub offset: usize,
    /// Number of bytes to expose, when the current layer knows its payload
    /// length (IP total length clips Ethernet padding).
    pub len: Option<usize>,
}

/// Dissection settings. These change what a dissector *reports*, never what
/// it parses, so a frame dissected under either setting has the same shape.
///
/// The default is to verify, because a caller that has not thought about
/// checksum offload is better served by being told a packet looks wrong than
/// by silence.
#[derive(Debug, Clone, Copy, PartialEq, Eq, Structural)]
pub struct Options {
    /// Verify the IPv4 header checksum and the ICMPv4 checksum. Both are
    /// computed in software, so they are rarely wrong for a benign reason.
    pub validate_ip_checksums: bool,
    /// Verify the TCP, UDP and ICMPv6 checksums. These cover a pseudo-header
    /// and are the ones NICs offload.
    pub validate_transport_checksums: bool,
}

impl Default for Options {
    fn default() -> (r: Options)
        ensures
            r.validate_ip_checksums && r.validate_transport_checksums,
    {
        Options { validate_ip_checksums: true, validate_transport_checksums: true }
    }
}

impl Options {
    /// Nothing verified: every checksum status reports `Unverified`.
    pub fn no_checksums() -> (r: Options)
        ensures
            !r.validate_ip_checksums && !r.validate_transport_checksums,
    {
        Options { validate_ip_checksums: false, validate_transport_checksums: false }
    }
}

/// The longest protocol chain that is recorded.
pub const MAX_PROTOCOLS: usize = 12;

/// What a malformed layer is reported as.
pub const MALFORMED: &'static str = "Malformed packet: this layer could not be parsed";

/// The context of one frame.
pub struct Ctx {
    /// Settings in force for this frame.
    options: Options,
    link_type: LinkType,
    frame_number: u32,
    ts: Timestamp,
    /// Per-worker state carried across frames.
    state: State,
    /// Conversation this frame belongs to, once the transport layer has
    /// looked it up. A sub-dissector needs it to hold bytes for the rest of
    /// its message.
    stream: Option<(u32, Direction)>,
    /// Where the bytes the current sub-dissector is looking at came from.
    origin: Option<Origin>,
    /// Set when a sub-dissector kept bytes for later: this frame ends in the
    /// middle of a message.
    held_bytes: bool,
    summary: Summary,
    /// The tree being built, in depth-first order.
    tree: TreeBuilder,
    /// Protocol chain, e.g. `["eth", "ip", "tcp"]`.
    protocols: Vec<&'static str>,
    /// Addresses of the innermost network layer seen so far.
    net_addrs: Option<NetAddrs>,
    /// Extra data sources created during this frame (index 1..).
    extra_sources: Vec<Vec<u8>>,
    /// Data source of the slice the current dissector is looking at.
    source: SourceId,
    /// Absolute offset of that slice within its source.
    base: usize,
    next: Option<Handoff>,
    /// Nesting depth of encapsulated dissection (ICMP error payloads).
    nesting: u8,
}

/// The names in a protocol chain.
pub open spec fn names(v: Seq<&'static str>) -> Seq<Seq<char>> {
    v.map_values(|s: &'static str| s@)
}

/// The bytes of several buffers.
pub open spec fn buffers(v: Seq<Vec<u8>>) -> Seq<Seq<u8>> {
    v.map_values(|b: Vec<u8>| b@)
}

/// What a context stands for: a frame as far as it has been dissected.
#[verifier::ext_equal]
pub struct Model {
    pub options: Options,
    pub link_type: LinkType,
    pub frame_number: u32,
    pub ts: Timestamp,
    pub state: StateView,
    pub stream: Option<(u32, Direction)>,
    pub origin: Option<Origin>,
    pub held_bytes: bool,
    pub summary: SummaryView,
    pub trace: Trace,
    pub protocols: Seq<Seq<char>>,
    pub addrs: Option<AddrsView>,
    pub extra: Seq<Seq<u8>>,
    pub source: SourceId,
    pub base: int,
    pub next: Option<Handoff>,
    pub nesting: u8,
}

impl View for Ctx {
    type V = Model;

    closed spec fn view(&self) -> Model {
        Model {
            options: self.options,
            link_type: self.link_type,
            frame_number: self.frame_number,
            ts: self.ts,
            state: self.state@,
            stream: self.stream,
            origin: self.origin,
            held_bytes: self.held_bytes,
            summary: self.summary@,
            trace: self.tree@,
            protocols: names(self.protocols@),
            addrs: match self.net_addrs {
                Some(a) => Some(a@),
                None => None,
            },
            extra: buffers(self.extra_sources@),
            source: self.source,
            base: self.base as int,
            next: self.next,
            nesting: self.nesting,
        }
    }
}

/// A frame of which nothing has been dissected.
pub open spec fn untouched(
    link_type: LinkType,
    frame_number: u32,
    ts: Timestamp,
    state: StateView,
    options: Options,
) -> Model {
    Model {
        options,
        link_type,
        frame_number,
        ts,
        state,
        stream: None,
        origin: None,
        held_bytes: false,
        summary: super::no_summary(),
        trace: Trace { rows: Seq::empty(), depth: 0 },
        protocols: Seq::empty(),
        addrs: None,
        extra: Seq::empty(),
        source: 0,
        base: 0,
        next: None,
        nesting: 0,
    }
}

impl Model {
    /// Rows written so far, which is also the position of the next one.
    pub open spec fn count(self) -> int {
        self.trace.rows.len() as int
    }

    /// A field at the current depth, in the data source being dissected.
    #[verifier::opaque]
    pub open spec fn leaf(
        self,
        abbrev: Seq<char>,
        start: int,
        end: int,
        value: ValueView,
    ) -> Model {
        Model { trace: self.trace.leaf(abbrev, self.source, start, end, value), ..self }
    }

    /// A field with a free-text label; a malformed one is also an expert
    /// record.
    #[verifier::opaque]
    pub open spec fn leaf_text(
        self,
        abbrev: Seq<char>,
        start: int,
        end: int,
        value: ValueView,
        text: Seq<char>,
    ) -> Model {
        Model {
            trace: self.trace.leaf_text(abbrev, self.source, start, end, value, text),
            ..self
        }.noted(abbrev, start, end)
    }

    /// An open container.
    #[verifier::opaque]
    pub open spec fn begin(self, abbrev: Seq<char>, start: int, end: int) -> Model {
        Model {
            trace: self.trace.leaf(abbrev, self.source, start, end, ValueView::Empty).down(),
            ..self
        }
    }

    /// An open container that carries a value of its own.
    #[verifier::opaque]
    pub open spec fn begin_value(
        self,
        abbrev: Seq<char>,
        start: int,
        end: int,
        value: ValueView,
    ) -> Model {
        Model { trace: self.trace.leaf(abbrev, self.source, start, end, value).down(), ..self }
    }

    /// An open container with a free-text label; a malformed one also holds
    /// an expert record.
    #[verifier::opaque]
    pub open spec fn begin_text(
        self,
        abbrev: Seq<char>,
        start: int,
        end: int,
        text: Seq<char>,
    ) -> Model {
        Model {
            trace: self.trace.leaf_text(
                abbrev,
                self.source,
                start,
                end,
                ValueView::Empty,
                text,
            ).down(),
            ..self
        }.noted(abbrev, start, end)
    }

    /// An open container with a value and a free-text label.
    #[verifier::opaque]
    pub open spec fn begin_value_text(
        self,
        abbrev: Seq<char>,
        start: int,
        end: int,
        value: ValueView,
        text: Seq<char>,
    ) -> Model {
        Model {
            trace: self.trace.leaf_text(abbrev, self.source, start, end, value, text).down(),
            ..self
        }
    }

    /// The innermost container closed.
    #[verifier::opaque]
    pub open spec fn end(self) -> Model {
        Model { trace: self.trace.up(), ..self }
    }

    /// The innermost container closed, row `id` ending at `end`.
    #[verifier::opaque]
    pub open spec fn end_at(self, id: int, end: int) -> Model {
        Model { trace: self.trace.end_at(id, end).up(), ..self }
    }

    /// Row `id` ending at `end`.
    #[verifier::opaque]
    pub open spec fn set_end(self, id: int, end: int) -> Model {
        Model { trace: self.trace.end_at(id, end), ..self }
    }

    /// Row `id` labelled `text`.
    #[verifier::opaque]
    pub open spec fn set_text(self, id: int, text: Seq<char>) -> Model {
        Model { trace: self.trace.label(id, text), ..self }
    }

    /// Row `id` holding `value`.
    #[verifier::opaque]
    pub open spec fn set_value(self, id: int, value: ValueView) -> Model {
        Model { trace: self.trace.hold(id, value), ..self }
    }

    /// Row `id` ending where the rows from it on end.
    #[verifier::opaque]
    pub open spec fn fit_range(self, id: int) -> Model {
        Model {
            trace: self.trace.end_at(
                id,
                furthest(
                    self.trace.rows,
                    id,
                    self.trace.rows[id].source,
                    self.trace.rows[id].start,
                ),
            ),
            ..self
        }
    }

    /// The rows of `other` behind these.
    #[verifier::opaque]
    pub open spec fn append(self, other: Trace) -> Model {
        Model { trace: self.trace.append(other), ..self }
    }

    /// Back at depth `depth`.
    #[verifier::opaque]
    pub open spec fn at_depth(self, depth: int) -> Model {
        Model { trace: self.trace.at_depth(depth), ..self }
    }

    /// The expert record of a malformed row.
    pub open spec fn noted(self, abbrev: Seq<char>, start: int, end: int) -> Model {
        if abbrev == "_ws.malformed"@ {
            self.record(start, end, Severity::Error, Group::Malformed, MALFORMED@)
        } else {
            self
        }
    }

    /// An expert record: a subtree with the severity and the group, and the
    /// worst one in the summary, the first of equals.
    #[verifier::opaque]
    pub open spec fn record(
        self,
        start: int,
        end: int,
        severity: Severity,
        group: Group,
        summary: Seq<char>,
    ) -> Model {
        Model {
            trace: self.trace.leaf_text(
                "_ws.expert"@,
                self.source,
                start,
                end,
                ValueView::Empty,
                summary,
            ).down().leaf(
                "_ws.expert.severity"@,
                self.source,
                0,
                0,
                ValueView::Unsigned(severity.rank()),
            ).leaf(
                "_ws.expert.group"@,
                self.source,
                0,
                0,
                ValueView::Unsigned(group.number()),
            ).up(),
            summary: SummaryView {
                expert: match self.summary.expert {
                    Some(e) => if severity.rank() > e.severity.rank() {
                        Some(ExpertView { severity, group, summary })
                    } else {
                        Some(e)
                    },
                    None => Some(ExpertView { severity, group, summary }),
                },
                ..self.summary
            },
            ..self
        }
    }

    /// A finding: a field of its own and an expert record.
    #[verifier::opaque]
    pub open spec fn expert(
        self,
        abbrev: Seq<char>,
        start: int,
        end: int,
        severity: Severity,
        group: Group,
        summary: Seq<char>,
    ) -> Model {
        self.leaf_text(abbrev, start, end, ValueView::Empty, summary).record(
            start,
            end,
            severity,
            group,
            summary,
        )
    }

    /// The bytes from `offset` on go to `proto`.
    #[verifier::opaque]
    pub open spec fn call_next(self, proto: Proto, offset: int) -> Model {
        Model {
            next: Some(
                Handoff {
                    proto,
                    source: self.source,
                    offset: (self.base + offset) as usize,
                    len: None,
                },
            ),
            ..self
        }
    }

    /// `len` bytes from `offset` on go to `proto`.
    #[verifier::opaque]
    pub open spec fn call_next_bounded(self, proto: Proto, offset: int, len: int) -> Model {
        Model {
            next: Some(
                Handoff {
                    proto,
                    source: self.source,
                    offset: (self.base + offset) as usize,
                    len: Some(len as usize),
                },
            ),
            ..self
        }
    }

    /// All of data source `source` goes to `proto`.
    #[verifier::opaque]
    pub open spec fn call_next_in_source(self, proto: Proto, source: SourceId) -> Model {
        Model { next: Some(Handoff { proto, source, offset: 0, len: None }), ..self }
    }

    /// No handoff.
    #[verifier::opaque]
    pub open spec fn next_taken(self) -> Model {
        Model { next: None, ..self }
    }

    /// One more data source.
    #[verifier::opaque]
    pub open spec fn add_source(self, bytes: Seq<u8>) -> Model {
        Model { extra: self.extra.push(bytes), ..self }
    }

    /// The id the next data source gets.
    pub open spec fn next_source(self) -> SourceId {
        (self.extra.len() + 1) as u8
    }

    /// Rows go to data source `source`.
    #[verifier::opaque]
    pub open spec fn in_source(self, source: SourceId) -> Model {
        Model { source, ..self }
    }

    /// The slice being dissected starts at `base`.
    #[verifier::opaque]
    pub open spec fn with_base(self, base: int) -> Model {
        Model { base, ..self }
    }

    /// Nested `nesting` deep.
    #[verifier::opaque]
    pub open spec fn nested(self, nesting: u8) -> Model {
        Model { nesting, ..self }
    }

    /// A layer in the chain.
    #[verifier::opaque]
    pub open spec fn push_protocol(self, name: Seq<char>) -> Model {
        Model {
            protocols: if self.protocols.len() < MAX_PROTOCOLS {
                self.protocols.push(name)
            } else {
                self.protocols
            },
            ..self
        }
    }

    /// A layer in the chain, which also names the frame.
    #[verifier::opaque]
    pub open spec fn set_protocol(self, name: Seq<char>) -> Model {
        self.push_protocol(name).named(name)
    }

    /// The frame named in the protocol column.
    #[verifier::opaque]
    pub open spec fn named(self, name: Seq<char>) -> Model {
        Model { summary: SummaryView { protocol: name, ..self.summary }, ..self }
    }

    /// The chain cut to its first `n` layers.
    #[verifier::opaque]
    pub open spec fn truncate_protocols(self, n: int) -> Model {
        Model {
            protocols: if n < self.protocols.len() {
                self.protocols.take(n)
            } else {
                self.protocols
            },
            ..self
        }
    }

    /// The info column.
    #[verifier::opaque]
    pub open spec fn set_info(self, info: Seq<char>) -> Model {
        Model { summary: SummaryView { info, ..self.summary }, ..self }
    }

    /// The address columns.
    #[verifier::opaque]
    pub open spec fn between(self, source: AddrView, destination: AddrView) -> Model {
        Model { summary: SummaryView { source, destination, ..self.summary }, ..self }
    }

    /// The addresses of the network layer.
    #[verifier::opaque]
    pub open spec fn with_addrs(self, addrs: Option<AddrsView>) -> Model {
        Model { addrs, ..self }
    }

    /// The summary columns.
    #[verifier::opaque]
    pub open spec fn with_summary(self, summary: SummaryView) -> Model {
        Model { summary, ..self }
    }

    /// The conversation the frame belongs to.
    #[verifier::opaque]
    pub open spec fn with_stream(self, stream: Option<(u32, Direction)>) -> Model {
        Model { stream, ..self }
    }

    /// Where the bytes being dissected came from.
    #[verifier::opaque]
    pub open spec fn with_origin(self, origin: Option<Origin>) -> Model {
        Model { origin, ..self }
    }

    /// The frame after bytes were offered for keeping, and whether they were
    /// kept.
    #[verifier::opaque]
    pub open spec fn hold(self, bytes: Seq<u8>) -> (Model, bool) {
        match (self.stream, self.origin) {
            (Some((stream, dir)), Some(origin)) => {
                let (desegment, ok) = kept(
                    self.state.desegment,
                    stream,
                    dir,
                    bytes,
                    origin,
                    self.ts,
                );
                (
                    Model {
                        state: StateView { desegment, ..self.state },
                        held_bytes: self.held_bytes || ok,
                        ..self
                    },
                    ok,
                )
            },
            _ => (self, false),
        }
    }

    /// Nothing held for the frame's direction any more.
    #[verifier::opaque]
    pub open spec fn drop_held(self) -> Model {
        match self.stream {
            Some((stream, dir)) => Model {
                state: StateView {
                    desegment: without(self.state.desegment, stream, dir),
                    ..self.state
                },
                ..self
            },
            None => self,
        }
    }

    /// The bytes held for `stream` in direction `dir` taken out.
    #[verifier::opaque]
    pub open spec fn take_held(self, stream: u32, dir: Direction) -> Model {
        Model {
            state: StateView {
                desegment: without(self.state.desegment, stream, dir),
                ..self.state
            },
            ..self
        }
    }

    /// A fragment added to what is being reassembled.
    #[verifier::opaque]
    pub open spec fn add_fragment(
        self,
        key: FragKeyView,
        offset: usize,
        more: bool,
        payload: Seq<u8>,
    ) -> (Model, FragResultView) {
        let (reassembly, r) = added(
            self.state.reassembly,
            key,
            offset,
            more,
            payload,
            self.frame_number,
            self.ts,
        );
        (Model { state: StateView { reassembly, ..self.state }, ..self }, r)
    }

    /// The frame's conversation looked up.
    #[verifier::opaque]
    pub open spec fn look_up(
        self,
        src: EndView,
        dst: EndView,
        proto: u8,
        fresh: bool,
    ) -> (Model, LookupView) {
        let (streams, look) = looked_up(self.state.streams, src, dst, proto, self.ts, fresh);
        (Model { state: StateView { streams, ..self.state }, ..self }, look)
    }

    /// A segment folded into its conversation.
    #[verifier::opaque]
    pub open spec fn analyse(self, key: KeyView, d: Direction, seg: Segment) -> (Model, Findings) {
        (
            Model {
                state: StateView {
                    streams: analysed(self.state.streams, key, d, seg),
                    ..self.state
                },
                ..self
            },
            analysis_findings(self.state.streams, key, d, seg),
        )
    }
}

impl Ctx {
    pub fn new(link_type: LinkType, frame_number: u32, ts: Timestamp, state: State) -> (r: Ctx)
        ensures
            r@ == untouched(
                link_type,
                frame_number,
                ts,
                state@,
                Options { validate_ip_checksums: true, validate_transport_checksums: true },
            ),
    {
        Ctx::with_options(link_type, frame_number, ts, state, Options::default())
    }

    pub fn with_options(
        link_type: LinkType,
        frame_number: u32,
        ts: Timestamp,
        state: State,
        options: Options,
    ) -> (r: Ctx)
        ensures
            r@ == untouched(link_type, frame_number, ts, state@, options),
    {
        let r = Ctx {
            options,
            link_type,
            frame_number,
            ts,
            state,
            stream: None,
            origin: None,
            held_bytes: false,
            summary: Summary::default(),
            tree: TreeBuilder::new(),
            protocols: Vec::new(),
            net_addrs: None,
            extra_sources: Vec::new(),
            source: 0,
            base: 0,
            next: None,
            nesting: 0,
        };
        assert(r@.protocols =~= Seq::empty());
        assert(r@.extra =~= Seq::empty());
        r
    }

    // ---- what a dissector may ask ------------------------------------------

    /// The dissection settings in force.
    pub fn options(&self) -> (r: Options)
        ensures
            r == self@.options,
    {
        self.options
    }

    pub fn link_type(&self) -> (r: LinkType)
        ensures
            r == self@.link_type,
    {
        self.link_type
    }

    pub fn frame_number(&self) -> (r: u32)
        ensures
            r == self@.frame_number,
    {
        self.frame_number
    }

    pub fn ts(&self) -> (r: Timestamp)
        ensures
            r == self@.ts,
    {
        self.ts
    }

    /// Absolute offset of the slice being dissected.
    pub fn base(&self) -> (r: usize)
        ensures
            r == self@.base,
    {
        self.base
    }

    /// Data source of the slice being dissected.
    pub fn source(&self) -> (r: SourceId)
        ensures
            r == self@.source,
    {
        self.source
    }

    pub fn nesting(&self) -> (r: u8)
        ensures
            r == self@.nesting,
    {
        self.nesting
    }

    /// Addresses of the innermost network layer seen so far.
    pub fn net_addrs(&self) -> (r: Option<NetAddrs>)
        ensures
            match r {
                Some(a) => self@.addrs == Some(a@),
                None => self@.addrs is None,
            },
    {
        self.net_addrs
    }

    pub fn stream(&self) -> (r: Option<(u32, Direction)>)
        ensures
            r == self@.stream,
    {
        self.stream
    }

    pub fn origin(&self) -> (r: Option<Origin>)
        ensures
            r == self@.origin,
    {
        self.origin
    }

    /// Whether a sub-dissector kept bytes for later.
    pub fn held_bytes(&self) -> (r: bool)
        ensures
            r == self@.held_bytes,
    {
        self.held_bytes
    }

    /// A copy of the summary columns.
    pub fn summary(&self) -> (r: Summary)
        ensures
            r@ == self@.summary,
    {
        self.summary.copied()
    }

    /// The protocol column.
    pub fn protocol(&self) -> (r: &'static str)
        ensures
            r@ == self@.summary.protocol,
    {
        self.summary.protocol
    }

    /// The protocol chain recorded so far.
    pub fn protocols(&self) -> (r: &[&'static str])
        ensures
            names(r@) == self@.protocols,
    {
        self.protocols.as_slice()
    }

    /// Number of protocols recorded, to roll back nested dissection.
    pub fn protocol_count(&self) -> (r: usize)
        ensures
            r == self@.protocols.len(),
    {
        self.protocols.len()
    }

    /// The current nesting depth, to restore after a fallible sub-dissection
    /// that may return from inside open containers.
    pub fn depth(&self) -> (r: u8)
        ensures
            r == self@.trace.depth,
    {
        self.tree.depth()
    }

    /// Rows written so far.
    pub fn count(&self) -> (r: usize)
        ensures
            r == self@.count(),
    {
        self.tree.len()
    }

    /// The furthest end among rows `lo..` that lie in `source`.
    pub fn furthest_end(&self, lo: usize, source: SourceId, least: usize) -> (r: usize)
        ensures
            r == furthest(self@.trace.rows, lo as int, source, least as int),
    {
        self.tree.furthest_end(lo, source, least)
    }

    /// Number of extra data sources.
    pub fn source_count(&self) -> (r: usize)
        ensures
            r == self@.extra.len(),
    {
        self.extra_sources.len()
    }

    /// A copy of extra data source `i`, counted from zero.
    pub fn source_bytes(&self, i: usize) -> (r: Vec<u8>)
        requires
            i < self@.extra.len(),
        ensures
            r@ == self@.extra[i as int],
    {
        crate::bytes::copy_of(self.extra_sources[i].as_slice())
    }

    // ---- tree building ------------------------------------------------------

    /// A field at the current depth, in the data source being dissected.
    pub fn leaf(&mut self, abbrev: &'static str, range: Range<usize>, value: Value) -> (id: NodeId)
        ensures
            id == old(self)@.count(),
            final(self)@ == old(self)@.leaf(
                abbrev@,
                range.start as int,
                range.end as int,
                value@,
            ),
            id < final(self)@.count(),
            final(self)@.count() >= old(self)@.count(),
            final(self)@.base == old(self)@.base,
    {
        proof {
            reveal(Model::leaf);
        }
        self.tree.leaf(abbrev, self.source, range, value)
    }

    /// A field with a free-text label.
    pub fn leaf_text(
        &mut self,
        abbrev: &'static str,
        range: Range<usize>,
        value: Value,
        text: &str,
    ) -> (id: NodeId)
        ensures
            id == old(self)@.count(),
            final(self)@ == old(self)@.leaf_text(
                abbrev@,
                range.start as int,
                range.end as int,
                value@,
                text@,
            ),
            id < final(self)@.count(),
            final(self)@.count() >= old(self)@.count(),
            final(self)@.base == old(self)@.base,
    {
        proof {
            reveal(Model::leaf_text);
        }
        let start: usize = range.start;
        let end: usize = range.end;
        let id: usize = self.tree.leaf_text(abbrev, self.source, range, value, text::owned(text));
        self.note_malformed(abbrev, start, end);
        id
    }

    /// Open a container; nodes added until `end` are its children.
    pub fn begin(&mut self, abbrev: &'static str, range: Range<usize>) -> (id: NodeId)
        ensures
            id == old(self)@.count(),
            final(self)@ == old(self)@.begin(abbrev@, range.start as int, range.end as int),
            id < final(self)@.count(),
            final(self)@.count() >= old(self)@.count(),
            final(self)@.base == old(self)@.base,
    {
        proof {
            reveal(Model::begin);
        }
        self.tree.begin(abbrev, self.source, range)
    }

    /// Open a container that carries a value of its own (a flags byte).
    pub fn begin_value(&mut self, abbrev: &'static str, range: Range<usize>, value: Value) -> (id:
        NodeId)
        ensures
            id == old(self)@.count(),
            final(self)@ == old(self)@.begin_value(
                abbrev@,
                range.start as int,
                range.end as int,
                value@,
            ),
            id < final(self)@.count(),
            final(self)@.count() >= old(self)@.count(),
            final(self)@.base == old(self)@.base,
    {
        proof {
            reveal(Model::begin_value);
        }
        let id: usize = self.tree.leaf(abbrev, self.source, range, value);
        self.tree.down();
        id
    }

    /// Open a container with a free-text label.
    pub fn begin_text(&mut self, abbrev: &'static str, range: Range<usize>, text: &str) -> (id:
        NodeId)
        ensures
            id == old(self)@.count(),
            final(self)@ == old(self)@.begin_text(
                abbrev@,
                range.start as int,
                range.end as int,
                text@,
            ),
            id < final(self)@.count(),
            final(self)@.count() >= old(self)@.count(),
            final(self)@.base == old(self)@.base,
    {
        proof {
            reveal(Model::begin_text);
        }
        let start: usize = range.start;
        let end: usize = range.end;
        let id: usize = self.tree.leaf_text(
            abbrev,
            self.source,
            range,
            Value::Empty,
            text::owned(text),
        );
        self.tree.down();
        self.note_malformed(abbrev, start, end);
        id
    }

    /// Open a container with both a value and a free-text label.
    pub fn begin_value_text(
        &mut self,
        abbrev: &'static str,
        range: Range<usize>,
        value: Value,
        text: &str,
    ) -> (id: NodeId)
        ensures
            id == old(self)@.count(),
            final(self)@ == old(self)@.begin_value_text(
                abbrev@,
                range.start as int,
                range.end as int,
                value@,
                text@,
            ),
            id < final(self)@.count(),
            final(self)@.count() >= old(self)@.count(),
            final(self)@.base == old(self)@.base,
    {
        proof {
            reveal(Model::begin_value_text);
        }
        let id: usize = self.tree.leaf_text(abbrev, self.source, range, value, text::owned(text));
        self.tree.down();
        id
    }

    /// Close the innermost container.
    pub fn end(&mut self)
        ensures
            final(self)@ == old(self)@.end(),
            final(self)@.count() >= old(self)@.count(),
            final(self)@.base == old(self)@.base,
    {
        proof {
            reveal(Model::end);
        }
        self.tree.end();
    }

    pub fn restore_depth(&mut self, depth: u8)
        ensures
            final(self)@ == old(self)@.at_depth(depth as int),
            final(self)@.count() >= old(self)@.count(),
            final(self)@.base == old(self)@.base,
    {
        proof {
            reveal(Model::at_depth);
        }
        self.tree.set_depth(depth);
    }

    /// Close a container and set the range end it actually covered.
    pub fn end_at(&mut self, id: NodeId, end: usize)
        requires
            id < old(self)@.count(),
        ensures
            final(self)@ == old(self)@.end_at(id as int, end as int),
            final(self)@.count() >= old(self)@.count(),
            final(self)@.base == old(self)@.base,
    {
        proof {
            reveal(Model::end_at);
        }
        self.tree.set_end(id, end);
        self.tree.end();
    }

    pub fn set_text(&mut self, id: NodeId, text: &str)
        requires
            id < old(self)@.count(),
        ensures
            final(self)@ == old(self)@.set_text(id as int, text@),
            final(self)@.count() >= old(self)@.count(),
            final(self)@.base == old(self)@.base,
    {
        proof {
            reveal(Model::set_text);
        }
        self.tree.set_text(id, text::owned(text));
    }

    pub fn set_end(&mut self, id: NodeId, end: usize)
        requires
            id < old(self)@.count(),
        ensures
            final(self)@ == old(self)@.set_end(id as int, end as int),
            final(self)@.count() >= old(self)@.count(),
            final(self)@.base == old(self)@.base,
    {
        proof {
            reveal(Model::set_end);
        }
        self.tree.set_end(id, end);
    }

    /// Replace the value of row `id`.
    pub fn set_value(&mut self, id: NodeId, value: Value)
        ensures
            final(self)@ == old(self)@.set_value(id as int, value@),
            final(self)@.count() >= old(self)@.count(),
            final(self)@.base == old(self)@.base,
    {
        proof {
            reveal(Model::set_value);
        }
        self.tree.set_value(id, value);
    }

    /// Make row `id` cover the rows written since.
    pub fn fit_range(&mut self, id: NodeId)
        requires
            id < old(self)@.count(),
        ensures
            final(self)@ == old(self)@.fit_range(id as int),
            id < final(self)@.count(),
            final(self)@.count() >= old(self)@.count(),
            final(self)@.base == old(self)@.base,
    {
        proof {
            reveal(Model::fit_range);
        }
        self.tree.fit_range(id);
    }

    /// Put rows built apart behind these.
    pub fn append(&mut self, other: TreeBuilder)
        ensures
            final(self)@ == old(self)@.append(other@),
            final(self)@.count() >= old(self)@.count(),
            final(self)@.base == old(self)@.base,
    {
        proof {
            reveal(Model::append);
        }
        self.tree.append(other);
    }

    /// Attribute later nodes to another data source (reassembly).
    pub fn in_source(&mut self, source: SourceId)
        ensures
            final(self)@ == old(self)@.in_source(source),
            final(self)@.count() >= old(self)@.count(),
            final(self)@.base == old(self)@.base,
    {
        proof {
            reveal(Model::in_source);
        }
        self.source = source;
    }

    pub fn set_base(&mut self, base: usize)
        ensures
            final(self)@ == old(self)@.with_base(base as int),
            final(self)@.count() >= old(self)@.count(),
    {
        proof {
            reveal(Model::with_base);
        }
        self.base = base;
    }

    pub fn set_nesting(&mut self, nesting: u8)
        ensures
            final(self)@ == old(self)@.nested(nesting),
            final(self)@.count() >= old(self)@.count(),
            final(self)@.base == old(self)@.base,
    {
        proof {
            reveal(Model::nested);
        }
        self.nesting = nesting;
    }

    /// What the frame came to: the tree, the columns, the extra sources and
    /// the state for the next frame.
    pub fn finish_tree(self) -> (r: (Tree, Summary, Vec<Vec<u8>>, State))
        ensures
            super::node::outlines(r.0@, self@.trace.rows),
            super::node::packable(self@.trace.rows) ==> r.0@ == super::node::all_kept(
                self@.trace.rows,
            ),
            r.0.extra_names() == super::node::strangers(self@.trace.rows),
            super::node::rows_bytes(self@.trace.rows) <= 0xffff_ffff ==> r.0.held() == 28
                * self@.trace.rows.len() + super::node::rows_bytes(self@.trace.rows),
            r.1@ == self@.summary,
            buffers(r.2@) == self@.extra,
            r.3@ == self@.state,
    {
        (self.tree.finish(), self.summary, self.extra_sources, self.state)
    }

    // ---- layer handoff ------------------------------------------------------

    /// Hand the bytes from `offset` (relative to the current dissector's
    /// slice) to `proto` once the current dissector returns.
    pub fn call_next(&mut self, proto: Proto, offset: usize)
        requires
            old(self)@.base + offset <= usize::MAX,
        ensures
            final(self)@ == old(self)@.call_next(proto, offset as int),
            final(self)@.count() >= old(self)@.count(),
            final(self)@.base == old(self)@.base,
    {
        proof {
            reveal(Model::call_next);
        }
        self.next = Some(
            Handoff { proto, source: self.source, offset: self.base + offset, len: None },
        );
    }

    /// Like `call_next` but exposes only `len` bytes from `offset`.
    pub fn call_next_bounded(&mut self, proto: Proto, offset: usize, len: usize)
        requires
            old(self)@.base + offset <= usize::MAX,
        ensures
            final(self)@ == old(self)@.call_next_bounded(proto, offset as int, len as int),
            final(self)@.count() >= old(self)@.count(),
            final(self)@.base == old(self)@.base,
    {
        proof {
            reveal(Model::call_next_bounded);
        }
        self.next = Some(
            Handoff { proto, source: self.source, offset: self.base + offset, len: Some(len) },
        );
    }

    /// Hand a whole extra data source to `proto`.
    pub fn call_next_in_source(&mut self, proto: Proto, source: SourceId)
        ensures
            final(self)@ == old(self)@.call_next_in_source(proto, source),
            final(self)@.count() >= old(self)@.count(),
            final(self)@.base == old(self)@.base,
    {
        proof {
            reveal(Model::call_next_in_source);
        }
        self.next = Some(Handoff { proto, source, offset: 0, len: None });
    }

    pub fn take_next(&mut self) -> (r: Option<Handoff>)
        ensures
            r == old(self)@.next,
            final(self)@ == old(self)@.next_taken(),
            final(self)@.count() >= old(self)@.count(),
            final(self)@.base == old(self)@.base,
    {
        proof {
            reveal(Model::next_taken);
        }
        let r: Option<Handoff> = self.next;
        self.next = None;
        r
    }

    /// Register a reassembled buffer; returns its source id.
    pub fn add_source(&mut self, bytes: Vec<u8>) -> (r: SourceId)
        ensures
            r == old(self)@.next_source(),
            final(self)@ == old(self)@.add_source(bytes@),
            final(self)@.count() >= old(self)@.count(),
            final(self)@.base == old(self)@.base,
    {
        proof {
            reveal(Model::add_source);
        }
        self.extra_sources.push(bytes);
        assert(self@.extra =~= old(self)@.extra.push(bytes@));
        #[verifier::truncate]
        let r: u8 = self.extra_sources.len() as u8;
        r
    }

    /// Record a layer in the chain and make it the Protocol column.
    pub fn set_protocol(&mut self, name: &'static str)
        ensures
            final(self)@ == old(self)@.set_protocol(name@),
            final(self)@.count() >= old(self)@.count(),
            final(self)@.base == old(self)@.base,
    {
        proof {
            reveal(Model::set_protocol);
        }
        self.push_protocol(name);
        self.set_name(name);
    }

    /// The Protocol column only.
    pub fn set_name(&mut self, name: &'static str)
        ensures
            final(self)@ == old(self)@.named(name@),
            final(self)@.count() >= old(self)@.count(),
            final(self)@.base == old(self)@.base,
    {
        proof {
            reveal(Model::named);
        }
        self.summary.protocol = name;
    }

    /// Record a layer in the chain only. `data` uses this so the Protocol
    /// column keeps naming the last protocol that was actually recognised.
    pub fn push_protocol(&mut self, name: &'static str)
        ensures
            final(self)@ == old(self)@.push_protocol(name@),
            final(self)@.count() >= old(self)@.count(),
            final(self)@.base == old(self)@.base,
    {
        proof {
            reveal(Model::push_protocol);
        }
        if self.protocols.len() < MAX_PROTOCOLS {
            self.protocols.push(name);
            assert(self@.protocols =~= old(self)@.protocols.push(name@));
        }
    }

    pub fn truncate_protocols(&mut self, n: usize)
        ensures
            final(self)@ == old(self)@.truncate_protocols(n as int),
            final(self)@.count() >= old(self)@.count(),
            final(self)@.base == old(self)@.base,
    {
        proof {
            reveal(Model::truncate_protocols);
        }
        if n < self.protocols.len() {
            self.protocols.truncate(n);
            assert(self@.protocols =~= old(self)@.protocols.take(n as int));
        }
    }

    /// Every `_ws.malformed` node is an expert Error, without each of the
    /// places that emit one having to remember.
    ///
    /// The specific reason stays in the node's own text; the expert record
    /// carries a fixed summary so the packet list needs no per-frame string.
    fn note_malformed(&mut self, abbrev: &'static str, start: usize, end: usize)
        ensures
            final(self)@ == old(self)@.noted(abbrev@, start as int, end as int),
            final(self)@.count() >= old(self)@.count(),
            final(self)@.base == old(self)@.base,
    {
        if text::same(abbrev, "_ws.malformed") {
            self.expert_record(start..end, Severity::Error, Group::Malformed, MALFORMED);
        }
    }

    /// The `_ws.expert` subtree and the frame-level record, with no field of
    /// its own. Used where the finding *is* the node, such as a malformed
    /// layer.
    pub fn expert_record(
        &mut self,
        range: Range<usize>,
        severity: Severity,
        group: Group,
        summary: &'static str,
    )
        ensures
            final(self)@ == old(self)@.record(
                range.start as int,
                range.end as int,
                severity,
                group,
                summary@,
            ),
            final(self)@.count() >= old(self)@.count(),
            final(self)@.base == old(self)@.base,
    {
        proof {
            reveal(Model::record);
        }
        let _ = self.tree.leaf_text(
            "_ws.expert",
            self.source,
            range,
            Value::Empty,
            text::owned(summary),
        );
        self.tree.down();
        let _ = self.tree.leaf(
            "_ws.expert.severity",
            self.source,
            0..0,
            Value::Unsigned(severity.code()),
        );
        let _ = self.tree.leaf(
            "_ws.expert.group",
            self.source,
            0..0,
            Value::Unsigned(group.code()),
        );
        self.tree.end();
        // Keep the worst; ties keep the first, which is the one the dissector
        // reached earliest and so the most specific to the outer layer.
        let better: bool = match &self.summary.expert {
            Some(e) => severity.code() > e.severity.code(),
            None => true,
        };
        if better {
            self.summary.expert = Some(Expert { severity, group, summary });
        }
    }

    /// Raise an expert finding: a node in the tree, plus the frame-level
    /// record the packet list reads.
    ///
    /// `abbrev` is the finding's own field, so a filter can name the specific
    /// problem (`tcp.analysis.retransmission`) as well as the generic one
    /// (`_ws.expert.severity >= "Warning"`).
    pub fn expert(
        &mut self,
        abbrev: &'static str,
        range: Range<usize>,
        severity: Severity,
        group: Group,
        summary: &'static str,
    )
        ensures
            final(self)@ == old(self)@.expert(
                abbrev@,
                range.start as int,
                range.end as int,
                severity,
                group,
                summary@,
            ),
            final(self)@.count() >= old(self)@.count(),
            final(self)@.base == old(self)@.base,
    {
        proof {
            reveal(Model::expert);
        }
        let start: usize = range.start;
        let end: usize = range.end;
        let _ = self.leaf_text(abbrev, range, Value::Empty, summary);
        self.expert_record(start..end, severity, group, summary);
    }

    pub fn set_info(&mut self, info: String)
        ensures
            final(self)@ == old(self)@.set_info(info@),
            final(self)@.count() >= old(self)@.count(),
            final(self)@.base == old(self)@.base,
    {
        proof {
            reveal(Model::set_info);
        }
        self.summary.info = info;
    }

    /// The address columns.
    pub fn set_addresses(&mut self, source: Addr, destination: Addr)
        ensures
            final(self)@ == old(self)@.between(source@, destination@),
            final(self)@.count() >= old(self)@.count(),
            final(self)@.base == old(self)@.base,
    {
        proof {
            reveal(Model::between);
        }
        self.summary.source = source;
        self.summary.destination = destination;
    }

    pub fn set_net_addrs(&mut self, addrs: Option<NetAddrs>)
        ensures
            final(self)@ == old(self)@.with_addrs(
                match addrs {
                    Some(a) => Some(a@),
                    None => None,
                },
            ),
            final(self)@.count() >= old(self)@.count(),
            final(self)@.base == old(self)@.base,
    {
        proof {
            reveal(Model::with_addrs);
        }
        self.net_addrs = addrs;
    }

    pub fn set_summary(&mut self, summary: Summary)
        ensures
            final(self)@ == old(self)@.with_summary(summary@),
            final(self)@.count() >= old(self)@.count(),
            final(self)@.base == old(self)@.base,
    {
        proof {
            reveal(Model::with_summary);
        }
        self.summary = summary;
    }

    // ---- memory between frames ----------------------------------------------

    pub fn set_stream(&mut self, stream: Option<(u32, Direction)>)
        ensures
            final(self)@ == old(self)@.with_stream(stream),
            final(self)@.count() >= old(self)@.count(),
            final(self)@.base == old(self)@.base,
    {
        proof {
            reveal(Model::with_stream);
        }
        self.stream = stream;
    }

    pub fn set_origin(&mut self, origin: Option<Origin>)
        ensures
            final(self)@ == old(self)@.with_origin(origin),
            final(self)@.count() >= old(self)@.count(),
            final(self)@.base == old(self)@.base,
    {
        proof {
            reveal(Model::with_origin);
        }
        self.origin = origin;
    }

    /// Keep `bytes` until the rest of the message arrives, and report whether
    /// they were kept. A refusal (no conversation, over a cap) means the
    /// caller must dissect what it has.
    ///
    /// Bytes are held per stream *and direction*, so a request and the
    /// response to it never run into one another.
    pub fn hold(&mut self, bytes: &[u8]) -> (r: bool)
        ensures
            (final(self)@, r) == old(self)@.hold(bytes@),
            final(self)@.count() >= old(self)@.count(),
            final(self)@.base == old(self)@.base,
    {
        proof {
            reveal(Model::hold);
        }
        match (self.stream, self.origin) {
            (Some((stream, dir)), Some(origin)) => {
                let ts: Timestamp = self.ts;
                let kept: bool = self.state.desegment.keep(stream, dir, bytes, origin, ts);
                self.held_bytes = self.held_bytes || kept;
                kept
            },
            _ => false,
        }
    }

    /// Discard any bytes held for this direction: the message they belonged
    /// to will never be completed.
    pub fn drop_held(&mut self)
        ensures
            final(self)@ == old(self)@.drop_held(),
            final(self)@.count() >= old(self)@.count(),
            final(self)@.base == old(self)@.base,
    {
        proof {
            reveal(Model::drop_held);
        }
        if let Some((stream, dir)) = self.stream {
            self.state.desegment.forget(stream, dir);
        }
    }

    /// What is held for `stream` in direction `dir`, in front of `payload`.
    pub fn take_held(&mut self, stream: u32, dir: Direction, payload: &[u8]) -> (r: Prefix)
        ensures
            r@ == prefix_for(
                old(self)@.state.desegment,
                stream,
                dir,
                payload@,
                old(self)@.ts,
            ),
            final(self)@ == old(self)@.take_held(stream, dir),
            final(self)@.count() >= old(self)@.count(),
            final(self)@.base == old(self)@.base,
    {
        proof {
            reveal(Model::take_held);
        }
        let ts: Timestamp = self.ts;
        self.state.desegment.take(stream, dir, payload, ts)
    }

    /// Hand a fragment to reassembly.
    pub fn add_fragment(&mut self, key: FragKey, offset: usize, more: bool, payload: &[u8]) -> (r:
        FragResult)
        ensures
            (final(self)@, r@) == old(self)@.add_fragment(key@, offset, more, payload@),
            r matches FragResult::Complete { frags, .. } ==> machine_sized(frags@),
            final(self)@.count() >= old(self)@.count(),
            final(self)@.base == old(self)@.base,
    {
        proof {
            reveal(Model::add_fragment);
        }
        let frame: u32 = self.frame_number;
        let ts: Timestamp = self.ts;
        self.state.reassembly.add(key, offset, more, payload, frame, ts)
    }

    /// Look up the frame's conversation.
    pub fn look_up(&mut self, src: Endpoint, dst: Endpoint, proto: u8, fresh: bool) -> (r: Lookup)
        ensures
            (final(self)@, r@) == old(self)@.look_up(src@, dst@, proto, fresh),
            final(self)@.count() >= old(self)@.count(),
            final(self)@.base == old(self)@.base,
    {
        proof {
            reveal(Model::look_up);
        }
        let ts: Timestamp = self.ts;
        self.state.streams.lookup(src, dst, proto, ts, fresh)
    }

    /// Fold a segment into its conversation.
    pub fn analyse(&mut self, look: &Lookup, seg: &Segment) -> (r: Findings)
        ensures
            (final(self)@, r) == old(self)@.analyse(look@.key, look.direction, *seg),
            final(self)@.count() >= old(self)@.count(),
            final(self)@.base == old(self)@.base,
    {
        proof {
            reveal(Model::analyse);
        }
        self.state.streams.analyse(look, seg)
    }
}

} // verus!
