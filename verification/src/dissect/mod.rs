//! Stage 2: turning raw frames into dissected `Frame`s.
//!
//! `dissect` runs the chain of protocol dissectors for one frame. Each
//! dissector writes its own layer and tells the context which dissector gets
//! the payload; a failure becomes a `[Malformed Packet]` node covering the
//! rest of the layer and dissection stops there for that data source. One bad
//! packet never aborts the frame, let alone the capture.

use vstd::prelude::*;

use crate::bytes;
use crate::capture::{
    LinkType, RawFrame, RawView, Timestamp, LINK_ETHERNET, LINK_NULL, LINK_RAW,
};
use crate::text;
use crate::text::{dec, joined, padded, signed};

pub mod checksums;
pub mod cursor;
pub mod expert;
pub mod labels;
pub mod layout;
pub mod tables;
pub mod naming;
pub mod nesting;
pub mod node;
pub mod proto;
pub mod ranges;
pub mod reporting;
pub mod retention;
pub mod registry;
pub mod ctx;
pub mod reassembly;
pub mod state;
pub mod stream;
pub mod worker;

pub use ctx::{Ctx, Options, Proto};
pub use cursor::{DissectError, SourceId};
pub use expert::{Expert, ExpertView, Group, Severity};
pub use node::{NodeId, NodeRef, Tree, TreeBuilder, Value};
pub use reassembly::Reassembly;
pub use state::State;

use ctx::{buffers, names, untouched, Handoff, Model};
use node::{all_kept, furthest, outlines, packable, rows_bytes, Row, ValueView};
use proto::{addressable, data_layer, error_of, Outcome};

verus! {

/// An address for the packet list's source and destination columns. Kept
/// typed and inline so a layer that is later overwritten (Ethernet MACs
/// replaced by IP addresses) costs nothing; the text is formatted only for
/// the rows actually drawn.
#[derive(Debug, Clone, Copy, PartialEq, Eq, Hash)]
pub enum Addr {
    Absent,
    Mac([u8; 6]),
    Ipv4([u8; 4]),
    Ipv6([u8; 16]),
}

/// The bytes of an address.
#[verifier::ext_equal]
pub enum AddrView {
    Absent,
    Mac(Seq<u8>),
    Ipv4(Seq<u8>),
    Ipv6(Seq<u8>),
}

impl View for Addr {
    type V = AddrView;

    open spec fn view(&self) -> AddrView {
        match *self {
            Addr::Absent => AddrView::Absent,
            Addr::Mac(m) => AddrView::Mac(m@),
            Addr::Ipv4(a) => AddrView::Ipv4(a@),
            Addr::Ipv6(a) => AddrView::Ipv6(a@),
        }
    }
}

/// An address as shown.
pub open spec fn addr_text(a: AddrView) -> Seq<char> {
    match a {
        AddrView::Absent => Seq::empty(),
        AddrView::Mac(m) => node::mac_text(m),
        AddrView::Ipv4(a) => node::ipv4_text(a),
        AddrView::Ipv6(a) => node::ipv6_text(a),
    }
}

impl Default for Addr {
    fn default() -> (r: Addr)
        ensures
            r == Addr::Absent,
    {
        Addr::Absent
    }
}

impl Addr {
    /// The address as shown; an absent one shows nothing.
    pub fn text(&self) -> (r: String)
        ensures
            r@ == addr_text(self@),
    {
        match *self {
            Addr::Absent => String::new(),
            Addr::Mac(m) => node::fmt_mac(m),
            Addr::Ipv4(a) => node::fmt_ipv4(a),
            Addr::Ipv6(a) => node::fmt_ipv6(a),
        }
    }

    pub fn is_none(&self) -> (r: bool)
        ensures
            r == (self@ == AddrView::Absent),
    {
        match *self {
            Addr::Absent => true,
            _ => false,
        }
    }
}

/// Packet-list columns, computed once at dissection time.
#[derive(Debug, PartialEq, Eq)]
pub struct Summary {
    pub source: Addr,
    pub destination: Addr,
    pub protocol: &'static str,
    pub info: String,
    /// The worst finding on the frame.
    pub expert: Option<Expert>,
}

/// What the columns show.
#[verifier::ext_equal]
pub struct SummaryView {
    pub source: AddrView,
    pub destination: AddrView,
    pub protocol: Seq<char>,
    pub info: Seq<char>,
    pub expert: Option<ExpertView>,
}

impl View for Summary {
    type V = SummaryView;

    open spec fn view(&self) -> SummaryView {
        SummaryView {
            source: self.source@,
            destination: self.destination@,
            protocol: self.protocol@,
            info: self.info@,
            expert: match self.expert {
                Some(e) => Some(e@),
                None => None,
            },
        }
    }
}

/// Empty columns.
pub open spec fn no_summary() -> SummaryView {
    SummaryView {
        source: AddrView::Absent,
        destination: AddrView::Absent,
        protocol: ""@,
        info: ""@,
        expert: None,
    }
}

impl Default for Summary {
    fn default() -> (r: Summary)
        ensures
            r@ == no_summary(),
    {
        Summary {
            source: Addr::Absent,
            destination: Addr::Absent,
            protocol: "",
            info: text::owned(""),
            expert: None,
        }
    }
}

/// Column text for each protocol name.
pub const PROTOCOL_TITLES: [(&'static str, &'static str); 17] = [
    ("eth", "ETH"),
    ("null", "NULL"),
    ("vlan", "VLAN"),
    ("llc", "LLC"),
    ("arp", "ARP"),
    ("ip", "IPv4"),
    ("ipv6", "IPv6"),
    ("icmp", "ICMP"),
    ("icmpv6", "ICMPv6"),
    ("udp", "UDP"),
    ("tcp", "TCP"),
    ("dns", "DNS"),
    ("dhcp", "DHCP"),
    ("http", "HTTP"),
    ("tls", "TLS"),
    ("data", "DATA"),
    ("", "RAW"),
];

/// The title of `name`, from row `i` of the table on; a name without one is
/// its own title.
pub open spec fn title_from(name: Seq<char>, i: int) -> Seq<char>
    decreases PROTOCOL_TITLES@.len() - i,
{
    if i < 0 || i >= PROTOCOL_TITLES@.len() {
        name
    } else if PROTOCOL_TITLES@[i].0@ == name {
        PROTOCOL_TITLES@[i].1@
    } else {
        title_from(name, i + 1)
    }
}

impl Summary {
    /// A copy of the columns.
    pub fn copied(&self) -> (r: Summary)
        ensures
            r@ == self@,
    {
        Summary {
            source: self.source,
            destination: self.destination,
            protocol: self.protocol,
            info: text::owned(self.info.as_str()),
            expert: self.expert,
        }
    }

    /// Column text for the protocol: the usual capitalisation.
    pub fn protocol_display(&self) -> (r: &'static str)
        ensures
            r@ == title_from(self@.protocol, 0),
    {
        let mut i: usize = 0;
        while i < PROTOCOL_TITLES.len()
            invariant
                i <= PROTOCOL_TITLES@.len(),
                title_from(self@.protocol, 0) == title_from(self@.protocol, i as int),
            decreases PROTOCOL_TITLES.len() - i,
        {
            if text::same(PROTOCOL_TITLES[i].0, self.protocol) {
                return PROTOCOL_TITLES[i].1;
            }
            i += 1;
        }
        self.protocol
    }
}

/// A fully dissected frame as stored and rendered.
#[derive(Debug)]
pub struct Frame {
    pub number: u32,
    pub ts: Timestamp,
    /// Data source 0: the captured bytes.
    pub bytes: Vec<u8>,
    pub orig_len: u32,
    /// Flattened dissection tree; its roots are the layers, `frame` first.
    pub tree: Tree,
    pub summary: Summary,
    /// Data sources 1..: reassembled buffers referenced by node ranges.
    pub extra_sources: Vec<Vec<u8>>,
}

/// What a frame shows.
#[verifier::ext_equal]
pub struct FrameView {
    pub number: u32,
    pub ts: Timestamp,
    pub bytes: Seq<u8>,
    pub orig_len: u32,
    pub rows: Seq<Row>,
    pub summary: SummaryView,
    pub extra: Seq<Seq<u8>>,
}

impl View for Frame {
    type V = FrameView;

    open spec fn view(&self) -> FrameView {
        FrameView {
            number: self.number,
            ts: self.ts,
            bytes: self.bytes@,
            orig_len: self.orig_len,
            rows: self.tree@,
            summary: self.summary@,
            extra: buffers(self.extra_sources@),
        }
    }
}

/// The bytes of data source `id`: the frame itself, or one of the buffers
/// made while dissecting it.
pub open spec fn source_of(bytes: Seq<u8>, extra: Seq<Seq<u8>>, id: SourceId) -> Option<Seq<u8>> {
    if id == 0 {
        Some(bytes)
    } else if id - 1 < extra.len() {
        Some(extra[id - 1])
    } else {
        None
    }
}

/// The bytes of all buffers together.
pub open spec fn total_len(v: Seq<Seq<u8>>) -> int
    decreases v.len(),
{
    if v.len() == 0 {
        0
    } else {
        total_len(v.drop_last()) + v.last().len()
    }
}

impl Frame {
    /// Bytes of this frame that were captured.
    pub fn caplen(&self) -> (r: usize)
        ensures
            r == self@.bytes.len(),
    {
        self.bytes.len()
    }

    /// Bytes of data source `id`, if it exists.
    pub fn source(&self, id: SourceId) -> (r: Option<&[u8]>)
        ensures
            match r {
                Some(b) => source_of(self@.bytes, self@.extra, id) == Some(b@),
                None => source_of(self@.bytes, self@.extra, id) is None,
            },
    {
        if id == 0 {
            return Some(self.bytes.as_slice());
        }
        let i: usize = id as usize - 1;
        if i < self.extra_sources.len() {
            Some(self.extra_sources[i].as_slice())
        } else {
            None
        }
    }

    /// Memory held by the frame: the struct, the captured bytes, the tree,
    /// the info column and the extra data sources.
    pub open spec fn held(&self) -> int {
        vstd::layout::size_of::<Frame>() + self@.bytes.len() + self.tree.held()
            + vstd::utf8::encode_utf8(self@.summary.info).len() + total_len(self@.extra)
    }

    /// Approximate memory held by this frame, for ring-buffer accounting.
    pub fn approx_size(&self) -> (r: usize)
        ensures
            r == (if self.held() <= usize::MAX {
                self.held()
            } else {
                usize::MAX as int
            }),
    {
        let mut n: usize = core::mem::size_of::<Frame>();
        n = n.saturating_add(self.bytes.len());
        n = n.saturating_add(self.tree.approx_size());
        n = n.saturating_add(self.summary.info.as_str().as_bytes().len());
        let ghost own = vstd::layout::size_of::<Frame>() + self@.bytes.len()
            + self.tree.held() + vstd::utf8::encode_utf8(self@.summary.info).len();
        let ghost extra = self@.extra;
        assert(total_len(extra.take(0)) == 0);
        let mut i: usize = 0;
        while i < self.extra_sources.len()
            invariant
                i <= self.extra_sources@.len(),
                extra == buffers(self.extra_sources@),
                n == (if own + total_len(extra.take(i as int)) <= usize::MAX {
                    own + total_len(extra.take(i as int))
                } else {
                    usize::MAX as int
                }),
            decreases self.extra_sources.len() - i,
        {
            n = n.saturating_add(self.extra_sources[i].len());
            proof {
                assert(extra.take(i + 1).drop_last() =~= extra.take(i as int));
            }
            i += 1;
        }
        assert(extra.take(i as int) =~= extra);
        n
    }

    /// A copy of this frame under another number.
    pub fn renumbered(&self, number: u32) -> (r: Frame)
        ensures
            r@ == (FrameView { number, ..self@ }),
            r.held() == self.held(),
            r.tree.extra_names() == self.tree.extra_names(),
    {
        let ghost all = buffers(self.extra_sources@);
        let mut extra_sources: Vec<Vec<u8>> = Vec::new();
        let mut i: usize = 0;
        assert(buffers(extra_sources@) =~= all.take(0));
        while i < self.extra_sources.len()
            invariant
                i <= self.extra_sources@.len(),
                all == buffers(self.extra_sources@),
                buffers(extra_sources@) == all.take(i as int),
            decreases self.extra_sources.len() - i,
        {
            let ghost before = buffers(extra_sources@);
            let copy: Vec<u8> = bytes::copy_of(self.extra_sources[i].as_slice());
            let ghost added = copy@;
            extra_sources.push(copy);
            assert(buffers(extra_sources@) =~= before.push(added));
            assert(all.take(i + 1) =~= all.take(i as int).push(all[i as int]));
            i += 1;
        }
        assert(buffers(extra_sources@) =~= all);
        Frame {
            number,
            ts: self.ts,
            bytes: bytes::copy_of(self.bytes.as_slice()),
            orig_len: self.orig_len,
            tree: self.tree.copied(),
            summary: self.summary.copied(),
            extra_sources,
        }
    }

    /// Top-level protocol layers, `frame` first.
    pub fn layers(&self) -> (r: Vec<NodeRef<'_>>)
        ensures
            ({
                let at = node::picks(
                    self@.rows,
                    0,
                    self@.rows.len() as int,
                    |x: Row| x.depth == 0,
                );
                r@.len() == at.len() && forall|k: int|
                    0 <= k < at.len() ==> (#[trigger] r@[k]).is_at(self@.rows, at[k])
            }),
            forall|k: int|
                0 <= k < r@.len() ==> (#[trigger] r@[k]).extra_names() == self.tree.extra_names(),
    {
        self.tree.roots()
    }
}

/// Upper bound on chained layers in one frame; guards against a dispatch
/// cycle ever being introduced.
pub const MAX_LAYERS: usize = 32;

/// What the dissector of `proto` makes of `d`.
pub open spec fn layer_of(proto: Proto, d: Seq<u8>, m: Model) -> Outcome {
    match proto {
        Proto::Ethernet => proto::eth::layer(d, m),
        Proto::Null => proto::null::layer(d, m),
        Proto::Vlan => proto::vlan::layer(d, m),
        Proto::Llc => proto::llc::layer(d, m),
        Proto::Arp => proto::arp::layer(d, m),
        Proto::Ipv4 => proto::ipv4::layer(d, m),
        Proto::Ipv6 => proto::ipv6::layer(d, m),
        Proto::Icmp => proto::icmp::layer(d, m),
        Proto::Icmpv6 => proto::icmpv6::layer(d, m),
        Proto::Udp => proto::udp::layer(d, m),
        Proto::Tcp => proto::tcp::layer(d, m),
        Proto::Dns => proto::dns::layer(d, m),
        Proto::Dhcp => proto::dhcp::layer(d, m),
        Proto::Http => proto::http::layer(d, m),
        Proto::Tls => proto::tls::layer(d, m),
        Proto::Data => (data_layer(d, m), None),
    }
}

fn run(proto: Proto, data: &[u8], ctx: &mut Ctx) -> (r: Result<(), DissectError>)
    requires
        addressable(data@, old(ctx)@),
    ensures
        (final(ctx)@, error_of(r)) == layer_of(proto, data@, old(ctx)@),
{
    match proto {
        Proto::Ethernet => proto::eth::dissect(data, ctx),
        Proto::Null => proto::null::dissect(data, ctx),
        Proto::Vlan => proto::vlan::dissect(data, ctx),
        Proto::Llc => proto::llc::dissect(data, ctx),
        Proto::Arp => proto::arp::dissect(data, ctx),
        Proto::Ipv4 => proto::ipv4::dissect(data, ctx),
        Proto::Ipv6 => proto::ipv6::dissect(data, ctx),
        Proto::Icmp => proto::icmp::dissect(data, ctx),
        Proto::Icmpv6 => proto::icmpv6::dissect(data, ctx),
        Proto::Udp => proto::udp::dissect(data, ctx),
        Proto::Tcp => proto::tcp::dissect(data, ctx),
        Proto::Dns => proto::dns::dissect(data, ctx),
        Proto::Dhcp => proto::dhcp::dissect(data, ctx),
        Proto::Http => proto::http::dissect(data, ctx),
        Proto::Tls => proto::tls::dissect(data, ctx),
        Proto::Data => proto::data(data, ctx),
    }
}

/// The first dissector for a link type.
pub open spec fn first_proto(link_type: LinkType) -> Proto {
    let n = link_type.0;
    if n == LINK_ETHERNET {
        Proto::Ethernet
    } else if n == LINK_NULL || n == 108 {
        Proto::Null
    } else if n == LINK_RAW || n == 228 {
        Proto::Ipv4
    } else if n == 229 {
        Proto::Ipv6
    } else {
        Proto::Data
    }
}

/// The first dissector for a link type.
pub fn link_dissector(link_type: LinkType) -> (r: Proto)
    ensures
        r == first_proto(link_type),
{
    let n: i32 = link_type.0;
    if n == LINK_ETHERNET {
        Proto::Ethernet
    } else if n == LINK_NULL || n == 108 {
        Proto::Null
    } else if n == LINK_RAW || n == 228 {
        Proto::Ipv4
    } else if n == 229 {
        Proto::Ipv6
    } else {
        Proto::Data
    }
}

// ---- the frame pseudo-layer -----------------------------------------------------

/// The rows of the `frame` pseudo-layer in front of its protocol list.
pub open spec fn frame_rows(
    m: Model,
    number: u32,
    ts: Timestamp,
    caplen: int,
    orig_len: u32,
    link_type: LinkType,
) -> Model {
    m.begin("frame"@, 0, caplen).leaf(
        "frame.number"@,
        0,
        0,
        ValueView::Unsigned(number as u64),
    ).leaf(
        "frame.time_epoch"@,
        0,
        0,
        ValueView::Str(signed(ts.secs as int) + "."@ + padded(dec(ts.nanos as int), 9)),
    ).leaf("frame.len"@, 0, 0, ValueView::Unsigned(orig_len as u64)).leaf(
        "frame.cap_len"@,
        0,
        0,
        ValueView::Unsigned(caplen as u64),
    ).leaf(
        "frame.encap_type"@,
        0,
        0,
        ValueView::Unsigned(
            (if link_type.0 < 0 {
                0
            } else {
                link_type.0
            }) as u64,
        ),
    )
}

/// Write the `frame` pseudo-layer. Returns the id of `frame.protocols`, whose
/// value is filled in once the chain has run.
fn frame_layer(
    ctx: &mut Ctx,
    number: u32,
    ts: Timestamp,
    caplen: usize,
    orig_len: u32,
    link_type: LinkType,
) -> (r: NodeId)
    ensures
        ({
            let m = frame_rows(old(ctx)@, number, ts, caplen as int, orig_len, link_type);
            &&& r == m.count()
            &&& final(ctx)@ == m.leaf("frame.protocols"@, 0, 0, ValueView::Str(""@)).end()
        }),
{
    let encap: u64 = if link_type.0 < 0 {
        0
    } else {
        link_type.0 as u64
    };
    let mut epoch: String = String::new();
    text::push_signed(&mut epoch, ts.secs);
    epoch.push_str(".");
    text::push_dec_padded(&mut epoch, ts.nanos as u64, 9);
    let _ = ctx.begin("frame", 0..caplen);
    let _ = ctx.leaf("frame.number", 0..0, Value::Unsigned(number as u64));
    let _ = ctx.leaf("frame.time_epoch", 0..0, Value::Str(epoch));
    let _ = ctx.leaf("frame.len", 0..0, Value::Unsigned(orig_len as u64));
    let _ = ctx.leaf("frame.cap_len", 0..0, Value::Unsigned(caplen as u64));
    let _ = ctx.leaf("frame.encap_type", 0..0, Value::Unsigned(encap));
    let id: usize = ctx.leaf("frame.protocols", 0..0, Value::Str(text::owned("")));
    ctx.end();
    id
}

// ---- the chain of layers --------------------------------------------------------

/// The bytes a layer gets to see.
pub open spec fn exposed(owned: Seq<u8>, offset: int, len: Option<usize>) -> Seq<u8> {
    let end = match len {
        Some(l) => if offset + l < owned.len() {
            offset + l
        } else {
            owned.len() as int
        },
        None => owned.len() as int,
    };
    if offset <= end {
        owned.subrange(offset, end)
    } else {
        Seq::empty()
    }
}

fn expose(owned: &[u8], offset: usize, len: Option<usize>) -> (r: &[u8])
    ensures
        r@ == exposed(owned@, offset as int, len),
        offset + r@.len() <= usize::MAX,
{
    let n: usize = owned.len();
    if offset > n {
        let r = bytes::part(owned, 0, 0);
        assert(r@ =~= exposed(owned@, offset as int, len));
        return r;
    }
    let end: usize = match len {
        Some(l) => if l < n - offset {
            offset + l
        } else {
            n
        },
        None => n,
    };
    bytes::part(owned, offset, end)
}

/// The label of a layer that could not be parsed.
pub open spec fn malformed_text(proto: Proto, e: DissectError) -> Seq<char> {
    "[Malformed Packet: "@ + proto.called() + "] "@ + e.message()
}

/// The layer could not be parsed: what it left open is closed, its own row
/// covers the fields it did parse, a malformed row covers the rest of the
/// data source, and the bytes it could not consume stand beneath that row.
pub open spec fn malformed(
    proto: Proto,
    e: DissectError,
    offset: int,
    source_len: int,
    d: Seq<u8>,
    before: Model,
    m: Model,
) -> Model {
    let m = m.at_depth(before.trace.depth as int);
    let m = if m.count() > before.count() {
        m.fit_range(before.count())
    } else {
        m
    };
    let label = malformed_text(proto, e);
    let m = m.begin_text("_ws.malformed"@, offset, source_len, label);
    let m = if offset < source_len {
        data_layer(d, m.with_base(offset))
    } else {
        m
    };
    m.end().set_info(label).named(proto.called()).next_taken()
}

fn give_up(
    proto: Proto,
    e: DissectError,
    offset: usize,
    source_len: usize,
    data: &[u8],
    depth: u8,
    rows: usize,
    Ghost(before): Ghost<Model>,
    ctx: &mut Ctx,
)
    requires
        offset + data@.len() <= usize::MAX,
        depth == before.trace.depth,
        rows == before.count(),
    ensures
        final(ctx)@ == malformed(
            proto,
            e,
            offset as int,
            source_len as int,
            data@,
            before,
            old(ctx)@,
        ),
{
    ctx.restore_depth(depth);
    if ctx.count() > rows {
        ctx.fit_range(rows);
    }
    let mut label: String = text::cat("[Malformed Packet: ", proto.name());
    label.push_str("] ");
    label.push_str(e.text().as_str());
    let _ = ctx.begin_text("_ws.malformed", offset..source_len, label.as_str());
    if offset < source_len {
        ctx.set_base(offset);
        proof {
            reveal(Model::with_base);
        }
        let _ = proto::data(data, ctx);
    }
    ctx.end();
    ctx.set_info(label);
    ctx.set_name(proto.name());
    let _ = ctx.take_next();
}

/// The layers from `h` on, at most `n` of them.
pub open spec fn chain(bytes: Seq<u8>, h: Handoff, n: nat, m: Model) -> Model
    decreases n,
{
    if n == 0 {
        m
    } else {
        match source_of(bytes, m.extra, h.source) {
            None => m,
            Some(owned) => {
                let d = exposed(owned, h.offset as int, h.len);
                let before = m.in_source(h.source).with_base(h.offset as int);
                let (after, e) = layer_of(h.proto, d, before);
                match e {
                    Some(e) => malformed(
                        h.proto,
                        e,
                        h.offset as int,
                        owned.len() as int,
                        d,
                        before,
                        after,
                    ),
                    None => match after.next {
                        Some(next) => chain(bytes, next, (n - 1) as nat, after.next_taken()),
                        None => after.next_taken(),
                    },
                }
            },
        }
    }
}

/// Run one layer; the next one, if the chain goes on.
fn one_layer(bytes: &[u8], h: Handoff, ctx: &mut Ctx) -> (r: Option<Handoff>)
    ensures
        forall|n: nat|
            n > 0 ==> #[trigger] chain(bytes@, h, n, old(ctx)@) == (match r {
                Some(next) => chain(bytes@, next, (n - 1) as nat, final(ctx)@),
                None => final(ctx)@,
            }),
{
    let buffer: Vec<u8>;
    let owned: &[u8] = if h.source == 0 {
        bytes
    } else {
        let i: usize = h.source as usize - 1;
        if i >= ctx.source_count() {
            return None;
        }
        buffer = ctx.source_bytes(i);
        buffer.as_slice()
    };
    assert(source_of(bytes@, ctx@.extra, h.source) == Some(owned@));
    let data: &[u8] = expose(owned, h.offset, h.len);
    ctx.in_source(h.source);
    ctx.set_base(h.offset);
    let ghost before = ctx@;
    let depth: u8 = ctx.depth();
    let rows: usize = ctx.count();
    proof {
        reveal(Model::with_base);
    }
    match run(h.proto, data, ctx) {
        Err(e) => {
            give_up(h.proto, e, h.offset, owned.len(), data, depth, rows, Ghost(before), ctx);
            None
        },
        Ok(()) => ctx.take_next(),
    }
}

// ---- a whole frame --------------------------------------------------------------

/// No byte is set.
pub open spec fn all_zero(d: Seq<u8>) -> bool {
    forall|i: int| 0 <= i < d.len() ==> d[i] == 0
}

fn is_zero(d: &[u8]) -> (r: bool)
    ensures
        r == all_zero(d@),
{
    let mut i: usize = 0;
    while i < d.len()
        invariant
            i <= d@.len(),
            forall|j: int| 0 <= j < i ==> d@[j] == 0,
        decreases d.len() - i,
    {
        if d[i] != 0 {
            return false;
        }
        i += 1;
    }
    true
}

/// Bytes of the frame that no layer claimed, from row `first` on, are Ethernet
/// padding or a trailer.
pub open spec fn with_tail(bytes: Seq<u8>, first: int, m: Model) -> Model {
    let covered = furthest(m.trace.rows, first, 0, 0);
    let n = bytes.len() as int;
    if covered < n {
        let tail = bytes.subrange(covered, n);
        let (abbrev, label) = if m.link_type.0 == LINK_ETHERNET {
            if all_zero(tail) {
                ("eth.padding"@, "Padding: "@)
            } else {
                ("eth.trailer"@, "Trailer: "@)
            }
        } else {
            ("data.data"@, "Trailing data: "@)
        };
        m.in_source(0).leaf_text(
            abbrev,
            covered,
            n,
            ValueView::Bytes,
            label + dec(n - covered) + " bytes"@,
        )
    } else {
        m
    }
}

/// Account for the bytes that no layer claimed once here, where the whole
/// frame is visible, rather than hanging them off a layer whose range does not
/// cover them.
fn write_tail(bytes: &[u8], first: usize, ctx: &mut Ctx)
    ensures
        final(ctx)@ == with_tail(bytes@, first as int, old(ctx)@),
{
    let covered: usize = ctx.furthest_end(first, 0, 0);
    let n: usize = bytes.len();
    if covered < n {
        let tail: &[u8] = bytes::part(bytes, covered, n);
        let abbrev: &'static str;
        let label: &'static str;
        if ctx.link_type().0 == LINK_ETHERNET {
            if is_zero(tail) {
                abbrev = "eth.padding";
                label = "Padding: ";
            } else {
                abbrev = "eth.trailer";
                label = "Trailer: ";
            }
        } else {
            abbrev = "data.data";
            label = "Trailing data: ";
        }
        ctx.in_source(0);
        let shown: String = text::cat_dec(label, (n - covered) as u64, " bytes");
        let _ = ctx.leaf_text(abbrev, covered..n, Value::Bytes, shown.as_str());
    }
}

/// All there is to say of a frame, after the last layer.
pub open spec fn dissected(
    link_type: LinkType,
    number: u32,
    ts: Timestamp,
    orig_len: u32,
    bytes: Seq<u8>,
    state: state::StateView,
    options: Options,
) -> Model {
    let start = untouched(link_type, number, ts, state, options);
    let head = frame_rows(start, number, ts, bytes.len() as int, orig_len, link_type);
    let m = head.leaf("frame.protocols"@, 0, 0, ValueView::Str(""@)).end();
    let first = Handoff { proto: first_proto(link_type), source: 0, offset: 0, len: None };
    let m = with_tail(bytes, m.count(), chain(bytes, first, MAX_LAYERS as nat, m));
    let m = m.set_value(head.count(), ValueView::Str(joined(m.protocols, ":"@)));
    if m.summary.protocol.len() == 0 {
        m.named("RAW"@)
    } else {
        m
    }
}

/// Frame `f` is the raw frame `raw` dissected as `m`, which leaves `state`
/// behind. Its rows are kept in their compact form: places, names and numbers
/// always, strings as long as they can be addressed.
pub open spec fn frame_from(
    m: Model,
    number: u32,
    raw: RawView,
    f: FrameView,
    state: state::StateView,
) -> bool {
    &&& state == m.state
    &&& f.number == number
    &&& f.ts == raw.ts
    &&& f.orig_len == raw.orig_len
    &&& f.bytes == raw.bytes
    &&& f.summary == m.summary
    &&& f.extra == m.extra
    &&& outlines(f.rows, m.trace.rows)
    &&& packable(m.trace.rows) ==> f.rows == all_kept(m.trace.rows)
}

fn join_names(v: &[&'static str]) -> (r: String)
    ensures
        r@ == joined(names(v@), ":"@),
{
    let mut out: Vec<String> = Vec::new();
    let mut i: usize = 0;
    while i < v.len()
        invariant
            i <= v@.len(),
            text::texts(out@) =~= names(v@).take(i as int),
        decreases v.len() - i,
    {
        text::push_text(&mut out, text::owned(v[i]));
        i += 1;
    }
    assert(names(v@).take(i as int) =~= names(v@));
    text::join(&out, ":")
}

/// Dissect one raw frame. Never panics on any input.
pub fn dissect(link_type: LinkType, number: u32, raw: RawFrame, state: &mut State) -> (r: Frame)
    ensures
        frame_from(
            dissected(
                link_type,
                number,
                raw.ts,
                raw.orig_len,
                raw.bytes@,
                old(state)@,
                (Options { validate_ip_checksums: true, validate_transport_checksums: true }),
            ),
            number,
            raw@,
            r@,
            final(state)@,
        ),
        forall|i: int|
            0 <= i < r@.rows.len() ==> #[trigger] ranges::frame::lies_inside(
                r@.bytes,
                r@.extra,
                r@.rows[i],
            ),
        raw.bytes@.len() <= 0xffff_ffff ==> r@.rows.len() > 0 && ranges::frame::leads(
            r@.rows[0],
            raw.bytes@.len() as int,
        ),
        nesting::frame::addressable(r@.extra, r@.bytes.len() as int) ==> nesting::all_nested(
            r@.rows,
        ),
        forall|i: int|
            0 <= i < r@.rows.len() ==> registry::index_of((#[trigger] r@.rows[i]).abbrev) is Some,
        r.tree.extra_names() == Seq::<Seq<char>>::empty(),
        ({
            let rows = dissected(
                link_type,
                number,
                raw.ts,
                raw.orig_len,
                raw.bytes@,
                old(state)@,
                (Options { validate_ip_checksums: true, validate_transport_checksums: true }),
            ).trace.rows;
            rows_bytes(rows) <= 0xffff_ffff ==> r@.rows == all_kept(rows) && r.tree.held() == 28
                * rows.len() + rows_bytes(rows)
        }),
        forall|i: int, data: Seq<u8>|
            0 <= i < r@.rows.len() ==> (#[trigger] registry::label_of(r@.rows, i, data)).len() > 0,
{
    dissect_with(link_type, number, raw, state, Options::default())
}

/// Dissect under explicit settings. Only what a dissector *reports* differs;
/// the tree has the same shape either way.
pub fn dissect_with(
    link_type: LinkType,
    number: u32,
    raw: RawFrame,
    state: &mut State,
    options: Options,
) -> (r: Frame)
    ensures
        frame_from(
            dissected(
                link_type,
                number,
                raw.ts,
                raw.orig_len,
                raw.bytes@,
                old(state)@,
                options,
            ),
            number,
            raw@,
            r@,
            final(state)@,
        ),
        forall|i: int|
            0 <= i < r@.rows.len() ==> #[trigger] ranges::frame::lies_inside(
                r@.bytes,
                r@.extra,
                r@.rows[i],
            ),
        raw.bytes@.len() <= 0xffff_ffff ==> r@.rows.len() > 0 && ranges::frame::leads(
            r@.rows[0],
            raw.bytes@.len() as int,
        ),
        nesting::frame::addressable(r@.extra, r@.bytes.len() as int) ==> nesting::all_nested(
            r@.rows,
        ),
        ranges::names::unasked(options) ==> forall|i: int|
            0 <= i < r@.rows.len() ==> !(#[trigger] ranges::names::gives_verdict(r@.rows[i])),
        forall|i: int|
            0 <= i < r@.rows.len() ==> registry::index_of((#[trigger] r@.rows[i]).abbrev) is Some,
        r.tree.extra_names() == Seq::<Seq<char>>::empty(),
        ({
            let rows = dissected(
                link_type,
                number,
                raw.ts,
                raw.orig_len,
                raw.bytes@,
                old(state)@,
                options,
            ).trace.rows;
            rows_bytes(rows) <= 0xffff_ffff ==> r@.rows == all_kept(rows) && r.tree.held() == 28
                * rows.len() + rows_bytes(rows)
        }),
        forall|i: int, data: Seq<u8>|
            0 <= i < r@.rows.len() ==> (#[trigger] registry::label_of(r@.rows, i, data)).len() > 0,
{
    state.reassembly.recall();
    let ghost before = state@;
    let ghost given = raw@;
    let bytes: Vec<u8> = raw.bytes;
    let mut worker: State = State::new();
    std::mem::swap(&mut worker, state);
    let mut ctx: Ctx = Ctx::with_options(link_type, number, raw.ts, worker, options);
    // The `frame` pseudo-layer comes first; its protocol list is patched in
    // once every layer has run.
    let protocols: usize = frame_layer(
        &mut ctx,
        number,
        raw.ts,
        bytes.len(),
        raw.orig_len,
        link_type,
    );
    // The frame layer spans everything; only real layers count as coverage.
    let first: usize = ctx.count();
    let mut next: Option<Handoff> = Some(
        Handoff { proto: link_dissector(link_type), source: 0, offset: 0, len: None },
    );
    let ghost start = ctx@;
    let ghost all = chain(bytes@, next->0, MAX_LAYERS as nat, start);
    let mut left: usize = MAX_LAYERS;
    while left > 0 && next.is_some()
        invariant
            left <= MAX_LAYERS,
            match next {
                Some(h) => all == chain(bytes@, h, left as nat, ctx@),
                None => all == ctx@,
            },
        decreases left,
    {
        if let Some(h) = next {
            next = one_layer(bytes.as_slice(), h, &mut ctx);
        }
        left -= 1;
    }
    write_tail(bytes.as_slice(), first, &mut ctx);
    let chained: String = join_names(ctx.protocols());
    ctx.set_value(protocols, Value::Str(chained));
    if text::is_empty(ctx.protocol()) {
        ctx.set_name("RAW");
    }
    let (tree, summary, extra_sources, worker) = ctx.finish_tree();
    *state = worker;
    let r = Frame {
        number,
        ts: raw.ts,
        bytes,
        orig_len: raw.orig_len,
        tree,
        summary,
        extra_sources,
    };
    proof {
        let after = state@;
        ranges::frame::every_range_lies_inside(
            link_type,
            number,
            given,
            before,
            options,
            r@,
            after,
        );
        if given.bytes.len() <= 0xffff_ffff {
            ranges::frame::frame_row_comes_first(
                link_type,
                number,
                given,
                before,
                options,
                r@,
                after,
            );
        }
        if nesting::frame::addressable(r@.extra, r@.bytes.len() as int) {
            nesting::frame::children_lie_inside_their_parents(
                link_type,
                number,
                given,
                before,
                options,
                r@,
                after,
            );
        }
        ranges::frame::every_field_is_registered(
            link_type,
            number,
            given,
            before,
            options,
            r@,
            after,
        );
        labels::every_row_has_a_label(link_type, number, given, before, options, r@, after);
        if ranges::names::unasked(options) {
            ranges::frame::unasked_checksums_get_no_verdict(
                link_type,
                number,
                given,
                before,
                options,
                r@,
                after,
            );
        }
    }
    r
}

} // verus!
