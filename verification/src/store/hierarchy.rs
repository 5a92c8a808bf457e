//! The protocol hierarchy: what the capture is made of.
//!
//! Every frame carries the chain of layers it was dissected as -
//! `eth:ip:tcp:http` - and this folds those chains into a tree with counts
//! at every node. A frame contributes to each protocol on its own chain, so
//! the totals at any one depth add up to the capture, and `eth` is always
//! 100% of an Ethernet capture rather than the small remainder left after
//! its children.
//!
//! Two counts per node, and the difference between them is the useful part:
//! *packets* is every frame passing through the protocol, *end packets* is
//! the frames where it was the last one. A high `tcp` with a low `tcp` end
//! count means the payloads were recognised; the reverse means they were
//! not.

use vstd::prelude::*;

use super::Snapshot;
use crate::dissect::node::{first_named, ValueView};
use crate::dissect::{Frame, FrameView};
use crate::text;

verus! {

/// One protocol in the tree.
#[derive(Debug, Clone, PartialEq, Eq)]
pub struct Row {
    /// Protocol abbrev, e.g. `tcp`.
    pub name: String,
    /// How deep in the chain, for indenting.
    pub depth: usize,
    /// Frames whose chain includes this protocol at this position.
    pub packets: u64,
    pub bytes: u64,
    /// Frames where this was the last protocol in the chain.
    pub end_packets: u64,
    pub end_bytes: u64,
    /// The full chain up to and including this row, for filtering.
    pub chain: Vec<String>,
}

/// What a row shows.
#[verifier::ext_equal]
pub struct RowView {
    pub name: Seq<char>,
    pub depth: int,
    pub packets: int,
    pub bytes: int,
    pub end_packets: int,
    pub end_bytes: int,
    pub chain: Seq<Seq<char>>,
}

impl View for Row {
    type V = RowView;

    open spec fn view(&self) -> RowView {
        RowView {
            name: self.name@,
            depth: self.depth as int,
            packets: self.packets as int,
            bytes: self.bytes as int,
            end_packets: self.end_packets as int,
            end_bytes: self.end_bytes as int,
            chain: text::texts(self.chain@),
        }
    }
}

/// Rows by what they show.
pub open spec fn row_views(v: Seq<Row>) -> Seq<RowView> {
    v.map_values(|r: Row| r@)
}

impl Row {
    /// A display filter selecting the frames this row counts.
    ///
    /// Naming every protocol in the chain, not just the last: `http` alone
    /// would also match HTTP over a different transport, which is not what
    /// the row counted.
    pub fn filter(&self) -> (r: String)
        ensures
            r@ == text::joined(self@.chain, " && "@),
    {
        text::join(&self.chain, " && ")
    }
}

// ---- chains -------------------------------------------------------------------------

/// A frame as the tree counts it: the protocols it went through, and its
/// length on the wire.
#[verifier::ext_equal]
pub struct Trail {
    pub chain: Seq<Seq<char>>,
    pub bytes: int,
}

/// The parts among the first `n` that are not empty.
pub open spec fn nonempty(parts: Seq<Seq<char>>, n: int) -> Seq<Seq<char>>
    decreases n,
{
    if n <= 0 {
        Seq::empty()
    } else if parts[n - 1].len() > 0 {
        nonempty(parts, n - 1).push(parts[n - 1])
    } else {
        nonempty(parts, n - 1)
    }
}

/// The chain a frame was dissected as.
pub open spec fn chain_in(f: FrameView) -> Seq<Seq<char>> {
    match first_named(f.rows, "frame.protocols"@, 0) {
        Some(k) => match f.rows[k].value {
            ValueView::Str(s) => nonempty(
                text::parts(s, ':'),
                text::parts(s, ':').len() as int,
            ),
            _ => Seq::empty(),
        },
        None => Seq::empty(),
    }
}

/// The trails of frames.
pub open spec fn trails(frames: Seq<FrameView>) -> Seq<Trail> {
    frames.map_values(|f: FrameView| Trail { chain: chain_in(f), bytes: f.orig_len as int })
}

fn chain_of(frame: &Frame) -> (r: Vec<Vec<char>>)
    ensures
        text::char_parts(r@) == chain_in(frame@),
{
    let mut out: Vec<Vec<char>> = Vec::new();
    assert(text::char_parts(out@) =~= Seq::empty());
    let found = match frame.tree.first("frame.protocols") {
        Some(n) => n.str_value(),
        None => None,
    };
    if let Some(s) = found {
        let chars: Vec<char> = text::chars_of(s);
        let parts: Vec<Vec<char>> = text::split(&chars, ':');
        let ghost all = text::char_parts(parts@);
        let mut i: usize = 0;
        while i < parts.len()
            invariant
                i <= parts@.len(),
                all == text::char_parts(parts@),
                text::char_parts(out@) == nonempty(all, i as int),
            decreases parts.len() - i,
        {
            assert(all[i as int] == parts@[i as int]@);
            if parts[i].len() > 0 {
                let ghost before = out@;
                let mut p: Vec<char> = Vec::new();
                p.extend_from_slice(&parts[i]);
                assert(p@ =~= parts@[i as int]@);
                out.push(p);
                assert(text::char_parts(out@) =~= text::char_parts(before).push(all[i as int]));
            }
            i += 1;
        }
    }
    out
}

// ---- the tree -------------------------------------------------------------------------

/// The protocols at `depth` among the first `n` trails, in the order they
/// were first seen.
pub open spec fn nexts(all: Seq<Trail>, depth: int, n: int) -> Seq<Seq<char>>
    decreases n,
{
    if n <= 0 {
        Seq::empty()
    } else {
        let before = nexts(all, depth, n - 1);
        let chain = all[n - 1].chain;
        if depth < chain.len() && !before.contains(chain[depth]) {
            before.push(chain[depth])
        } else {
            before
        }
    }
}

/// Whether a trail has `name` at `depth`.
pub open spec fn passes(t: Trail, depth: int, name: Seq<char>) -> bool {
    depth < t.chain.len() && t.chain[depth] == name
}

/// The trails among the first `n` that have `name` at `depth`.
pub open spec fn having(all: Seq<Trail>, depth: int, name: Seq<char>, n: int) -> Seq<Trail>
    decreases n,
{
    if n <= 0 {
        Seq::empty()
    } else if passes(all[n - 1], depth, name) {
        having(all, depth, name, n - 1).push(all[n - 1])
    } else {
        having(all, depth, name, n - 1)
    }
}

/// The trails among the first `n` whose chain is `len` protocols long.
pub open spec fn ending(all: Seq<Trail>, len: int, n: int) -> Seq<Trail>
    decreases n,
{
    if n <= 0 {
        Seq::empty()
    } else if all[n - 1].chain.len() == len {
        ending(all, len, n - 1).push(all[n - 1])
    } else {
        ending(all, len, n - 1)
    }
}

/// The bytes of trails.
pub open spec fn bytes_of(all: Seq<Trail>) -> int
    decreases all.len(),
{
    if all.len() == 0 {
        0
    } else {
        bytes_of(all.drop_last()) + all.last().bytes
    }
}

/// A count as far as counters go.
pub open spec fn clip(n: int) -> int {
    if n > u64::MAX {
        u64::MAX as int
    } else {
        n
    }
}

/// The row for the trails `all`, which share the chain `chain`.
pub open spec fn row_for(all: Seq<Trail>, chain: Seq<Seq<char>>) -> RowView {
    let ends = ending(all, chain.len() as int, all.len() as int);
    RowView {
        name: chain.last(),
        depth: chain.len() - 1,
        packets: all.len() as int,
        bytes: clip(bytes_of(all)),
        end_packets: ends.len() as int,
        end_bytes: clip(bytes_of(ends)),
        chain,
    }
}

/// The rows below `prefix`, which the trails `all` share: for each of the
/// first `k` protocols that follow it, its row and the rows below that.
/// Chains are followed for `levels` protocols more.
pub open spec fn rows_below(
    all: Seq<Trail>,
    prefix: Seq<Seq<char>>,
    k: int,
    levels: nat,
) -> Seq<RowView>
    decreases levels, k,
{
    if levels == 0 || k <= 0 {
        Seq::empty()
    } else {
        let depth = prefix.len() as int;
        let name = nexts(all, depth, all.len() as int)[k - 1];
        let some = having(all, depth, name, all.len() as int);
        let chain = prefix.push(name);
        rows_below(all, prefix, k - 1, levels) + seq![row_for(some, chain)] + rows_below(
            some,
            chain,
            nexts(some, depth + 1, some.len() as int).len() as int,
            (levels - 1) as nat,
        )
    }
}

/// The length of the longest chain.
pub open spec fn longest(all: Seq<Trail>) -> nat
    decreases all.len(),
{
    if all.len() == 0 {
        0
    } else {
        let before = longest(all.drop_last());
        if all.last().chain.len() > before {
            all.last().chain.len()
        } else {
            before
        }
    }
}

/// The whole tree, depth-first, in first-seen order at each level.
pub open spec fn tree_of(all: Seq<Trail>) -> Seq<RowView> {
    rows_below(all, Seq::empty(), nexts(all, 0, all.len() as int).len() as int, longest(all))
}

// ---- building it ------------------------------------------------------------------------

struct Path {
    chain: Vec<Vec<char>>,
    bytes: u32,
}

impl View for Path {
    type V = Trail;

    closed spec fn view(&self) -> Trail {
        Trail { chain: text::char_parts(self.chain@), bytes: self.bytes as int }
    }
}

/// The paths at some positions.
spec fn chosen(paths: Seq<Path>, at: Seq<usize>) -> Seq<Trail> {
    at.map_values(|i: usize| paths[i as int]@)
}

spec fn all_within(at: Seq<usize>, n: int) -> bool {
    forall|i: int| 0 <= i < at.len() ==> #[trigger] at[i] < n
}

fn listed(names: &Vec<Vec<char>>, name: &[char]) -> (r: bool)
    ensures
        r == text::char_parts(names@).contains(name@),
{
    let ghost all = text::char_parts(names@);
    let mut i: usize = 0;
    while i < names.len()
        invariant
            i <= names@.len(),
            all == text::char_parts(names@),
            forall|k: int| 0 <= k < i ==> all[k] != name@,
        decreases names.len() - i,
    {
        assert(all[i as int] == names@[i as int]@);
        if text::same_chars(&names[i], name) {
            return true;
        }
        i += 1;
    }
    false
}

fn copied(name: &[char]) -> (r: Vec<char>)
    ensures
        r@ == name@,
{
    let mut out: Vec<char> = Vec::new();
    out.extend_from_slice(name);
    assert(out@ =~= name@);
    out
}

fn next_names(paths: &Vec<Path>, at: &Vec<usize>, depth: usize) -> (r: Vec<Vec<char>>)
    requires
        all_within(at@, paths@.len() as int),
    ensures
        text::char_parts(r@) == nexts(chosen(paths@, at@), depth as int, at@.len() as int),
{
    let ghost all = chosen(paths@, at@);
    let mut out: Vec<Vec<char>> = Vec::new();
    let mut i: usize = 0;
    assert(text::char_parts(out@) =~= Seq::empty());
    while i < at.len()
        invariant
            i <= at@.len(),
            all == chosen(paths@, at@),
            all_within(at@, paths@.len() as int),
            text::char_parts(out@) == nexts(all, depth as int, i as int),
        decreases at.len() - i,
    {
        let p: &Path = &paths[at[i]];
        assert(all[i as int] == p@);
        if depth < p.chain.len() && !listed(&out, &p.chain[depth]) {
            let ghost before = out@;
            out.push(copied(&p.chain[depth]));
            assert(text::char_parts(out@) =~= text::char_parts(before).push(
                all[i as int].chain[depth as int],
            ));
        }
        i += 1;
    }
    out
}

fn paths_having(paths: &Vec<Path>, at: &Vec<usize>, depth: usize, name: &[char]) -> (r: Vec<usize>)
    requires
        all_within(at@, paths@.len() as int),
    ensures
        all_within(r@, paths@.len() as int),
        chosen(paths@, r@) == having(
            chosen(paths@, at@),
            depth as int,
            name@,
            at@.len() as int,
        ),
{
    let ghost all = chosen(paths@, at@);
    let mut out: Vec<usize> = Vec::new();
    let mut i: usize = 0;
    assert(chosen(paths@, out@) =~= Seq::empty());
    while i < at.len()
        invariant
            i <= at@.len(),
            all == chosen(paths@, at@),
            all_within(at@, paths@.len() as int),
            all_within(out@, paths@.len() as int),
            chosen(paths@, out@) == having(all, depth as int, name@, i as int),
        decreases at.len() - i,
    {
        let p: &Path = &paths[at[i]];
        assert(all[i as int] == p@);
        if depth < p.chain.len() && text::same_chars(&p.chain[depth], name) {
            let ghost before = out@;
            out.push(at[i]);
            assert(chosen(paths@, out@) =~= chosen(paths@, before).push(all[i as int]));
        }
        i += 1;
    }
    out
}

fn paths_ending(paths: &Vec<Path>, at: &Vec<usize>, len: usize) -> (r: Vec<usize>)
    requires
        all_within(at@, paths@.len() as int),
    ensures
        all_within(r@, paths@.len() as int),
        chosen(paths@, r@) == ending(chosen(paths@, at@), len as int, at@.len() as int),
{
    let ghost all = chosen(paths@, at@);
    let mut out: Vec<usize> = Vec::new();
    let mut i: usize = 0;
    assert(chosen(paths@, out@) =~= Seq::empty());
    while i < at.len()
        invariant
            i <= at@.len(),
            all == chosen(paths@, at@),
            all_within(at@, paths@.len() as int),
            all_within(out@, paths@.len() as int),
            chosen(paths@, out@) == ending(all, len as int, i as int),
        decreases at.len() - i,
    {
        let p: &Path = &paths[at[i]];
        assert(all[i as int] == p@);
        if p.chain.len() == len {
            let ghost before = out@;
            out.push(at[i]);
            assert(chosen(paths@, out@) =~= chosen(paths@, before).push(all[i as int]));
        }
        i += 1;
    }
    out
}

fn bytes_at(paths: &Vec<Path>, at: &Vec<usize>) -> (r: u64)
    requires
        all_within(at@, paths@.len() as int),
    ensures
        r == clip(bytes_of(chosen(paths@, at@))),
{
    let ghost all = chosen(paths@, at@);
    let mut sum: u64 = 0;
    let mut i: usize = 0;
    assert(all.take(0) =~= Seq::empty());
    while i < at.len()
        invariant
            i <= at@.len(),
            all == chosen(paths@, at@),
            all_within(at@, paths@.len() as int),
            sum == clip(bytes_of(all.take(i as int))),
            bytes_of(all.take(i as int)) >= 0,
        decreases at.len() - i,
    {
        let p: &Path = &paths[at[i]];
        assert(all.take(i + 1).drop_last() =~= all.take(i as int));
        assert(all.take(i + 1).last() == p@);
        sum = sum.saturating_add(p.bytes as u64);
        i += 1;
    }
    assert(all.take(i as int) =~= all);
    sum
}

fn longest_chain(paths: &Vec<Path>, at: &Vec<usize>) -> (r: usize)
    requires
        all_within(at@, paths@.len() as int),
    ensures
        r == longest(chosen(paths@, at@)),
{
    let ghost all = chosen(paths@, at@);
    let mut most: usize = 0;
    let mut i: usize = 0;
    assert(all.take(0) =~= Seq::empty());
    while i < at.len()
        invariant
            i <= at@.len(),
            all == chosen(paths@, at@),
            all_within(at@, paths@.len() as int),
            most == longest(all.take(i as int)),
        decreases at.len() - i,
    {
        let p: &Path = &paths[at[i]];
        assert(all.take(i + 1).drop_last() =~= all.take(i as int));
        assert(all.take(i + 1).last() == p@);
        if p.chain.len() > most {
            most = p.chain.len();
        }
        i += 1;
    }
    assert(all.take(i as int) =~= all);
    most
}

fn texts_of(prefix: &Vec<Vec<char>>) -> (r: Vec<String>)
    ensures
        text::texts(r@) == text::char_parts(prefix@),
{
    let ghost all = text::char_parts(prefix@);
    let mut out: Vec<String> = Vec::new();
    let mut i: usize = 0;
    assert(text::texts(out@) =~= all.take(0));
    while i < prefix.len()
        invariant
            i <= prefix@.len(),
            all == text::char_parts(prefix@),
            text::texts(out@) == all.take(i as int),
        decreases prefix.len() - i,
    {
        let ghost before = text::texts(out@);
        let s: String = text::from_chars(&prefix[i]);
        let ghost added = s@;
        text::push_text(&mut out, s);
        assert(text::texts(out@) =~= before.push(added));
        assert(text::texts(out@) =~= all.take(i + 1));
        i += 1;
    }
    assert(all.take(i as int) =~= all);
    out
}

fn make_row(paths: &Vec<Path>, at: &Vec<usize>, chain: &Vec<Vec<char>>) -> (r: Row)
    requires
        all_within(at@, paths@.len() as int),
        chain@.len() > 0,
    ensures
        r@ == row_for(chosen(paths@, at@), text::char_parts(chain@)),
{
    let ends: Vec<usize> = paths_ending(paths, at, chain.len());
    let ghost all = chosen(paths@, at@);
    assert(chosen(paths@, ends@).len() == ends@.len());
    Row {
        name: text::from_chars(&chain[chain.len() - 1]),
        depth: chain.len() - 1,
        packets: at.len() as u64,
        bytes: bytes_at(paths, at),
        end_packets: ends.len() as u64,
        end_bytes: bytes_at(paths, &ends),
        chain: texts_of(chain),
    }
}

fn extended(prefix: &Vec<Vec<char>>, name: &[char]) -> (r: Vec<Vec<char>>)
    ensures
        text::char_parts(r@) == text::char_parts(prefix@).push(name@),
{
    let ghost all = text::char_parts(prefix@);
    let mut out: Vec<Vec<char>> = Vec::new();
    let mut i: usize = 0;
    assert(text::char_parts(out@) =~= all.take(0));
    while i < prefix.len()
        invariant
            i <= prefix@.len(),
            all == text::char_parts(prefix@),
            text::char_parts(out@) == all.take(i as int),
        decreases prefix.len() - i,
    {
        let ghost before = text::char_parts(out@);
        out.push(copied(&prefix[i]));
        assert(text::char_parts(out@) =~= before.push(all[i as int]));
        assert(text::char_parts(out@) =~= all.take(i + 1));
        i += 1;
    }
    assert(text::char_parts(out@) =~= all);
    let ghost before = text::char_parts(out@);
    out.push(copied(name));
    assert(text::char_parts(out@) =~= before.push(name@));
    out
}

fn write_below(
    paths: &Vec<Path>,
    at: &Vec<usize>,
    prefix: &Vec<Vec<char>>,
    levels: usize,
    out: &mut Vec<Row>,
)
    requires
        all_within(at@, paths@.len() as int),
    ensures
        row_views(final(out)@) == row_views(old(out)@) + rows_below(
            chosen(paths@, at@),
            text::char_parts(prefix@),
            nexts(
                chosen(paths@, at@),
                prefix@.len() as int,
                at@.len() as int,
            ).len() as int,
            levels as nat,
        ),
    decreases levels,
{
    let ghost all = chosen(paths@, at@);
    let ghost start = row_views(out@);
    let ghost above = text::char_parts(prefix@);
    assert(all.len() == at@.len() && above.len() == prefix@.len());
    if levels == 0 {
        assert(start + Seq::<RowView>::empty() =~= start);
        return;
    }
    let depth: usize = prefix.len();
    let names: Vec<Vec<char>> = next_names(paths, at, depth);
    let ghost following = nexts(all, depth as int, all.len() as int);
    let mut k: usize = 0;
    assert(start + rows_below(all, above, 0, levels as nat) =~= start);
    while k < names.len()
        invariant
            k <= names@.len(),
            0 < levels,
            all == chosen(paths@, at@),
            all.len() == at@.len(),
            above == text::char_parts(prefix@),
            above.len() == prefix@.len() == depth,
            all_within(at@, paths@.len() as int),
            following == nexts(all, depth as int, all.len() as int),
            text::char_parts(names@) == following,
            row_views(out@) == start + rows_below(all, above, k as int, levels as nat),
        decreases names.len() - k,
    {
        let ghost before = row_views(out@);
        let name: &Vec<char> = &names[k];
        assert(following[k as int] == name@);
        let some: Vec<usize> = paths_having(paths, at, depth, name);
        let ghost part = chosen(paths@, some@);
        assert(part.len() == some@.len());
        let chain: Vec<Vec<char>> = extended(prefix, name);
        assert(text::char_parts(chain@).len() == chain@.len());
        let row: Row = make_row(paths, &some, &chain);
        let ghost shown = row@;
        out.push(row);
        assert(row_views(out@) =~= before.push(shown));
        write_below(paths, &some, &chain, levels - 1, out);
        assert(row_views(out@) =~= start + rows_below(all, above, k + 1, levels as nat));
        k += 1;
    }
}

/// Build the hierarchy, depth-first, in first-seen order at each level.
pub fn hierarchy(snapshot: &Snapshot) -> (r: Vec<Row>)
    ensures
        row_views(r@) == tree_of(trails(snapshot@.frames)),
{
    let n: usize = snapshot.len();
    let ghost frames = snapshot@.frames;
    let mut paths: Vec<Path> = Vec::new();
    let mut at: Vec<usize> = Vec::new();
    let mut i: usize = 0;
    while i < n
        invariant
            i <= n == frames.len(),
            frames == snapshot@.frames,
            paths@.len() == i == at@.len(),
            forall|k: int| 0 <= k < i ==> at@[k] == k,
            forall|k: int| 0 <= k < i ==> (#[trigger] paths@[k])@ == trails(frames)[k],
        decreases n - i,
    {
        if let Some(frame) = snapshot.get(i) {
            let path = Path { chain: chain_of(frame), bytes: frame.orig_len };
            assert(path@ == trails(frames)[i as int]);
            paths.push(path);
            at.push(i);
        }
        i += 1;
    }
    assert(chosen(paths@, at@) =~= trails(frames));
    let levels: usize = longest_chain(&paths, &at);
    let prefix: Vec<Vec<char>> = Vec::new();
    let mut out: Vec<Row> = Vec::new();
    write_below(&paths, &at, &prefix, levels, &mut out);
    assert(text::char_parts(prefix@) =~= Seq::empty());
    assert(row_views(out@) =~= tree_of(trails(frames)));
    out
}

// ---- totals -------------------------------------------------------------------------------

/// Totals for the percentage columns.
#[derive(Debug, Clone, Copy, Default, PartialEq, Eq)]
pub struct Totals {
    pub packets: u64,
    pub bytes: u64,
}

/// Every frame held, and their bytes.
pub fn totals(snapshot: &Snapshot) -> (r: Totals)
    ensures
        r.packets == snapshot@.frames.len(),
        r.bytes == clip(bytes_of(trails(snapshot@.frames))),
{
    let n: usize = snapshot.len();
    let ghost all = trails(snapshot@.frames);
    let mut bytes: u64 = 0;
    let mut i: usize = 0;
    assert(all.take(0) =~= Seq::empty());
    while i < n
        invariant
            i <= n == all.len(),
            all == trails(snapshot@.frames),
            bytes == clip(bytes_of(all.take(i as int))),
            bytes_of(all.take(i as int)) >= 0,
        decreases n - i,
    {
        if let Some(frame) = snapshot.get(i) {
            assert(all.take(i + 1).drop_last() =~= all.take(i as int));
            assert(all.take(i + 1).last() == all[i as int]);
            bytes = bytes.saturating_add(frame.orig_len as u64);
        }
        i += 1;
    }
    assert(all.take(i as int) =~= all);
    Totals { packets: n as u64, bytes }
}

// ---- what adds up -------------------------------------------------------------------------

/// How many of the first `n` trails go deeper than `depth`.
pub open spec fn deeper(all: Seq<Trail>, depth: int, n: int) -> int
    decreases n,
{
    if n <= 0 {
        0
    } else {
        deeper(all, depth, n - 1) + if depth < all[n - 1].chain.len() {
            1int
        } else {
            0
        }
    }
}

/// The trails among the first `n` with each of the first `k` names at
/// `depth`, added up.
pub open spec fn through(
    all: Seq<Trail>,
    depth: int,
    names: Seq<Seq<char>>,
    k: int,
    n: int,
) -> int
    decreases k,
{
    if k <= 0 {
        0
    } else {
        through(all, depth, names, k - 1, n) + having(all, depth, names[k - 1], n).len()
    }
}

/// The packets of the rows directly below a row add up to the frames that
/// went deeper than it, and those at the top to every frame with a chain.
pub proof fn a_level_accounts_for_every_frame(all: Seq<Trail>, depth: int)
    requires
        0 <= depth,
    ensures
        ({
            let names = nexts(all, depth, all.len() as int);
            through(all, depth, names, names.len() as int, all.len() as int) == deeper(
                all,
                depth,
                all.len() as int,
            )
        }),
{
    let n = all.len() as int;
    let names = nexts(all, depth, n);
    lemma_nexts(all, depth, n);
    lemma_through(all, depth, names, n);
}

proof fn lemma_nexts(all: Seq<Trail>, depth: int, n: int)
    requires
        0 <= n <= all.len(),
    ensures
        forall|i: int, j: int|
            0 <= i < j < nexts(all, depth, n).len() ==> nexts(all, depth, n)[i] != nexts(
                all,
                depth,
                n,
            )[j],
        forall|i: int|
            0 <= i < n && depth < (#[trigger] all[i]).chain.len() ==> nexts(
                all,
                depth,
                n,
            ).contains(all[i].chain[depth]),
    decreases n,
{
    if n > 0 {
        lemma_nexts(all, depth, n - 1);
        let before = nexts(all, depth, n - 1);
        let now = nexts(all, depth, n);
        let chain = all[n - 1].chain;
        assert forall|i: int| 0 <= i < n && depth < (#[trigger] all[i]).chain.len() implies now.contains(
            all[i].chain[depth],
        ) by {
            if i < n - 1 {
                let k = choose|k: int|
                    0 <= k < before.len() && before[k] == all[i].chain[depth];
                assert(now[k] == before[k]);
            } else if !before.contains(chain[depth]) {
                assert(now[before.len() as int] == chain[depth]);
            }
        }
        if depth < chain.len() && !before.contains(chain[depth]) {
            assert forall|i: int, j: int| 0 <= i < j < now.len() implies now[i] != now[j] by {
                if j == before.len() {
                    assert(before.contains(before[i]));
                }
            }
        }
    }
}

proof fn lemma_through(all: Seq<Trail>, depth: int, names: Seq<Seq<char>>, n: int)
    requires
        0 <= n <= all.len(),
        forall|i: int, j: int| 0 <= i < j < names.len() ==> names[i] != names[j],
        forall|i: int|
            0 <= i < all.len() && depth < (#[trigger] all[i]).chain.len() ==> names.contains(
                all[i].chain[depth],
            ),
    ensures
        through(all, depth, names, names.len() as int, n) == deeper(all, depth, n),
    decreases n,
{
    if n > 0 {
        lemma_through(all, depth, names, n - 1);
        lemma_one_more(all, depth, names, names.len() as int, n);
    } else {
        lemma_none(all, depth, names, names.len() as int);
    }
}

proof fn lemma_none(all: Seq<Trail>, depth: int, names: Seq<Seq<char>>, k: int)
    ensures
        through(all, depth, names, k, 0) == 0,
    decreases k,
{
    if k > 0 {
        lemma_none(all, depth, names, k - 1);
    }
}

proof fn lemma_one_more(all: Seq<Trail>, depth: int, names: Seq<Seq<char>>, k: int, n: int)
    requires
        0 < n <= all.len(),
        0 <= k <= names.len(),
        forall|i: int, j: int| 0 <= i < j < names.len() ==> names[i] != names[j],
    ensures
        through(all, depth, names, k, n) == through(all, depth, names, k, n - 1) + if depth
            < all[n - 1].chain.len() && names.take(k).contains(all[n - 1].chain[depth]) {
            1int
        } else {
            0
        },
        names.take(names.len() as int) == names,
    decreases k,
{
    assert(names.take(names.len() as int) =~= names);
    if k > 0 {
        lemma_one_more(all, depth, names, k - 1, n);
        let chain = all[n - 1].chain;
        if depth < chain.len() {
            let name = chain[depth];
            if names[k - 1] == name {
                assert(names.take(k)[k - 1] == name);
                assert(!names.take(k - 1).contains(name));
            } else if names.take(k).contains(name) {
                let j = choose|j: int| 0 <= j < k && names.take(k)[j] == name;
                assert(names.take(k - 1)[j] == name);
            } else if names.take(k - 1).contains(name) {
                let fewer = names.take(k - 1);
                let j = choose|j: int| 0 <= j < fewer.len() && fewer[j] == name;
                assert(names.take(k)[j] == name);
            }
        }
    }
}

/// The frames of a row are those that ended with its protocol and those that
/// went on below it.
pub proof fn a_row_ends_or_goes_on(all: Seq<Trail>, depth: int, name: Seq<char>)
    requires
        0 <= depth,
    ensures
        ({
            let some = having(all, depth, name, all.len() as int);
            some.len() == ending(some, depth + 1, some.len() as int).len() + deeper(
                some,
                depth + 1,
                some.len() as int,
            )
        }),
{
    let some = having(all, depth, name, all.len() as int);
    lemma_having(all, depth, name, all.len() as int);
    lemma_split(some, depth + 1, some.len() as int);
}

proof fn lemma_having(all: Seq<Trail>, depth: int, name: Seq<char>, n: int)
    requires
        0 <= n <= all.len(),
    ensures
        forall|i: int|
            0 <= i < having(all, depth, name, n).len() ==> depth < (#[trigger] having(
                all,
                depth,
                name,
                n,
            )[i]).chain.len(),
    decreases n,
{
    if n > 0 {
        lemma_having(all, depth, name, n - 1);
        let before = having(all, depth, name, n - 1);
        let now = having(all, depth, name, n);
        assert forall|i: int| 0 <= i < now.len() implies depth < (#[trigger] now[i]).chain.len() by {
            if i < before.len() {
                assert(now[i] == before[i]);
            }
        }
    }
}

proof fn lemma_split(some: Seq<Trail>, len: int, n: int)
    requires
        0 <= n <= some.len(),
        forall|i: int| 0 <= i < some.len() ==> len <= (#[trigger] some[i]).chain.len(),
    ensures
        n == ending(some, len, n).len() + deeper(some, len, n),
    decreases n,
{
    if n > 0 {
        lemma_split(some, len, n - 1);
    }
}

/// The bytes of those of the first `n` trails that go deeper than `depth`.
pub open spec fn deeper_bytes(all: Seq<Trail>, depth: int, n: int) -> int
    decreases n,
{
    if n <= 0 {
        0
    } else {
        deeper_bytes(all, depth, n - 1) + if depth < all[n - 1].chain.len() {
            all[n - 1].bytes
        } else {
            0
        }
    }
}

/// The bytes of the trails among the first `n` with each of the first `k`
/// names at `depth`, added up.
pub open spec fn through_bytes(
    all: Seq<Trail>,
    depth: int,
    names: Seq<Seq<char>>,
    k: int,
    n: int,
) -> int
    decreases k,
{
    if k <= 0 {
        0
    } else {
        through_bytes(all, depth, names, k - 1, n) + bytes_of(having(all, depth, names[k - 1], n))
    }
}

/// The bytes of the rows directly below a row add up to those of the frames
/// that went deeper than it, and those at the top to the bytes of every frame
/// with a chain.
pub proof fn a_level_accounts_for_every_byte(all: Seq<Trail>, depth: int)
    requires
        0 <= depth,
    ensures
        ({
            let names = nexts(all, depth, all.len() as int);
            through_bytes(all, depth, names, names.len() as int, all.len() as int) == deeper_bytes(
                all,
                depth,
                all.len() as int,
            )
        }),
{
    let n = all.len() as int;
    let names = nexts(all, depth, n);
    lemma_nexts(all, depth, n);
    lemma_through_bytes(all, depth, names, n);
}

proof fn lemma_through_bytes(all: Seq<Trail>, depth: int, names: Seq<Seq<char>>, n: int)
    requires
        0 <= n <= all.len(),
        forall|i: int, j: int| 0 <= i < j < names.len() ==> names[i] != names[j],
        forall|i: int|
            0 <= i < all.len() && depth < (#[trigger] all[i]).chain.len() ==> names.contains(
                all[i].chain[depth],
            ),
    ensures
        through_bytes(all, depth, names, names.len() as int, n) == deeper_bytes(all, depth, n),
    decreases n,
{
    if n > 0 {
        lemma_through_bytes(all, depth, names, n - 1);
        lemma_bytes_of_one_more(all, depth, names, names.len() as int, n);
    } else {
        lemma_no_bytes(all, depth, names, names.len() as int);
    }
}

proof fn lemma_no_bytes(all: Seq<Trail>, depth: int, names: Seq<Seq<char>>, k: int)
    ensures
        through_bytes(all, depth, names, k, 0) == 0,
    decreases k,
{
    if k > 0 {
        lemma_no_bytes(all, depth, names, k - 1);
    }
}

proof fn lemma_bytes_of_one_more(
    all: Seq<Trail>,
    depth: int,
    names: Seq<Seq<char>>,
    k: int,
    n: int,
)
    requires
        0 < n <= all.len(),
        0 <= k <= names.len(),
        forall|i: int, j: int| 0 <= i < j < names.len() ==> names[i] != names[j],
    ensures
        through_bytes(all, depth, names, k, n) == through_bytes(all, depth, names, k, n - 1) + if depth
            < all[n - 1].chain.len() && names.take(k).contains(all[n - 1].chain[depth]) {
            all[n - 1].bytes
        } else {
            0
        },
        names.take(names.len() as int) == names,
    decreases k,
{
    assert(names.take(names.len() as int) =~= names);
    if k > 0 {
        lemma_bytes_of_one_more(all, depth, names, k - 1, n);
        let chain = all[n - 1].chain;
        let before = having(all, depth, names[k - 1], n - 1);
        assert(before.push(all[n - 1]).drop_last() =~= before);
        if depth < chain.len() {
            let name = chain[depth];
            if names[k - 1] == name {
                assert(names.take(k)[k - 1] == name);
                assert(!names.take(k - 1).contains(name));
            } else if names.take(k).contains(name) {
                let j = choose|j: int| 0 <= j < k && names.take(k)[j] == name;
                assert(names.take(k - 1)[j] == name);
            } else if names.take(k - 1).contains(name) {
                let fewer = names.take(k - 1);
                let j = choose|j: int| 0 <= j < fewer.len() && fewer[j] == name;
                assert(names.take(k)[j] == name);
            }
        }
    }
}

/// The bytes of a row are those of the frames that ended with its protocol and
/// of those that went on below it.
pub proof fn the_bytes_of_a_row_end_or_go_on(all: Seq<Trail>, depth: int, name: Seq<char>)
    requires
        0 <= depth,
    ensures
        ({
            let some = having(all, depth, name, all.len() as int);
            bytes_of(some) == bytes_of(ending(some, depth + 1, some.len() as int)) + deeper_bytes(
                some,
                depth + 1,
                some.len() as int,
            )
        }),
{
    let some = having(all, depth, name, all.len() as int);
    lemma_having(all, depth, name, all.len() as int);
    lemma_split_bytes(some, depth + 1, some.len() as int);
    assert(some.take(some.len() as int) =~= some);
}

proof fn lemma_split_bytes(some: Seq<Trail>, len: int, n: int)
    requires
        0 <= n <= some.len(),
        forall|i: int| 0 <= i < some.len() ==> len <= (#[trigger] some[i]).chain.len(),
    ensures
        bytes_of(some.take(n)) == bytes_of(ending(some, len, n)) + deeper_bytes(some, len, n),
    decreases n,
{
    if n > 0 {
        lemma_split_bytes(some, len, n - 1);
        assert(some.take(n).drop_last() =~= some.take(n - 1));
        assert(some.take(n).last() == some[n - 1]);
        let before = ending(some, len, n - 1);
        assert(before.push(some[n - 1]).drop_last() =~= before);
    } else {
        assert(some.take(n) =~= Seq::empty());
    }
}

} // verus!
