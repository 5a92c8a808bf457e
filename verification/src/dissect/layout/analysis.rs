//! How the findings of the TCP analysis are shown, and which one a frame is
//! known by.

use vstd::prelude::*;

use super::{finding, nothing_written, under, writing, written, Field};
use crate::dissect::ctx::Model;
use crate::dissect::expert::{Group, Severity};
use crate::dissect::node::ValueView;
use crate::dissect::proto::tcp::{analysis, found};
use crate::dissect::stream::tcp::{no_findings, Findings, SeqFinding};

verus! {

proof fn finding_names()
    ensures
        "tcp.analysis"@.len() == 12,
        "tcp.analysis"@[0] == 't',
        "tcp.analysis.retransmission"@.len() == 27,
        "tcp.analysis.retransmission"@[13] == 'r',
        "tcp.analysis.retransmission"@[0] == 't',
        "tcp.analysis.fast_retransmission"@.len() == 32,
        "tcp.analysis.fast_retransmission"@[13] == 'f',
        "tcp.analysis.fast_retransmission"@[0] == 't',
        "tcp.analysis.spurious_retransmission"@.len() == 36,
        "tcp.analysis.spurious_retransmission"@[13] == 's',
        "tcp.analysis.spurious_retransmission"@[0] == 't',
        "tcp.analysis.out_of_order"@.len() == 25,
        "tcp.analysis.out_of_order"@[13] == 'o',
        "tcp.analysis.out_of_order"@[0] == 't',
        "tcp.analysis.overlap"@.len() == 20,
        "tcp.analysis.overlap"@[13] == 'o',
        "tcp.analysis.overlap"@[0] == 't',
        "tcp.analysis.lost_segment"@.len() == 25,
        "tcp.analysis.lost_segment"@[13] == 'l',
        "tcp.analysis.lost_segment"@[0] == 't',
        "tcp.analysis.duplicate_ack"@.len() == 26,
        "tcp.analysis.duplicate_ack"@[13] == 'd',
        "tcp.analysis.duplicate_ack"@[0] == 't',
        "tcp.analysis.duplicate_ack_num"@.len() == 30,
        "tcp.analysis.duplicate_ack_num"@[13] == 'd',
        "tcp.analysis.duplicate_ack_num"@[0] == 't',
        "tcp.analysis.duplicate_ack_frame"@.len() == 32,
        "tcp.analysis.duplicate_ack_frame"@[13] == 'd',
        "tcp.analysis.duplicate_ack_frame"@[0] == 't',
        "tcp.analysis.zero_window"@.len() == 24,
        "tcp.analysis.zero_window"@[13] == 'z',
        "tcp.analysis.zero_window"@[0] == 't',
        "tcp.analysis.window_full"@.len() == 24,
        "tcp.analysis.window_full"@[13] == 'w',
        "tcp.analysis.window_full"@[0] == 't',
        "tcp.analysis.keep_alive"@.len() == 23,
        "tcp.analysis.keep_alive"@[13] == 'k',
        "tcp.analysis.keep_alive"@[0] == 't',
        "tcp.analysis.ack_lost_segment"@.len() == 29,
        "tcp.analysis.ack_lost_segment"@[13] == 'a',
        "tcp.analysis.ack_lost_segment"@[0] == 't',
        "tcp.analysis.bytes_in_flight"@.len() == 28,
        "tcp.analysis.bytes_in_flight"@[13] == 'b',
        "tcp.analysis.bytes_in_flight"@[0] == 't',
        "_ws.expert"@.len() == 10,
        "_ws.expert"@[0] == '_',
        "_ws.expert.severity"@.len() == 19,
        "_ws.expert.severity"@[13] == 'v',
        "_ws.expert.severity"@[0] == '_',
        "_ws.expert.group"@.len() == 16,
        "_ws.expert.group"@[13] == 'o',
        "_ws.expert.group"@[0] == '_',
        "_ws.malformed"@.len() == 13,
        "_ws.malformed"@[0] == '_',
{
    reveal_strlit("tcp.analysis");
    reveal_strlit("tcp.analysis.retransmission");
    reveal_strlit("tcp.analysis.fast_retransmission");
    reveal_strlit("tcp.analysis.spurious_retransmission");
    reveal_strlit("tcp.analysis.out_of_order");
    reveal_strlit("tcp.analysis.overlap");
    reveal_strlit("tcp.analysis.lost_segment");
    reveal_strlit("tcp.analysis.duplicate_ack");
    reveal_strlit("tcp.analysis.duplicate_ack_num");
    reveal_strlit("tcp.analysis.duplicate_ack_frame");
    reveal_strlit("tcp.analysis.zero_window");
    reveal_strlit("tcp.analysis.window_full");
    reveal_strlit("tcp.analysis.keep_alive");
    reveal_strlit("tcp.analysis.ack_lost_segment");
    reveal_strlit("tcp.analysis.bytes_in_flight");
    reveal_strlit("_ws.expert");
    reveal_strlit("_ws.expert.severity");
    reveal_strlit("_ws.expert.group");
    reveal_strlit("_ws.malformed");
}

/// A finding is shown once, without bytes of its own, where it was found, and
/// not at all otherwise.
pub open spec fn shown_if(
    found: bool,
    name: Seq<char>,
    value: ValueView,
    m: Model,
    after: Model,
) -> bool {
    under(name, written(after, m.count())) == if found {
        seq![Field { abbrev: name, source: m.source, start: 0, end: 0, value }]
    } else {
        Seq::<Field>::empty()
    }
}

/// Every finding is shown under its own name and no other: what the segment
/// repeats or leaves out, acknowledgements that repeat or are for bytes never
/// seen, windows that are closed or full, keep-alives, and the bytes that are
/// on their way.
#[verifier::rlimit(100)]
pub proof fn findings_are_shown(m: Model, f: Findings)
    ensures
        ({
            let after = analysis(m, f);
            let none = ValueView::Empty;
            &&& shown_if(f.zero_window, "tcp.analysis.zero_window"@, none, m, after)
            &&& shown_if(f.window_full, "tcp.analysis.window_full"@, none, m, after)
            &&& shown_if(f.keep_alive, "tcp.analysis.keep_alive"@, none, m, after)
            &&& shown_if(f.ack_lost_segment, "tcp.analysis.ack_lost_segment"@, none, m, after)
            &&& shown_if(
                f.duplicate_ack is Some,
                "tcp.analysis.duplicate_ack"@,
                none,
                m,
                after,
            )
            &&& shown_if(
                f.bytes_in_flight > 0,
                "tcp.analysis.bytes_in_flight"@,
                ValueView::Unsigned(f.bytes_in_flight as u64),
                m,
                after,
            )
            &&& f.duplicate_ack matches Some(d) ==> {
                &&& shown_if(
                    true,
                    "tcp.analysis.duplicate_ack_num"@,
                    ValueView::Unsigned(d.number as u64),
                    m,
                    after,
                )
                &&& shown_if(
                    true,
                    "tcp.analysis.duplicate_ack_frame"@,
                    ValueView::Unsigned(d.frame as u64),
                    m,
                    after,
                )
            }
            &&& shown_if(
                f.sequence == Some(SeqFinding::Retransmission),
                "tcp.analysis.retransmission"@,
                none,
                m,
                after,
            )
            &&& shown_if(
                f.sequence == Some(SeqFinding::FastRetransmission),
                "tcp.analysis.fast_retransmission"@,
                none,
                m,
                after,
            )
            &&& shown_if(
                f.sequence == Some(SeqFinding::SpuriousRetransmission),
                "tcp.analysis.spurious_retransmission"@,
                none,
                m,
                after,
            )
            &&& shown_if(
                f.sequence == Some(SeqFinding::OutOfOrder),
                "tcp.analysis.out_of_order"@,
                none,
                m,
                after,
            )
            &&& shown_if(
                f.sequence == Some(SeqFinding::Overlap),
                "tcp.analysis.overlap"@,
                none,
                m,
                after,
            )
            &&& shown_if(
                f.sequence == Some(SeqFinding::LostSegment),
                "tcp.analysis.lost_segment"@,
                none,
                m,
                after,
            )
        }),
{
    finding_names();
    assert forall|name: Seq<char>| tells(name, f, m) by {
        one_finding(m, f, name);
    }
    assert(tells("tcp.analysis.zero_window"@, f, m));
    assert(tells("tcp.analysis.window_full"@, f, m));
    assert(tells("tcp.analysis.keep_alive"@, f, m));
    assert(tells("tcp.analysis.ack_lost_segment"@, f, m));
    assert(tells("tcp.analysis.duplicate_ack"@, f, m));
    assert(tells("tcp.analysis.duplicate_ack_num"@, f, m));
    assert(tells("tcp.analysis.duplicate_ack_frame"@, f, m));
    assert(tells("tcp.analysis.bytes_in_flight"@, f, m));
    assert(tells("tcp.analysis.retransmission"@, f, m));
    assert(tells("tcp.analysis.fast_retransmission"@, f, m));
    assert(tells("tcp.analysis.spurious_retransmission"@, f, m));
    assert(tells("tcp.analysis.out_of_order"@, f, m));
    assert(tells("tcp.analysis.overlap"@, f, m));
    assert(tells("tcp.analysis.lost_segment"@, f, m));
}

/// The fields behind `s` once a finding is shown there, as far as they are
/// called `name`.
spec fn with_finding(
    s: Seq<Field>,
    is: bool,
    name: Seq<char>,
    own: Seq<char>,
    value: ValueView,
    m: Model,
) -> Seq<Field> {
    if is && name == own {
        s.push(Field { abbrev: name, source: m.source, start: 0, end: 0, value })
    } else {
        s
    }
}

/// What is shown under `name`, finding by finding.
spec fn tells(name: Seq<char>, f: Findings, m: Model) -> bool {
    let none = ValueView::Empty;
    let s = Seq::<Field>::empty();
    let s = match f.sequence {
        Some(x) => with_finding(s, true, name, x.field(), none, m),
        None => s,
    };
    let s = match f.duplicate_ack {
        Some(d) => with_finding(
            with_finding(
                with_finding(s, true, name, "tcp.analysis.duplicate_ack"@, none, m),
                true,
                name,
                "tcp.analysis.duplicate_ack_num"@,
                ValueView::Unsigned(d.number as u64),
                m,
            ),
            true,
            name,
            "tcp.analysis.duplicate_ack_frame"@,
            ValueView::Unsigned(d.frame as u64),
            m,
        ),
        None => s,
    };
    let s = with_finding(s, f.zero_window, name, "tcp.analysis.zero_window"@, none, m);
    let s = with_finding(s, f.window_full, name, "tcp.analysis.window_full"@, none, m);
    let s = with_finding(s, f.keep_alive, name, "tcp.analysis.keep_alive"@, none, m);
    let s = with_finding(s, f.ack_lost_segment, name, "tcp.analysis.ack_lost_segment"@, none, m);
    let s = with_finding(
        s,
        f.bytes_in_flight > 0,
        name,
        "tcp.analysis.bytes_in_flight"@,
        ValueView::Unsigned(f.bytes_in_flight as u64),
        m,
    );
    name != "tcp.analysis"@ && name != "_ws.expert"@ && name != "_ws.expert.severity"@ && name
        != "_ws.expert.group"@ ==> under(name, written(analysis(m, f), m.count())) == s
}

proof fn found_shows(
    m: Model,
    abbrev: Seq<char>,
    severity: Severity,
    why: Seq<char>,
    name: Seq<char>,
    n: int,
)
    requires
        0 <= n <= m.count(),
        abbrev != "_ws.malformed"@,
        name != "_ws.expert"@ && name != "_ws.expert.severity"@ && name != "_ws.expert.group"@,
    ensures
        found(m, abbrev, severity, why).source == m.source,
        found(m, abbrev, severity, why).count() >= m.count(),
        under(name, written(found(m, abbrev, severity, why), n)) == if name == abbrev {
            under(name, written(m, n)).push(
                Field {
                    abbrev: name,
                    source: m.source,
                    start: 0,
                    end: 0,
                    value: ValueView::Empty,
                },
            )
        } else {
            under(name, written(m, n))
        },
{
    broadcast use writing, finding;

    let shown = written(m.expert(abbrev, 0, 0, severity, Group::Sequence, why), n);
    assert(shown == written(found(m, abbrev, severity, why), n));
}

#[verifier::rlimit(80)]
proof fn one_finding(m: Model, f: Findings, name: Seq<char>)
    ensures
        tells(name, f, m),
{
    broadcast use writing, finding;

    finding_names();
    nothing_written(m);
    let n = m.count();
    if name != "tcp.analysis"@ && name != "_ws.expert"@ && name != "_ws.expert.severity"@ && name
        != "_ws.expert.group"@ {
        if f != no_findings() {
            assert forall|x: Model, abbrev: Seq<char>, severity: Severity, why: Seq<char>|
                n <= x.count() && abbrev != "_ws.malformed"@ implies ({
                let y = #[trigger] found(x, abbrev, severity, why);
                &&& y.source == x.source
                &&& y.count() >= x.count()
                &&& under(name, written(y, n)) == if name == abbrev {
                    under(name, written(x, n)).push(
                        Field {
                            abbrev: name,
                            source: x.source,
                            start: 0,
                            end: 0,
                            value: ValueView::Empty,
                        },
                    )
                } else {
                    under(name, written(x, n))
                }
            }) by {
                found_shows(x, abbrev, severity, why, name, n);
            }
        }
    }
}

/// A frame is known by its worst finding, and by the first of those that are
/// as bad.
pub proof fn the_worst_finding_stands_for_the_frame(
    m: Model,
    start: int,
    end: int,
    severity: Severity,
    group: Group,
    summary: Seq<char>,
)
    ensures
        ({
            let after = m.record(start, end, severity, group, summary).summary.expert;
            &&& after is Some
            &&& after->0.severity.rank() >= severity.rank()
            &&& m.summary.expert is None ==> after->0.severity == severity && after->0.summary
                == summary && after->0.group == group
            &&& m.summary.expert matches Some(e) ==> {
                &&& e.severity.rank() >= severity.rank() ==> after == m.summary.expert
                &&& e.severity.rank() < severity.rank() ==> after->0.severity == severity
                    && after->0.summary == summary && after->0.group == group
            }
        }),
        Severity::Error.rank() > Severity::Warn.rank(),
        Severity::Warn.rank() > Severity::Note.rank(),
        Severity::Note.rank() > Severity::Chat.rank(),
        Severity::Chat.rank() > Severity::Comment.rank(),
{
    reveal(Model::record);
}

/// Lost and overlapping bytes are warnings, what repeats or comes late is
/// worth a note.
pub proof fn findings_have_their_weight(s: SeqFinding)
    ensures
        s == SeqFinding::Overlap || s == SeqFinding::LostSegment <==> s.weight() == Severity::Warn,
        !(s == SeqFinding::Overlap || s == SeqFinding::LostSegment) <==> s.weight()
            == Severity::Note,
{
}

} // verus!
