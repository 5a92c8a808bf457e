//! Expert information: things worth telling the user about a frame.
//!
//! A finding carries a severity and a group, so the packet list can rank
//! frames by how much they warrant a look and a filter can select on
//! `_ws.expert.severity >= "Warning"`. Findings are tree nodes like anything
//! else; the frame additionally remembers the worst one.

use vstd::prelude::*;

verus! {

/// How much attention a finding deserves. Ordered, so the worst one wins.
#[derive(Debug, Clone, Copy, PartialEq, Eq, PartialOrd, Ord, Structural)]
pub enum Severity {
    /// A note in passing; never the reason to look at a frame.
    Comment,
    /// Normal protocol activity worth pointing out.
    Chat,
    /// Unusual but legal.
    Note,
    /// Probably a problem.
    Warn,
    /// Certainly a problem, or something that could not be parsed.
    Error,
}

impl Default for Severity {
    fn default() -> (r: Severity)
        ensures
            r == Severity::Comment,
    {
        Severity::Comment
    }
}

/// The value tables behind `_ws.expert.severity` and `_ws.expert.group`.
pub const SEVERITIES: [(u64, &'static str); 5] = [
    (0, "Comment"),
    (1, "Chat"),
    (2, "Note"),
    (3, "Warning"),
    (4, "Error"),
];

pub const GROUPS: [(u64, &'static str); 6] = [
    (0, "Protocol"),
    (1, "Checksum"),
    (2, "Sequence"),
    (3, "Malformed"),
    (4, "Reassemble"),
    (5, "Security"),
];

impl Severity {
    /// The number stored in the tree; larger is worse.
    pub open spec fn rank(self) -> u64 {
        match self {
            Severity::Comment => 0,
            Severity::Chat => 1,
            Severity::Note => 2,
            Severity::Warn => 3,
            Severity::Error => 4,
        }
    }

    /// The number stored in the tree.
    pub fn code(self) -> (r: u64)
        ensures
            r == self.rank(),
    {
        match self {
            Severity::Comment => 0,
            Severity::Chat => 1,
            Severity::Note => 2,
            Severity::Warn => 3,
            Severity::Error => 4,
        }
    }

    /// The name shown for this severity.
    pub fn name(self) -> (r: &'static str)
        ensures
            r@ == SEVERITIES@[self.rank() as int].1@,
    {
        match self {
            Severity::Comment => "Comment",
            Severity::Chat => "Chat",
            Severity::Note => "Note",
            Severity::Warn => "Warning",
            Severity::Error => "Error",
        }
    }

    /// The packet-list colour of each severity.
    pub open spec fn colour(self) -> Seq<u8> {
        match self {
            Severity::Comment => seq![150, 150, 150],
            Severity::Chat => seq![140, 190, 230],
            Severity::Note => seq![150, 210, 160],
            Severity::Warn => seq![240, 190, 110],
            Severity::Error => seq![240, 130, 130],
        }
    }

    /// Colour for the packet-list column, chosen to read on a dark row.
    pub fn rgb(self) -> (r: [u8; 3])
        ensures
            r@ == self.colour(),
    {
        let r: [u8; 3] = match self {
            Severity::Comment => [150, 150, 150],
            Severity::Chat => [140, 190, 230],
            Severity::Note => [150, 210, 160],
            Severity::Warn => [240, 190, 110],
            Severity::Error => [240, 130, 130],
        };
        assert(r@ =~= self.colour());
        r
    }

    /// The severity with number `v`; anything unknown is a comment.
    pub fn from_u64(v: u64) -> (r: Severity)
        ensures
            v <= 4 ==> r.rank() == v,
            v > 4 ==> r == Severity::Comment,
    {
        match v {
            1 => Severity::Chat,
            2 => Severity::Note,
            3 => Severity::Warn,
            4 => Severity::Error,
            _ => Severity::Comment,
        }
    }
}

/// What kind of problem it is.
#[derive(Debug, Clone, Copy, PartialEq, Eq, Structural)]
pub enum Group {
    Protocol,
    Checksum,
    Sequence,
    Malformed,
    Reassemble,
    Security,
}

impl Default for Group {
    fn default() -> (r: Group)
        ensures
            r == Group::Protocol,
    {
        Group::Protocol
    }
}

impl Group {
    /// The number stored in the tree.
    pub open spec fn number(self) -> u64 {
        match self {
            Group::Protocol => 0,
            Group::Checksum => 1,
            Group::Sequence => 2,
            Group::Malformed => 3,
            Group::Reassemble => 4,
            Group::Security => 5,
        }
    }

    /// The number stored in the tree.
    pub fn code(self) -> (r: u64)
        ensures
            r == self.number(),
    {
        match self {
            Group::Protocol => 0,
            Group::Checksum => 1,
            Group::Sequence => 2,
            Group::Malformed => 3,
            Group::Reassemble => 4,
            Group::Security => 5,
        }
    }

    /// The name shown for this group.
    pub fn name(self) -> (r: &'static str)
        ensures
            r@ == GROUPS@[self.number() as int].1@,
    {
        match self {
            Group::Protocol => "Protocol",
            Group::Checksum => "Checksum",
            Group::Sequence => "Sequence",
            Group::Malformed => "Malformed",
            Group::Reassemble => "Reassemble",
            Group::Security => "Security",
        }
    }

    /// The group with number `v`; anything unknown is `Protocol`.
    pub fn from_u64(v: u64) -> (r: Group)
        ensures
            v <= 5 ==> r.number() == v,
            v > 5 ==> r == Group::Protocol,
    {
        match v {
            1 => Group::Checksum,
            2 => Group::Sequence,
            3 => Group::Malformed,
            4 => Group::Reassemble,
            5 => Group::Security,
            _ => Group::Protocol,
        }
    }
}

/// The worst finding on a frame, kept on the summary so the packet list can
/// render a row without walking its tree.
#[derive(Debug, Clone, Copy, PartialEq, Eq)]
pub struct Expert {
    pub severity: Severity,
    pub group: Group,
    pub summary: &'static str,
}

/// What a finding stands for.
#[verifier::ext_equal]
pub struct ExpertView {
    pub severity: Severity,
    pub group: Group,
    pub summary: Seq<char>,
}

impl View for Expert {
    type V = ExpertView;

    open spec fn view(&self) -> ExpertView {
        ExpertView { severity: self.severity, group: self.group, summary: self.summary@ }
    }
}

/// The value tables and the enums agree: the number of every severity is its
/// row in the table, and reading the number back gives the severity.
pub proof fn severity_table_agrees(i: int)
    requires
        0 <= i < SEVERITIES@.len(),
    ensures
        SEVERITIES@[i].0 == i,
{
}

/// The group table is indexed by the group numbers.
pub proof fn group_table_agrees(i: int)
    requires
        0 <= i < GROUPS@.len(),
    ensures
        GROUPS@[i].0 == i,
{
}

} // verus!
