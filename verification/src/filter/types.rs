//! Type checking against the field registry, and compilation of the checked
//! AST into a form the evaluator can run without further decisions.
//!
//! Everything that can be wrong with a filter is decided here: unknown
//! fields, operators a field's type does not support, literals of the wrong
//! type, malformed regexes, slices on fields that have no bytes. Evaluation
//! is then total.

use std::ops::Range;

use regex::bytes::Regex as BytesRegex;
use regex::Regex;
use vstd::prelude::*;
use vstd::utf8::encode_utf8;

use super::ast::{
    kind_words, CmpOp, Expr, ExprView, FieldRef, FieldView, Literal, LiteralView, Slice,
    SpannedLiteral, ValueAt,
};
use super::lex::{error_at, ErrorView, FilterError};
use super::parse::{parse, parsed};
use crate::bytes;
use crate::dissect::registry::{self, index_of, kind_at, members_of, nearest, Kind, KindView};
use crate::text;
use crate::text::{lowered, parts, stands_at, trimmed};

verus! {

// ---- regular expressions --------------------------------------------------------

/// Why `Regex::new` refuses a pattern, in the words of the error it returns;
/// none if it takes it.
pub uninterp spec fn regex_error(pattern: Seq<char>) -> Option<Seq<char>>;

/// Why `regex::bytes::Regex::new` refuses a pattern, in the words of the error
/// it returns; none if it takes it.
pub uninterp spec fn byte_regex_error(pattern: Seq<char>) -> Option<Seq<char>>;

/// Whether `Regex::is_match` finds a pattern in a text. A pattern that is
/// refused is found nowhere.
pub uninterp spec fn regex_finds(pattern: Seq<char>, haystack: Seq<char>) -> bool;

/// Whether `regex::bytes::Regex::is_match` finds a pattern in bytes. A pattern
/// that is refused is found nowhere.
pub uninterp spec fn byte_regex_finds(pattern: Seq<char>, haystack: Seq<u8>) -> bool;

/// The characters of text that may be absent.
pub open spec fn words(s: Option<String>) -> Option<Seq<char>> {
    match s {
        Some(s) => Some(s@),
        None => None,
    }
}

/// `Regex::new`, and the words of its error if it refuses the pattern. Which
/// patterns it refuses, and in what words, is not spelled out beyond the name.
#[verifier::external_body]
fn refuse(pattern: &str) -> (r: Option<String>)
    ensures
        words(r) == regex_error(pattern@),
{
    Regex::new(pattern).err().map(|e| e.to_string())
}

/// `regex::bytes::Regex::new`, and the words of its error if it refuses the
/// pattern. Which patterns it refuses, and in what words, is not spelled out
/// beyond the name.
#[verifier::external_body]
fn refuse_bytes(pattern: &str) -> (r: Option<String>)
    ensures
        words(r) == byte_regex_error(pattern@),
{
    BytesRegex::new(pattern).err().map(|e| e.to_string())
}

/// `Regex::is_match` of a pattern. What a pattern matches is not spelled out
/// beyond the name.
#[verifier::external_body]
pub(crate) fn find(pattern: &str, haystack: &str) -> (r: bool)
    ensures
        r == regex_finds(pattern@, haystack@),
{
    Regex::new(pattern).is_ok_and(|re| re.is_match(haystack))
}

/// `regex::bytes::Regex::is_match` of a pattern. What a pattern matches is not
/// spelled out beyond the name.
#[verifier::external_body]
pub(crate) fn find_bytes(pattern: &str, haystack: &[u8]) -> (r: bool)
    ensures
        r == byte_regex_finds(pattern@, haystack@),
{
    BytesRegex::new(pattern).is_ok_and(|re| re.is_match(haystack))
}

/// The first line from `i` on that says something: not blank, and not the
/// heading of the error.
pub open spec fn telling_line(lines: Seq<Seq<char>>, i: int) -> Seq<char>
    decreases lines.len() - i,
{
    if i < 0 || i >= lines.len() {
        "invalid regular expression"@
    } else if trimmed(lines[i]).len() > 0 && !stands_at(lines[i], "regex parse error"@, 0) {
        lines[i]
    } else {
        telling_line(lines, i + 1)
    }
}

/// One line out of the words of a regex error. They are several lines with a
/// caret diagram; the filter bar has one line, so the first meaningful
/// sentence is kept.
pub open spec fn one_line(error: Seq<char>) -> Seq<char> {
    "invalid regular expression: "@ + trimmed(telling_line(parts(error, '\n'), 0))
}

fn begins_with(s: &[char], head: &str) -> (r: bool)
    ensures
        r == stands_at(s@, head@, 0),
{
    let h: Vec<char> = text::chars_of(head);
    s.len() >= h.len() && text::same_chars(
        vstd::slice::slice_subrange(s, 0, h.len()),
        h.as_slice(),
    )
}

/// One line out of the words of a regex error.
pub fn regex_message(error: &str) -> (r: String)
    ensures
        r@ == one_line(error@),
{
    let chars: Vec<char> = text::chars_of(error);
    let lines: Vec<Vec<char>> = text::split(chars.as_slice(), '\n');
    let ghost all = parts(error@, '\n');
    assert(text::char_parts(lines@).len() == lines@.len());
    let mut i: usize = 0;
    while i < lines.len()
        invariant
            i <= lines@.len(),
            all == parts(error@, '\n'),
            all == text::char_parts(lines@),
            telling_line(all, 0) == telling_line(all, i as int),
        decreases lines.len() - i,
    {
        let line: &[char] = lines[i].as_slice();
        assert(line@ == all[i as int]);
        let short: &[char] = text::trim(line);
        if short.len() > 0 && !begins_with(line, "regex parse error") {
            return text::cat(
                "invalid regular expression: ",
                text::from_chars(short).as_str(),
            );
        }
        i += 1;
    }
    let fallback: Vec<char> = text::chars_of("invalid regular expression");
    text::cat(
        "invalid regular expression: ",
        text::from_chars(text::trim(fallback.as_slice())).as_str(),
    )
}

// ---- what a filter compiles to --------------------------------------------------

/// What a comparison compares against, once the literal has been matched to
/// the field's type.
#[derive(Debug)]
pub enum Operand {
    Unsigned(u64),
    Signed(i64),
    Str(String),
    Bytes(Vec<u8>),
    Ipv4([u8; 4]),
    /// Address and mask, pre-computed.
    Ipv4Net([u8; 4], [u8; 4]),
    Ipv6([u8; 16]),
    Ipv6Net([u8; 16], [u8; 16]),
    Bool(bool),
}

/// What an operand stands for.
#[verifier::ext_equal]
pub enum OperandView {
    Unsigned(u64),
    Signed(i64),
    Str(Seq<char>),
    Bytes(Seq<u8>),
    Ipv4(Seq<u8>),
    Ipv4Net(Seq<u8>, Seq<u8>),
    Ipv6(Seq<u8>),
    Ipv6Net(Seq<u8>, Seq<u8>),
    Bool(bool),
}

impl View for Operand {
    type V = OperandView;

    open spec fn view(&self) -> OperandView {
        match *self {
            Operand::Unsigned(n) => OperandView::Unsigned(n),
            Operand::Signed(n) => OperandView::Signed(n),
            Operand::Str(s) => OperandView::Str(s@),
            Operand::Bytes(b) => OperandView::Bytes(b@),
            Operand::Ipv4(a) => OperandView::Ipv4(a@),
            Operand::Ipv4Net(a, m) => OperandView::Ipv4Net(a@, m@),
            Operand::Ipv6(a) => OperandView::Ipv6(a@),
            Operand::Ipv6Net(a, m) => OperandView::Ipv6Net(a@, m@),
            Operand::Bool(b) => OperandView::Bool(b),
        }
    }
}

/// What several operands stand for.
pub open spec fn operands_view(v: Seq<Operand>) -> Seq<OperandView> {
    v.map_values(|o: Operand| o@)
}

/// A field resolved to the registry: one or more concrete field ids, plus
/// the slice to apply to each occurrence's bytes.
#[derive(Debug)]
pub struct Target {
    /// Field ids to look for. An alias like `ip.addr` has several.
    pub ids: Vec<u16>,
    pub kind: Kind,
    pub slice: Option<Slice>,
    pub name: String,
}

/// What a target stands for.
#[verifier::ext_equal]
pub struct TargetView {
    pub ids: Seq<u16>,
    pub kind: KindView,
    pub slice: Option<Slice>,
    pub name: Seq<char>,
}

impl View for Target {
    type V = TargetView;

    open spec fn view(&self) -> TargetView {
        TargetView { ids: self.ids@, kind: self.kind@, slice: self.slice, name: self.name@ }
    }
}

/// What the evaluator runs. Every decision has already been made.
#[derive(Debug)]
pub enum Test {
    Present(Target),
    Compare { target: Target, op: CmpOp, value: Operand },
    /// A pattern that both kinds of regex take.
    Regex { target: Target, pattern: String },
    In { target: Target, values: Vec<Operand> },
    And(Box<Test>, Box<Test>),
    Or(Box<Test>, Box<Test>),
    Not(Box<Test>),
}

/// What a compiled filter tests.
pub enum TestView {
    Present(TargetView),
    Compare { target: TargetView, op: CmpOp, value: OperandView },
    Regex { target: TargetView, pattern: Seq<char> },
    In { target: TargetView, values: Seq<OperandView> },
    And(Box<TestView>, Box<TestView>),
    Or(Box<TestView>, Box<TestView>),
    Not(Box<TestView>),
}

impl Test {
    /// What the filter tests.
    pub open spec fn tests(self) -> TestView
        decreases self,
    {
        match self {
            Test::Present(t) => TestView::Present(t@),
            Test::Compare { target, op, value } => TestView::Compare {
                target: target@,
                op,
                value: value@,
            },
            Test::Regex { target, pattern } => TestView::Regex {
                target: target@,
                pattern: pattern@,
            },
            Test::In { target, values } => TestView::In {
                target: target@,
                values: operands_view(values@),
            },
            Test::And(a, b) => TestView::And(Box::new(a.tests()), Box::new(b.tests())),
            Test::Or(a, b) => TestView::Or(Box::new(a.tests()), Box::new(b.tests())),
            Test::Not(a) => TestView::Not(Box::new(a.tests())),
        }
    }
}

impl View for Test {
    type V = TestView;

    open spec fn view(&self) -> TestView {
        self.tests()
    }
}

// ---- what the kinds allow -------------------------------------------------------

/// What kind of field this is, in words.
pub open spec fn kind_title(kind: KindView) -> Seq<char> {
    match kind {
        KindView::Protocol => "a protocol"@,
        KindView::Group => "a group"@,
        KindView::Bool => "a flag"@,
        KindView::Unsigned(_) => "an unsigned number"@,
        KindView::Signed => "a signed number"@,
        KindView::Str => "text"@,
        KindView::Bytes => "bytes"@,
        KindView::Ipv4 => "an IPv4 address"@,
        KindView::Ipv6 => "an IPv6 address"@,
        KindView::Mac => "a MAC address"@,
        KindView::Enum(_, _) => "an enumerated number"@,
    }
}

/// What kind of field this is, in words.
pub fn kind_name(kind: Kind) -> (r: &'static str)
    ensures
        r@ == kind_title(kind@),
{
    match kind {
        Kind::Protocol => "a protocol",
        Kind::Group => "a group",
        Kind::Bool => "a flag",
        Kind::Unsigned(_) => "an unsigned number",
        Kind::Signed => "a signed number",
        Kind::Str => "text",
        Kind::Bytes => "bytes",
        Kind::Ipv4 => "an IPv4 address",
        Kind::Ipv6 => "an IPv6 address",
        Kind::Mac => "a MAC address",
        Kind::Enum(_, _) => "an enumerated number",
    }
}

/// Whether a field's value occupies bytes a slice can address.
pub open spec fn sliceable(kind: KindView) -> bool {
    !(kind is Bool || kind is Protocol || kind is Group)
}

fn has_bytes(kind: Kind) -> (r: bool)
    ensures
        r == sliceable(kind@),
{
    !matches!(kind, Kind::Bool | Kind::Protocol | Kind::Group)
}

/// Whether `contains` and `matches` apply: to text, to bytes, and to what a
/// layer covers.
pub open spec fn searchable(kind: KindView, sliced: bool) -> bool {
    sliced || kind is Str || kind is Bytes || kind is Protocol || kind is Group
}

fn can_contain(kind: Kind, sliced: bool) -> (r: bool)
    ensures
        r == searchable(kind@, sliced),
{
    sliced || matches!(kind, Kind::Str | Kind::Bytes | Kind::Protocol | Kind::Group)
}

/// Whether the values have an order.
pub open spec fn ordered(kind: KindView, sliced: bool) -> bool {
    sliced || kind is Unsigned || kind is Signed || kind is Enum || kind is Str || kind is Bytes
}

fn is_ordered(kind: Kind, sliced: bool) -> (r: bool)
    ensures
        r == ordered(kind@, sliced),
{
    sliced || matches!(
        kind,
        Kind::Unsigned(_) | Kind::Signed | Kind::Enum(_, _) | Kind::Str | Kind::Bytes
    )
}

// ---- fields ---------------------------------------------------------------------

/// The ids of those of the names from `i` on that are registered.
pub open spec fn ids_from(names: Seq<Seq<char>>, i: int) -> Seq<u16>
    decreases names.len() - i,
{
    if i < 0 || i >= names.len() {
        Seq::empty()
    } else {
        match index_of(names[i]) {
            Some(id) => seq![id as u16] + ids_from(names, i + 1),
            None => ids_from(names, i + 1),
        }
    }
}

/// The ids that a registered name stands for: its own, or those of the fields
/// it is an alias of.
pub open spec fn ids_of(name: Seq<char>) -> Seq<u16> {
    let members = members_of(name);
    if members.len() == 0 {
        seq![index_of(name)->0 as u16]
    } else {
        ids_from(members, 0)
    }
}

/// What is said of a name that is not registered.
pub open spec fn unknown_field(name: Seq<char>) -> Seq<char> {
    "unknown field `"@ + name + "`"@ + (match nearest(name) {
        Some(near) => "; did you mean `"@ + near + "`?"@,
        None => ""@,
    })
}

/// The field that a reference means.
pub open spec fn resolved(field: FieldView) -> Result<TargetView, ErrorView> {
    match index_of(field.name) {
        None => Err(error_at(unknown_field(field.name), field.start, field.end)),
        Some(i) => {
            let ids = ids_of(field.name);
            let kind = kind_at(i);
            if ids.len() == 0 {
                Err(
                    error_at(
                        "field `"@ + field.name + "` cannot be filtered on"@,
                        field.start,
                        field.end,
                    ),
                )
            } else if field.slice is Some && !sliceable(kind) {
                Err(
                    error_at(
                        "`"@ + field.name + "` ("@ + kind_title(kind)
                            + ") has no bytes to slice"@,
                        field.start,
                        field.end,
                    ),
                )
            } else {
                Ok(
                    TargetView {
                        ids,
                        kind,
                        slice: field.slice,
                        name: "`"@ + field.name + "`"@,
                    },
                )
            }
        },
    }
}

/// The outcome of a step, by what it stands for.
pub open spec fn target_outcome(r: Result<Target, FilterError>) -> Result<TargetView, ErrorView> {
    match r {
        Ok(t) => Ok(t@),
        Err(e) => Err(e@),
    }
}

fn known_ids(names: &Vec<&'static str>) -> (r: Vec<u16>)
    ensures
        r@ == ids_from(registry::name_views(names@), 0),
{
    let ghost all = registry::name_views(names@);
    let none = registry::Interner::new();
    let mut out: Vec<u16> = Vec::new();
    let mut i: usize = 0;
    assert(out@ + ids_from(all, 0) =~= ids_from(all, 0));
    while i < names.len()
        invariant
            i <= names@.len(),
            all == registry::name_views(names@),
            none@ == Seq::<Seq<char>>::empty(),
            ids_from(all, 0) == out@ + ids_from(all, i as int),
        decreases names.len() - i,
    {
        let ghost before = out@;
        proof {
            registry::index_of_is_a_row(names@[i as int]@);
            assert(all[i as int] == names@[i as int]@);
        }
        if let Some(id) = registry::field_id_if_known(&none, names[i]) {
            out.push(id);
            assert(before + (seq![id] + ids_from(all, i + 1)) =~= out@ + ids_from(all, i + 1));
        }
        i += 1;
    }
    assert(out@ + ids_from(all, i as int) =~= out@);
    out
}

fn at(span: &Range<usize>, message: String) -> (r: FilterError)
    ensures
        r@ == error_at(message@, span.start as int, span.end as int),
{
    FilterError::new(message, span.start..span.end)
}

fn resolve(field: &FieldRef) -> (r: Result<Target, FilterError>)
    ensures
        target_outcome(r) == resolved(field@),
{
    let name: &str = field.name.as_str();
    let def = match registry::lookup(name) {
        Some(def) => def,
        None => {
            let mut message: String = text::cat("unknown field `", name);
            message.push_str("`");
            match registry::closest(name) {
                Some(near) => {
                    let mut hint: String = text::cat("; did you mean `", near);
                    hint.push_str("`?");
                    message.push_str(hint.as_str());
                },
                None => {
                    message.push_str("");
                },
            }
            return Err(at(&field.span, message));
        },
    };
    proof {
        registry::index_of_is_a_row(name@);
    }
    assert(registry::name_views(def.members@).len() == def.members@.len());
    let ids: Vec<u16> = if def.members.len() == 0 {
        let none = registry::Interner::new();
        let mut ids: Vec<u16> = Vec::new();
        if let Some(id) = registry::field_id_if_known(&none, name) {
            ids.push(id);
        }
        assert(ids@ =~= ids_of(name@));
        ids
    } else {
        known_ids(&def.members)
    };
    if ids.len() == 0 {
        let mut message: String = text::cat("field `", name);
        message.push_str("` cannot be filtered on");
        return Err(at(&field.span, message));
    }
    if field.slice.is_some() && !has_bytes(def.kind) {
        let mut message: String = text::cat("`", name);
        message.push_str("` (");
        message.push_str(kind_name(def.kind));
        message.push_str(") has no bytes to slice");
        return Err(at(&field.span, message));
    }
    let mut shown: String = text::cat("`", name);
    shown.push_str("`");
    Ok(Target { ids, kind: def.kind, slice: field.slice, name: shown })
}

// ---- masks ----------------------------------------------------------------------

/// A byte whose first so many bits are set.
pub const LEADING_BITS: [u8; 9] = [0, 0x80, 0xc0, 0xe0, 0xf0, 0xf8, 0xfc, 0xfe, 0xff];

/// How many of the bits of byte `i` belong to a prefix of `bits`.
pub open spec fn bits_in(bits: u8, i: int) -> int {
    let left = bits - 8 * i;
    if left >= 8 {
        8
    } else if left > 0 {
        left
    } else {
        0
    }
}

/// The mask of a prefix of `bits`, in `n` bytes.
pub open spec fn mask_of(bits: u8, n: int) -> Seq<u8> {
    Seq::new(n as nat, |i: int| LEADING_BITS@[bits_in(bits, i)])
}

fn mask_byte(bits: u8, i: u8) -> (r: u8)
    requires
        i < 16,
    ensures
        r == LEADING_BITS@[bits_in(bits, i as int)],
{
    let lo: u8 = 8 * i;
    let k: usize = if bits <= lo {
        0
    } else if bits - lo >= 8 {
        8
    } else {
        (bits - lo) as usize
    };
    LEADING_BITS[k]
}

/// The mask of an IPv4 prefix.
pub fn mask_v4(bits: u8) -> (r: [u8; 4])
    ensures
        r@ == mask_of(bits, 4),
{
    let r: [u8; 4] = [
        mask_byte(bits, 0),
        mask_byte(bits, 1),
        mask_byte(bits, 2),
        mask_byte(bits, 3),
    ];
    assert(r@ =~= mask_of(bits, 4));
    r
}

/// The mask of an IPv6 prefix.
pub fn mask_v6(bits: u8) -> (r: [u8; 16])
    ensures
        r@ == mask_of(bits, 16),
{
    let r: [u8; 16] = [
        mask_byte(bits, 0),
        mask_byte(bits, 1),
        mask_byte(bits, 2),
        mask_byte(bits, 3),
        mask_byte(bits, 4),
        mask_byte(bits, 5),
        mask_byte(bits, 6),
        mask_byte(bits, 7),
        mask_byte(bits, 8),
        mask_byte(bits, 9),
        mask_byte(bits, 10),
        mask_byte(bits, 11),
        mask_byte(bits, 12),
        mask_byte(bits, 13),
        mask_byte(bits, 14),
        mask_byte(bits, 15),
    ];
    assert(r@ =~= mask_of(bits, 16));
    r
}

/// `a` with the bits outside the mask cleared.
pub open spec fn masked(a: Seq<u8>, mask: Seq<u8>) -> Seq<u8> {
    Seq::new(a.len(), |i: int| a[i] & mask[i])
}

/// `a` with the bits outside the mask cleared.
pub(crate) fn apply_v4(a: [u8; 4], m: [u8; 4]) -> (r: [u8; 4])
    ensures
        r@ == masked(a@, m@),
{
    let r: [u8; 4] = [a[0] & m[0], a[1] & m[1], a[2] & m[2], a[3] & m[3]];
    assert(r@ =~= masked(a@, m@));
    r
}

/// `a` with the bits outside the mask cleared.
pub(crate) fn apply_v6(a: [u8; 16], m: [u8; 16]) -> (r: [u8; 16])
    ensures
        r@ == masked(a@, m@),
{
    let r: [u8; 16] = [
        a[0] & m[0],
        a[1] & m[1],
        a[2] & m[2],
        a[3] & m[3],
        a[4] & m[4],
        a[5] & m[5],
        a[6] & m[6],
        a[7] & m[7],
        a[8] & m[8],
        a[9] & m[9],
        a[10] & m[10],
        a[11] & m[11],
        a[12] & m[12],
        a[13] & m[13],
        a[14] & m[14],
        a[15] & m[15],
    ];
    assert(r@ =~= masked(a@, m@));
    r
}

// ---- literals -------------------------------------------------------------------

/// The value called `name`, in any case, in rows `i..` of a table of names.
pub open spec fn value_named(t: Seq<(u64, &'static str)>, name: Seq<char>, i: int) -> Option<u64>
    decreases t.len() - i,
{
    if i < 0 || i >= t.len() {
        None
    } else if lowered(t[i].1@) == lowered(name) {
        Some(t[i].0)
    } else {
        value_named(t, name, i + 1)
    }
}

fn find_value(t: &[(u64, &'static str)], name: &str) -> (r: Option<u64>)
    ensures
        r == value_named(t@, name@, 0),
{
    let chars: Vec<char> = text::chars_of(name);
    let mut i: usize = 0;
    while i < t.len()
        invariant
            i <= t@.len(),
            chars@ == name@,
            value_named(t@, name@, 0) == value_named(t@, name@, i as int),
        decreases t.len() - i,
    {
        if text::same_but_case(chars.as_slice(), t[i].1) {
            return Some(t[i].0);
        }
        i += 1;
    }
    None
}

/// What is said of a literal of the wrong type.
pub open spec fn mismatch(target: TargetView, lit: LiteralView, expected: Seq<char>) -> Seq<char> {
    target.name + " is "@ + kind_title(target.kind) + ", so it cannot be compared with "@
        + kind_words(lit) + "; expected "@ + expected
}

fn mismatched(target: &Target, lit: &Literal, expected: &str) -> (r: String)
    ensures
        r@ == mismatch(target@, lit@, expected@),
{
    let mut out: String = text::cat(target.name.as_str(), " is ");
    out.push_str(kind_name(target.kind));
    out.push_str(", so it cannot be compared with ");
    out.push_str(lit.kind_name());
    out.push_str("; expected ");
    out.push_str(expected);
    out
}

/// A slice is always a byte string, whatever the field's own type is.
pub open spec fn sliced_operand(lit: LiteralView) -> Option<Seq<u8>> {
    match lit {
        LiteralView::Bytes(b) => Some(b),
        LiteralView::Str(s) => Some(encode_utf8(s)),
        LiteralView::Unsigned(n) => if n <= 255 {
            Some(seq![n as u8])
        } else {
            None
        },
        LiteralView::Ipv4(a) => Some(a),
        LiteralView::Ipv6(a) => Some(a),
        _ => None,
    }
}

/// What a literal is compared as, or why it cannot be compared with a field of
/// the target's kind.
pub open spec fn operand_of(target: TargetView, lit: LiteralView, op: CmpOp) -> Result<
    OperandView,
    Seq<char>,
> {
    match (target.kind, lit) {
        (KindView::Protocol, LiteralView::Str(s)) if op is Contains => Ok(
            OperandView::Bytes(encode_utf8(s)),
        ),
        (KindView::Group, LiteralView::Str(s)) if op is Contains => Ok(
            OperandView::Bytes(encode_utf8(s)),
        ),
        (KindView::Protocol, LiteralView::Bytes(b)) if op is Contains => Ok(OperandView::Bytes(b)),
        (KindView::Group, LiteralView::Bytes(b)) if op is Contains => Ok(OperandView::Bytes(b)),
        (KindView::Protocol, _) | (KindView::Group, _) => Err(
            target.name + " is "@ + kind_title(target.kind)
                + "; write it on its own to test that the frame has it"@,
        ),
        (KindView::Bool, LiteralView::Bool(b)) => Ok(OperandView::Bool(b)),
        (KindView::Bool, LiteralView::Unsigned(n)) if n <= 1 => Ok(OperandView::Bool(n == 1)),
        (KindView::Bool, _) => Err(mismatch(target, lit, "`true`, `false`, 0 or 1"@)),
        (KindView::Unsigned(_), LiteralView::Unsigned(n)) => Ok(OperandView::Unsigned(n)),
        (KindView::Enum(_, _), LiteralView::Unsigned(n)) => Ok(OperandView::Unsigned(n)),
        (KindView::Unsigned(_), LiteralView::Signed(n)) | (
            KindView::Enum(_, _),
            LiteralView::Signed(n),
        ) => Err(
            target.name + " is unsigned, so it cannot be compared with "@ + text::signed(n as int),
        ),
        (KindView::Unsigned(_), _) => Err(mismatch(target, lit, "a number"@)),
        (KindView::Enum(table, _), LiteralView::Str(s)) => match value_named(table, s, 0) {
            Some(v) => Ok(OperandView::Unsigned(v)),
            None => Err("`"@ + s + "` is not a known value for "@ + target.name),
        },
        (KindView::Enum(_, _), _) => Err(
            mismatch(target, lit, "a number or a known value name"@),
        ),
        (KindView::Signed, LiteralView::Signed(n)) => Ok(OperandView::Signed(n)),
        (KindView::Signed, LiteralView::Unsigned(n)) => if n <= i64::MAX {
            Ok(OperandView::Signed(n as i64))
        } else {
            Err("number is too large"@)
        },
        (KindView::Signed, _) => Err(mismatch(target, lit, "a number"@)),
        (KindView::Str, LiteralView::Str(s)) => Ok(OperandView::Str(s)),
        (KindView::Str, _) => Err(mismatch(target, lit, "a quoted string"@)),
        (KindView::Bytes, LiteralView::Bytes(b)) => Ok(OperandView::Bytes(b)),
        (KindView::Bytes, LiteralView::Str(s)) => Ok(OperandView::Bytes(encode_utf8(s))),
        (KindView::Bytes, _) => Err(
            mismatch(target, lit, "bytes like aa:bb:cc or a quoted string"@),
        ),
        (KindView::Ipv4, LiteralView::Ipv4(a)) => Ok(OperandView::Ipv4(a)),
        (KindView::Ipv4, LiteralView::Ipv4Cidr(a, n)) => Ok(
            OperandView::Ipv4Net(masked(a, mask_of(n, 4)), mask_of(n, 4)),
        ),
        (KindView::Ipv4, _) => Err(
            mismatch(target, lit, "an IPv4 address like 10.0.0.1 or 10.0.0.0/8"@),
        ),
        (KindView::Ipv6, LiteralView::Ipv6(a)) => Ok(OperandView::Ipv6(a)),
        (KindView::Ipv6, LiteralView::Ipv6Cidr(a, n)) => Ok(
            OperandView::Ipv6Net(masked(a, mask_of(n, 16)), mask_of(n, 16)),
        ),
        (KindView::Ipv6, _) => Err(
            mismatch(target, lit, "an IPv6 address like 2001:db8::1 or fe80::/10"@),
        ),
        (KindView::Mac, LiteralView::Bytes(b)) if b.len() == 6 => Ok(OperandView::Bytes(b)),
        (KindView::Mac, _) => Err(mismatch(target, lit, "a MAC address like aa:bb:cc:dd:ee:ff"@)),
    }
}

/// What a literal at `start..end` is compared as.
pub open spec fn coerced(target: TargetView, v: ValueAt, op: CmpOp) -> Result<
    OperandView,
    ErrorView,
> {
    if target.slice is Some {
        match sliced_operand(v.value) {
            Some(b) => Ok(OperandView::Bytes(b)),
            None => Err(
                error_at(
                    "a slice is a byte string, so it cannot be compared with "@ + kind_words(
                        v.value,
                    ) + "; expected bytes like aa:bb:cc or a quoted string"@,
                    v.start,
                    v.end,
                ),
            ),
        }
    } else {
        match operand_of(target, v.value, op) {
            Ok(o) => Ok(o),
            Err(message) => Err(error_at(message, v.start, v.end)),
        }
    }
}

fn slice_operand(lit: &Literal) -> (r: Option<Vec<u8>>)
    ensures
        match r {
            Some(b) => sliced_operand(lit@) == Some(b@),
            None => sliced_operand(lit@) is None,
        },
{
    match lit {
        Literal::Bytes(b) => Some(bytes::copy_of(b.as_slice())),
        Literal::Str(s) => Some(bytes::copy_of(s.as_str().as_bytes())),
        Literal::Unsigned(n) => if *n <= 255 {
            let mut b: Vec<u8> = Vec::new();
            b.push(*n as u8);
            assert(b@ =~= seq![*n as u8]);
            Some(b)
        } else {
            None
        },
        Literal::Ipv4(a) => Some(bytes::copy_of(a)),
        Literal::Ipv6(a) => Some(bytes::copy_of(a)),
        _ => None,
    }
}

/// The operand, or why there is none, by what they stand for.
pub open spec fn operand_view(r: Result<Operand, String>) -> Result<OperandView, Seq<char>> {
    match r {
        Ok(o) => Ok(o@),
        Err(s) => Err(s@),
    }
}

fn layer_operand(target: &Target, lit: &Literal, op: CmpOp) -> (r: Result<Operand, String>)
    requires
        target.kind@ is Protocol || target.kind@ is Group,
    ensures
        operand_view(r) == operand_of(target@, lit@, op),
{
    if matches!(op, CmpOp::Contains) {
        match lit {
            Literal::Str(s) => {
                return Ok(Operand::Bytes(bytes::copy_of(s.as_str().as_bytes())));
            },
            Literal::Bytes(b) => {
                return Ok(Operand::Bytes(bytes::copy_of(b.as_slice())));
            },
            _ => {},
        }
    }
    let mut message: String = text::cat(target.name.as_str(), " is ");
    message.push_str(kind_name(target.kind));
    message.push_str("; write it on its own to test that the frame has it");
    Err(message)
}

fn enum_operand(target: &Target, table: &[(u64, &'static str)], lit: &Literal, op: CmpOp) -> (r:
    Result<Operand, String>)
    requires
        target.kind@ is Enum && target.kind@->Enum_0 == table@,
    ensures
        operand_view(r) == operand_of(target@, lit@, op),
{
    match lit {
        Literal::Unsigned(n) => Ok(Operand::Unsigned(*n)),
        Literal::Signed(n) => {
            let mut message: String = text::cat(
                target.name.as_str(),
                " is unsigned, so it cannot be compared with ",
            );
            text::push_signed(&mut message, *n);
            Err(message)
        },
        Literal::Str(s) => match find_value(table, s.as_str()) {
            Some(v) => Ok(Operand::Unsigned(v)),
            None => {
                let mut message: String = text::cat("`", s.as_str());
                message.push_str("` is not a known value for ");
                message.push_str(target.name.as_str());
                Err(message)
            },
        },
        _ => Err(mismatched(target, lit, "a number or a known value name")),
    }
}

fn number_operand(target: &Target, lit: &Literal, op: CmpOp) -> (r: Result<Operand, String>)
    requires
        target.kind@ is Unsigned || target.kind@ is Signed || target.kind@ is Bool,
    ensures
        operand_view(r) == operand_of(target@, lit@, op),
{
    match (target.kind, lit) {
        (Kind::Bool, Literal::Bool(b)) => Ok(Operand::Bool(*b)),
        (Kind::Bool, Literal::Unsigned(n)) => if *n <= 1 {
            Ok(Operand::Bool(*n == 1))
        } else {
            Err(mismatched(target, lit, "`true`, `false`, 0 or 1"))
        },
        (Kind::Bool, _) => Err(mismatched(target, lit, "`true`, `false`, 0 or 1")),
        (Kind::Unsigned(_), Literal::Unsigned(n)) => Ok(Operand::Unsigned(*n)),
        (Kind::Unsigned(_), Literal::Signed(n)) => {
            let mut message: String = text::cat(
                target.name.as_str(),
                " is unsigned, so it cannot be compared with ",
            );
            text::push_signed(&mut message, *n);
            Err(message)
        },
        (Kind::Signed, Literal::Signed(n)) => Ok(Operand::Signed(*n)),
        (Kind::Signed, Literal::Unsigned(n)) => if *n <= i64::MAX as u64 {
            Ok(Operand::Signed(*n as i64))
        } else {
            Err(text::owned("number is too large"))
        },
        _ => Err(mismatched(target, lit, "a number")),
    }
}

fn address_operand(target: &Target, lit: &Literal, op: CmpOp) -> (r: Result<Operand, String>)
    requires
        target.kind@ is Ipv4 || target.kind@ is Ipv6 || target.kind@ is Mac,
    ensures
        operand_view(r) == operand_of(target@, lit@, op),
{
    match (target.kind, lit) {
        (Kind::Ipv4, Literal::Ipv4(a)) => Ok(Operand::Ipv4(*a)),
        (Kind::Ipv4, Literal::Ipv4Cidr(a, bits)) => {
            let mask: [u8; 4] = mask_v4(*bits);
            Ok(Operand::Ipv4Net(apply_v4(*a, mask), mask))
        },
        (Kind::Ipv4, _) => Err(
            mismatched(target, lit, "an IPv4 address like 10.0.0.1 or 10.0.0.0/8"),
        ),
        (Kind::Ipv6, Literal::Ipv6(a)) => Ok(Operand::Ipv6(*a)),
        (Kind::Ipv6, Literal::Ipv6Cidr(a, bits)) => {
            let mask: [u8; 16] = mask_v6(*bits);
            Ok(Operand::Ipv6Net(apply_v6(*a, mask), mask))
        },
        (Kind::Ipv6, _) => Err(
            mismatched(target, lit, "an IPv6 address like 2001:db8::1 or fe80::/10"),
        ),
        (_, Literal::Bytes(b)) => if b.len() == 6 {
            Ok(Operand::Bytes(bytes::copy_of(b.as_slice())))
        } else {
            Err(mismatched(target, lit, "a MAC address like aa:bb:cc:dd:ee:ff"))
        },
        _ => Err(mismatched(target, lit, "a MAC address like aa:bb:cc:dd:ee:ff")),
    }
}

fn text_operand(target: &Target, lit: &Literal, op: CmpOp) -> (r: Result<Operand, String>)
    requires
        target.kind@ is Str || target.kind@ is Bytes,
    ensures
        operand_view(r) == operand_of(target@, lit@, op),
{
    match (target.kind, lit) {
        (Kind::Str, Literal::Str(s)) => Ok(Operand::Str(text::owned(s.as_str()))),
        (Kind::Str, _) => Err(mismatched(target, lit, "a quoted string")),
        (_, Literal::Bytes(b)) => Ok(Operand::Bytes(bytes::copy_of(b.as_slice()))),
        (_, Literal::Str(s)) => Ok(Operand::Bytes(bytes::copy_of(s.as_str().as_bytes()))),
        _ => Err(mismatched(target, lit, "bytes like aa:bb:cc or a quoted string")),
    }
}

/// The outcome of a step, by what it stands for.
pub open spec fn operand_outcome(r: Result<Operand, FilterError>) -> Result<
    OperandView,
    ErrorView,
> {
    match r {
        Ok(o) => Ok(o@),
        Err(e) => Err(e@),
    }
}

/// Match a literal to the field's type, or explain why it cannot be.
fn coerce(target: &Target, v: &SpannedLiteral, op: CmpOp) -> (r: Result<Operand, FilterError>)
    ensures
        operand_outcome(r) == coerced(target@, v@, op),
{
    let lit: &Literal = &v.value;
    // A slice is always a byte string, whatever the field's own type is.
    if target.slice.is_some() {
        return match slice_operand(lit) {
            Some(b) => Ok(Operand::Bytes(b)),
            None => {
                let mut message: String = text::cat(
                    "a slice is a byte string, so it cannot be compared with ",
                    lit.kind_name(),
                );
                message.push_str("; expected bytes like aa:bb:cc or a quoted string");
                Err(at(&v.span, message))
            },
        };
    }
    let r: Result<Operand, String> = match target.kind {
        Kind::Protocol | Kind::Group => layer_operand(target, lit, op),
        Kind::Enum(table, _) => enum_operand(target, table, lit, op),
        Kind::Bool | Kind::Unsigned(_) | Kind::Signed => number_operand(target, lit, op),
        Kind::Str | Kind::Bytes => text_operand(target, lit, op),
        Kind::Ipv4 | Kind::Ipv6 | Kind::Mac => address_operand(target, lit, op),
    };
    match r {
        Ok(o) => Ok(o),
        Err(message) => Err(at(&v.span, message)),
    }
}

// ---- checking -------------------------------------------------------------------

/// Why an operator cannot be used on a target.
pub open spec fn unusable(op: CmpOp, target: TargetView) -> Seq<char> {
    "`"@ + op.written() + "` cannot be used on "@ + target.name + " ("@ + kind_title(target.kind)
        + ")"@
}

fn not_usable(op: CmpOp, target: &Target) -> (r: String)
    ensures
        r@ == unusable(op, target@),
{
    let mut out: String = text::cat("`", op.name());
    out.push_str("` cannot be used on ");
    out.push_str(target.name.as_str());
    out.push_str(" (");
    out.push_str(kind_name(target.kind));
    out.push_str(")");
    out
}

/// The test that a pattern makes, given what the two kinds of regex say of it.
pub open spec fn pattern_test(
    target: TargetView,
    pattern: Seq<char>,
    v: ValueAt,
    refused: Option<Seq<char>>,
    refused_bytes: Option<Seq<char>>,
) -> Result<TestView, ErrorView> {
    match (refused, refused_bytes) {
        (Some(e), _) => Err(error_at(one_line(e), v.start, v.end)),
        (None, Some(e)) => Err(error_at(one_line(e), v.start, v.end)),
        (None, None) => Ok(TestView::Regex { target, pattern }),
    }
}

/// The outcome of a step, by what it tests.
pub open spec fn test_outcome(r: Result<Test, FilterError>) -> Result<TestView, ErrorView> {
    match r {
        Ok(t) => Ok(t@),
        Err(e) => Err(e@),
    }
}

/// The test that a pattern at `span` makes, given what the two kinds of regex
/// say of it: the error of either one, or none.
pub fn accept_pattern(
    target: Target,
    pattern: String,
    span: &Range<usize>,
    refused: Option<String>,
    refused_bytes: Option<String>,
) -> (r: Result<Test, FilterError>)
    ensures
        test_outcome(r) == pattern_test(
            target@,
            pattern@,
            (ValueAt {
                value: LiteralView::Str(pattern@),
                start: span.start as int,
                end: span.end as int,
            }),
            words(refused),
            words(refused_bytes),
        ),
{
    match (refused, refused_bytes) {
        (Some(e), _) => Err(at(span, regex_message(e.as_str()))),
        (None, Some(e)) => Err(at(span, regex_message(e.as_str()))),
        (None, None) => Ok(Test::Regex { target, pattern }),
    }
}

/// A comparison, checked.
pub open spec fn comparison(
    field: FieldView,
    op: CmpOp,
    v: ValueAt,
) -> Result<TestView, ErrorView> {
    match resolved(field) {
        Err(e) => Err(e),
        Ok(target) => {
            let sliced = target.slice is Some;
            if op is Matches {
                match v.value {
                    LiteralView::Str(pattern) => if !searchable(target.kind, sliced) {
                        Err(error_at(unusable(op, target), field.start, field.end))
                    } else {
                        pattern_test(
                            target,
                            pattern,
                            v,
                            regex_error(pattern),
                            byte_regex_error(pattern),
                        )
                    },
                    other => Err(
                        error_at(
                            "`matches` needs a quoted regular expression, found "@ + kind_words(
                                other,
                            ),
                            v.start,
                            v.end,
                        ),
                    ),
                }
            } else if op is Contains && !searchable(target.kind, sliced) {
                Err(error_at(unusable(op, target), field.start, field.end))
            } else if op.orders() && !ordered(target.kind, sliced) {
                Err(
                    error_at(
                        unusable(op, target) + "; only `==` and `!=` apply"@,
                        field.start,
                        field.end,
                    ),
                )
            } else {
                match coerced(target, v, op) {
                    Ok(value) => Ok(TestView::Compare { target, op, value }),
                    Err(e) => Err(e),
                }
            }
        },
    }
}

/// The values of a set from `i` on, checked, behind those checked so far.
pub open spec fn members_checked(
    target: TargetView,
    values: Seq<ValueAt>,
    i: int,
    got: Seq<OperandView>,
) -> Result<Seq<OperandView>, ErrorView>
    decreases values.len() - i,
{
    if i < 0 || i >= values.len() {
        Ok(got)
    } else {
        match coerced(target, values[i], CmpOp::Eq) {
            Ok(o) => members_checked(target, values, i + 1, got.push(o)),
            Err(e) => Err(e),
        }
    }
}

/// A filter, checked.
pub open spec fn checked(e: ExprView) -> Result<TestView, ErrorView>
    decreases e,
{
    match e {
        ExprView::Present(f) => match resolved(f) {
            Ok(t) => Ok(TestView::Present(t)),
            Err(e) => Err(e),
        },
        ExprView::Compare { field, op, value } => comparison(field, op, value),
        ExprView::In { field, values } => match resolved(field) {
            Err(e) => Err(e),
            Ok(target) => match members_checked(target, values, 0, Seq::empty()) {
                Ok(values) => Ok(TestView::In { target, values }),
                Err(e) => Err(e),
            },
        },
        ExprView::And(a, b) => match (checked(*a), checked(*b)) {
            (Err(e), _) => Err(e),
            (_, Err(e)) => Err(e),
            (Ok(a), Ok(b)) => Ok(TestView::And(Box::new(a), Box::new(b))),
        },
        ExprView::Or(a, b) => match (checked(*a), checked(*b)) {
            (Err(e), _) => Err(e),
            (_, Err(e)) => Err(e),
            (Ok(a), Ok(b)) => Ok(TestView::Or(Box::new(a), Box::new(b))),
        },
        ExprView::Not(a) => match checked(*a) {
            Ok(a) => Ok(TestView::Not(Box::new(a))),
            Err(e) => Err(e),
        },
    }
}

fn check_comparison(field: &FieldRef, op: CmpOp, v: &SpannedLiteral) -> (r: Result<
    Test,
    FilterError,
>)
    ensures
        test_outcome(r) == comparison(field@, op, v@),
{
    let target: Target = match resolve(field) {
        Ok(target) => target,
        Err(e) => {
            return Err(e);
        },
    };
    let sliced: bool = target.slice.is_some();
    if matches!(op, CmpOp::Matches) {
        return match &v.value {
            Literal::Str(pattern) => {
                if !can_contain(target.kind, sliced) {
                    return Err(at(&field.span, not_usable(op, &target)));
                }
                let refused: Option<String> = refuse(pattern.as_str());
                let refused_bytes: Option<String> = refuse_bytes(pattern.as_str());
                accept_pattern(
                    target,
                    text::owned(pattern.as_str()),
                    &v.span,
                    refused,
                    refused_bytes,
                )
            },
            other => {
                let message: String = text::cat(
                    "`matches` needs a quoted regular expression, found ",
                    other.kind_name(),
                );
                Err(at(&v.span, message))
            },
        };
    }
    if matches!(op, CmpOp::Contains) && !can_contain(target.kind, sliced) {
        return Err(at(&field.span, not_usable(op, &target)));
    }
    if op.is_ordering() && !is_ordered(target.kind, sliced) {
        let mut message: String = not_usable(op, &target);
        message.push_str("; only `==` and `!=` apply");
        return Err(at(&field.span, message));
    }
    match coerce(&target, v, op) {
        Ok(value) => Ok(Test::Compare { target, op, value }),
        Err(e) => Err(e),
    }
}

fn check_set(field: &FieldRef, values: &Vec<SpannedLiteral>) -> (r: Result<Test, FilterError>)
    ensures
        test_outcome(r) == checked(
            ExprView::In { field: field@, values: super::ast::values_view(values@) },
        ),
{
    let target: Target = match resolve(field) {
        Ok(target) => target,
        Err(e) => {
            return Err(e);
        },
    };
    let ghost vs = super::ast::values_view(values@);
    let mut out: Vec<Operand> = Vec::new();
    let mut i: usize = 0;
    assert(operands_view(out@) =~= Seq::empty());
    while i < values.len()
        invariant
            i <= values@.len(),
            vs == super::ast::values_view(values@),
            resolved(field@) == Ok::<TargetView, ErrorView>(target@),
            members_checked(target@, vs, 0, Seq::empty()) == members_checked(
                target@,
                vs,
                i as int,
                operands_view(out@),
            ),
        decreases values.len() - i,
    {
        let ghost before = operands_view(out@);
        assert(vs[i as int] == values@[i as int]@);
        match coerce(&target, &values[i], CmpOp::Eq) {
            Ok(o) => {
                out.push(o);
                assert(operands_view(out@) =~= before.push(o@));
            },
            Err(e) => {
                return Err(e);
            },
        }
        i += 1;
    }
    Ok(Test::In { target, values: out })
}

/// Type-check `expr` and compile it.
pub fn check(expr: &Expr) -> (r: Result<Test, FilterError>)
    ensures
        test_outcome(r) == checked(expr@),
    decreases expr,
{
    match expr {
        Expr::Present(f) => match resolve(f) {
            Ok(t) => Ok(Test::Present(t)),
            Err(e) => Err(e),
        },
        Expr::Compare { field, op, value } => check_comparison(field, *op, value),
        Expr::In { field, values } => check_set(field, values),
        Expr::And(a, b) => {
            let a: Test = match check(a) {
                Ok(t) => t,
                Err(e) => {
                    return Err(e);
                },
            };
            match check(b) {
                Ok(b) => Ok(Test::And(Box::new(a), Box::new(b))),
                Err(e) => Err(e),
            }
        },
        Expr::Or(a, b) => {
            let a: Test = match check(a) {
                Ok(t) => t,
                Err(e) => {
                    return Err(e);
                },
            };
            match check(b) {
                Ok(b) => Ok(Test::Or(Box::new(a), Box::new(b))),
                Err(e) => Err(e),
            }
        },
        Expr::Not(a) => match check(a) {
            Ok(a) => Ok(Test::Not(Box::new(a))),
            Err(e) => Err(e),
        },
    }
}

/// What a filter text compiles to.
pub open spec fn compiled(input: Seq<char>) -> Result<TestView, ErrorView> {
    match parsed(input) {
        Ok(e) => checked(e),
        Err(e) => Err(e),
    }
}

/// Compile a filter from text in one step.
pub fn compile(input: &str) -> (r: Result<Test, FilterError>)
    ensures
        test_outcome(r) == compiled(input@),
{
    match parse(input) {
        Ok(e) => check(&e),
        Err(e) => Err(e),
    }
}

} // verus!
