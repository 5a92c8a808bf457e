//! Display-filter tokeniser. Every token carries the column span it came
//! from, so the parser and type checker can point at the exact text.

use std::ops::Range;

use vstd::prelude::*;
use vstd::utf8::encode_utf8;

use crate::bytes;
use crate::text;
use crate::text::{
    all_digits, char_parts, dec, first_at, latin, parts, signed, spelled,
};

verus! {

#[derive(Debug, PartialEq, Eq)]
pub enum Tok {
    /// A field name: `tcp.srcport`, `ip`, `dns.flags.response`.
    Field(String),
    /// An unsigned literal, decimal or hex.
    Number(u64),
    /// A negative decimal literal.
    Signed(i64),
    Str(String),
    /// Colon-separated hex pairs: a MAC when six of them, a byte string
    /// otherwise (`eth.src[0:3] == aa:bb:cc`).
    Bytes(Vec<u8>),
    Ipv4([u8; 4]),
    Ipv4Cidr([u8; 4], u8),
    Ipv6([u8; 16]),
    Ipv6Cidr([u8; 16], u8),
    Bool(bool),
    Eq,
    Ne,
    Gt,
    Ge,
    Lt,
    Le,
    Contains,
    Matches,
    In,
    And,
    Or,
    Not,
    LParen,
    RParen,
    LBrace,
    RBrace,
    LBracket,
    RBracket,
    Colon,
    Comma,
}

/// What a token stands for.
#[verifier::ext_equal]
pub enum TokView {
    Field(Seq<char>),
    Number(u64),
    Signed(i64),
    Str(Seq<char>),
    Bytes(Seq<u8>),
    Ipv4(Seq<u8>),
    Ipv4Cidr(Seq<u8>, u8),
    Ipv6(Seq<u8>),
    Ipv6Cidr(Seq<u8>, u8),
    Bool(bool),
    Eq,
    Ne,
    Gt,
    Ge,
    Lt,
    Le,
    Contains,
    Matches,
    In,
    And,
    Or,
    Not,
    LParen,
    RParen,
    LBrace,
    RBrace,
    LBracket,
    RBracket,
    Colon,
    Comma,
}

impl View for Tok {
    type V = TokView;

    open spec fn view(&self) -> TokView {
        match *self {
            Tok::Field(s) => TokView::Field(s@),
            Tok::Number(n) => TokView::Number(n),
            Tok::Signed(n) => TokView::Signed(n),
            Tok::Str(s) => TokView::Str(s@),
            Tok::Bytes(b) => TokView::Bytes(b@),
            Tok::Ipv4(a) => TokView::Ipv4(a@),
            Tok::Ipv4Cidr(a, n) => TokView::Ipv4Cidr(a@, n),
            Tok::Ipv6(a) => TokView::Ipv6(a@),
            Tok::Ipv6Cidr(a, n) => TokView::Ipv6Cidr(a@, n),
            Tok::Bool(b) => TokView::Bool(b),
            Tok::Eq => TokView::Eq,
            Tok::Ne => TokView::Ne,
            Tok::Gt => TokView::Gt,
            Tok::Ge => TokView::Ge,
            Tok::Lt => TokView::Lt,
            Tok::Le => TokView::Le,
            Tok::Contains => TokView::Contains,
            Tok::Matches => TokView::Matches,
            Tok::In => TokView::In,
            Tok::And => TokView::And,
            Tok::Or => TokView::Or,
            Tok::Not => TokView::Not,
            Tok::LParen => TokView::LParen,
            Tok::RParen => TokView::RParen,
            Tok::LBrace => TokView::LBrace,
            Tok::RBrace => TokView::RBrace,
            Tok::LBracket => TokView::LBracket,
            Tok::RBracket => TokView::RBracket,
            Tok::Colon => TokView::Colon,
            Tok::Comma => TokView::Comma,
        }
    }
}

/// How a token is written, for error messages.
pub open spec fn described(t: TokView) -> Seq<char> {
    match t {
        TokView::Field(f) => "field `"@ + f + "`"@,
        TokView::Number(n) => "number "@ + dec(n as int) + ""@,
        TokView::Signed(n) => "number "@ + signed(n as int),
        TokView::Str(s) => "string \""@ + s + "\""@,
        TokView::Bytes(b) => ""@ + dec(b.len() as int) + "-byte literal"@,
        TokView::Ipv4(_) | TokView::Ipv4Cidr(_, _) => "IPv4 literal"@,
        TokView::Ipv6(_) | TokView::Ipv6Cidr(_, _) => "IPv6 literal"@,
        TokView::Bool(b) => if b {
            "`true`"@
        } else {
            "`false`"@
        },
        TokView::Eq => "`==`"@,
        TokView::Ne => "`!=`"@,
        TokView::Gt => "`>`"@,
        TokView::Ge => "`>=`"@,
        TokView::Lt => "`<`"@,
        TokView::Le => "`<=`"@,
        TokView::Contains => "`contains`"@,
        TokView::Matches => "`matches`"@,
        TokView::In => "`in`"@,
        TokView::And => "`&&`"@,
        TokView::Or => "`||`"@,
        TokView::Not => "`!`"@,
        TokView::LParen => "`(`"@,
        TokView::RParen => "`)`"@,
        TokView::LBrace => "`{`"@,
        TokView::RBrace => "`}`"@,
        TokView::LBracket => "`[`"@,
        TokView::RBracket => "`]`"@,
        TokView::Colon => "`:`"@,
        TokView::Comma => "`,`"@,
    }
}

impl Tok {
    /// How the token is written, for error messages.
    pub fn describe(&self) -> (r: String)
        ensures
            r@ == described(self@),
    {
        match self {
            Tok::Field(f) => {
                let mut out: String = text::cat("field `", f.as_str());
                out.push_str("`");
                out
            },
            Tok::Number(n) => text::cat_dec("number ", *n, ""),
            Tok::Signed(n) => {
                let mut out: String = text::owned("number ");
                text::push_signed(&mut out, *n);
                out
            },
            Tok::Str(s) => {
                let mut out: String = text::cat("string \"", s.as_str());
                out.push_str("\"");
                out
            },
            Tok::Bytes(b) => text::cat_dec("", b.len() as u64, "-byte literal"),
            Tok::Ipv4(_) | Tok::Ipv4Cidr(_, _) => text::owned("IPv4 literal"),
            Tok::Ipv6(_) | Tok::Ipv6Cidr(_, _) => text::owned("IPv6 literal"),
            Tok::Bool(b) => if *b {
                text::owned("`true`")
            } else {
                text::owned("`false`")
            },
            Tok::Eq => text::owned("`==`"),
            Tok::Ne => text::owned("`!=`"),
            Tok::Gt => text::owned("`>`"),
            Tok::Ge => text::owned("`>=`"),
            Tok::Lt => text::owned("`<`"),
            Tok::Le => text::owned("`<=`"),
            Tok::Contains => text::owned("`contains`"),
            Tok::Matches => text::owned("`matches`"),
            Tok::In => text::owned("`in`"),
            Tok::And => text::owned("`&&`"),
            Tok::Or => text::owned("`||`"),
            Tok::Not => text::owned("`!`"),
            Tok::LParen => text::owned("`(`"),
            Tok::RParen => text::owned("`)`"),
            Tok::LBrace => text::owned("`{`"),
            Tok::RBrace => text::owned("`}`"),
            Tok::LBracket => text::owned("`[`"),
            Tok::RBracket => text::owned("`]`"),
            Tok::Colon => text::owned("`:`"),
            Tok::Comma => text::owned("`,`"),
        }
    }
}

#[derive(Debug, PartialEq, Eq)]
pub struct Spanned {
    pub tok: Tok,
    pub span: Range<usize>,
}

/// What a token stands for, and where it stands.
#[verifier::ext_equal]
pub struct SpannedView {
    pub tok: TokView,
    pub start: int,
    pub end: int,
}

impl View for Spanned {
    type V = SpannedView;

    open spec fn view(&self) -> SpannedView {
        SpannedView {
            tok: self.tok@,
            start: self.span.start as int,
            end: self.span.end as int,
        }
    }
}

/// What several tokens stand for.
pub open spec fn tokens_view(v: Seq<Spanned>) -> Seq<SpannedView> {
    v.map_values(|s: Spanned| s@)
}

/// A filter that could not be compiled, with the column it failed at.
#[derive(Debug, PartialEq, Eq)]
pub struct FilterError {
    pub message: String,
    /// Byte offset into the filter text where the problem starts.
    pub column: usize,
    /// Length of the offending text, for underlining.
    pub len: usize,
}

/// A column counted from zero, counted from one instead, as far as columns
/// go.
pub open spec fn from_one(column: int) -> int {
    if column < usize::MAX {
        column + 1
    } else {
        column
    }
}

/// What an error says.
#[verifier::ext_equal]
pub struct ErrorView {
    pub message: Seq<char>,
    pub column: int,
    pub len: int,
}

impl View for FilterError {
    type V = ErrorView;

    open spec fn view(&self) -> ErrorView {
        ErrorView {
            message: self.message@,
            column: self.column as int,
            len: self.len as int,
        }
    }
}

/// An error at `start..end`; at least one column is underlined.
pub open spec fn error_at(message: Seq<char>, start: int, end: int) -> ErrorView {
    ErrorView {
        message,
        column: start,
        len: if end - start < 1 {
            1
        } else {
            end - start
        },
    }
}

impl FilterError {
    /// An error at `span`.
    pub fn new(message: String, span: Range<usize>) -> (r: FilterError)
        ensures
            r@ == error_at(message@, span.start as int, span.end as int),
    {
        let len: usize = if span.start < span.end {
            span.end - span.start
        } else {
            1
        };
        FilterError { message, column: span.start, len }
    }

    /// The error as shown, with its column counted from one.
    pub fn text(&self) -> (r: String)
        ensures
            r@ == self.message@ + " (column "@ + dec(from_one(self.column as int)) + ")"@,
    {
        let mut out: String = text::cat(self.message.as_str(), " (column ");
        text::push_dec(&mut out, self.column_from_one());
        out.push_str(")");
        out
    }

    /// The column, counted from one.
    pub fn column_from_one(&self) -> (r: u64)
        ensures
            r == from_one(self.column as int),
    {
        if self.column < usize::MAX {
            (self.column + 1) as u64
        } else {
            self.column as u64
        }
    }
}

// ---- words ----------------------------------------------------------------------

/// White space between tokens.
pub open spec fn is_blank(b: u8) -> bool {
    b == 0x20 || b == 0x09 || b == 0x0a || b == 0x0c || b == 0x0d
}

fn blank(b: u8) -> (r: bool)
    ensures
        r == is_blank(b),
{
    b == 0x20 || b == 0x09 || b == 0x0a || b == 0x0c || b == 0x0d
}

/// An ASCII letter.
pub open spec fn is_letter(c: char) -> bool {
    'a' <= c <= 'z' || 'A' <= c <= 'Z'
}

/// Part of a name: a letter, a digit, or an underscore.
pub open spec fn is_name_char(c: char) -> bool {
    is_letter(c) || '0' <= c <= '9' || c == '_'
}

fn name_char(c: char) -> (r: bool)
    ensures
        r == is_name_char(c),
{
    ('a' <= c && c <= 'z') || ('A' <= c && c <= 'Z') || ('0' <= c && c <= '9') || c == '_'
}

/// Characters that may appear inside an unquoted word. Operators and
/// brackets are excluded, so `tcp.port==443` lexes without spaces.
pub open spec fn is_word_char(c: char) -> bool {
    is_name_char(c) || c == '.' || c == ':' || c == '-' || c == '/' || c == '*' || c == '$'
}

fn word_char(c: char) -> (r: bool)
    ensures
        r == is_word_char(c),
{
    name_char(c) || c == '.' || c == ':' || c == '-' || c == '/' || c == '*' || c == '$'
}

/// Where the word at `i` ends.
pub open spec fn word_end(d: Seq<u8>, i: int) -> int
    decreases d.len() - i,
{
    if 0 <= i < d.len() && is_word_char(d[i] as char) {
        word_end(d, i + 1)
    } else {
        i
    }
}

fn find_word_end(d: &[u8], from: usize) -> (r: usize)
    requires
        from <= d@.len(),
    ensures
        r == word_end(d@, from as int),
        from <= r <= d@.len(),
        from < d@.len() && is_word_char(d@[from as int] as char) ==> from < r,
{
    let mut i: usize = from;
    while i < d.len() && word_char(d[i] as char)
        invariant
            from <= i <= d@.len(),
            word_end(d@, from as int) == word_end(d@, i as int),
        decreases d.len() - i,
    {
        i += 1;
    }
    i
}

/// A field name: names separated by dots, the last of them not empty.
pub open spec fn is_field_name(w: Seq<char>) -> bool {
    &&& w.len() > 0
    &&& is_letter(w[0]) || w[0] == '_'
    &&& forall|i: int| 0 <= i < w.len() ==> is_field_char(#[trigger] w[i])
    &&& w.last() != '.'
}

/// Part of a field name.
pub open spec fn is_field_char(c: char) -> bool {
    is_name_char(c) || c == '.'
}

fn field_name(w: &[char]) -> (r: bool)
    ensures
        r == is_field_name(w@),
{
    if w.len() == 0 {
        return false;
    }
    let first: char = w[0];
    if !(('a' <= first && first <= 'z') || ('A' <= first && first <= 'Z')) && first != '_' {
        return false;
    }
    let mut i: usize = 0;
    while i < w.len()
        invariant
            i <= w@.len(),
            forall|j: int| 0 <= j < i ==> is_field_char(#[trigger] w@[j]),
        decreases w.len() - i,
    {
        if !name_char(w[i]) && w[i] != '.' {
            assert(!is_field_char(w@[i as int]));
            return false;
        }
        i += 1;
    }
    w[w.len() - 1] != '.'
}

// ---- numbers --------------------------------------------------------------------

/// A number may only start with a minus in an operand position: at the start,
/// behind a comparison, or where a group or a set goes on.
pub open spec fn may_be_negative(prev: Seq<SpannedView>) -> bool {
    prev.len() == 0 || match prev.last().tok {
        TokView::Eq
        | TokView::Ne
        | TokView::Gt
        | TokView::Ge
        | TokView::Lt
        | TokView::Le
        | TokView::LParen
        | TokView::LBrace
        | TokView::Comma => true,
        _ => false,
    }
}

fn allows_negative(prev: &Vec<Spanned>) -> (r: bool)
    ensures
        r == may_be_negative(tokens_view(prev@)),
{
    if prev.len() == 0 {
        return true;
    }
    let last: &Tok = &prev[prev.len() - 1].tok;
    assert(tokens_view(prev@).last().tok == last@);
    matches!(
        last,
        Tok::Eq
        | Tok::Ne
        | Tok::Gt
        | Tok::Ge
        | Tok::Lt
        | Tok::Le
        | Tok::LParen
        | Tok::LBrace
        | Tok::Comma
    )
}

/// The digits of a number and their base.
pub open spec fn base_of(body: Seq<char>) -> (Seq<char>, int) {
    if body.len() >= 2 && body[0] == '0' && (body[1] == 'x' || body[1] == 'X') {
        (body.skip(2), 16)
    } else {
        (body, 10)
    }
}

/// The number that `w` spells at `start..end`: none if it is not one, an error
/// if it is too large.
pub open spec fn number_of(w: Seq<char>, start: int, end: int, prev: Seq<SpannedView>) -> Result<
    Option<TokView>,
    ErrorView,
> {
    let negative = w.len() > 0 && w[0] == '-';
    let body = if negative {
        w.skip(1)
    } else {
        w
    };
    let (digits, radix) = base_of(body);
    if (negative && !may_be_negative(prev)) || digits.len() == 0 || !all_digits(digits, radix) {
        Ok(None)
    } else {
        match spelled(digits, radix, u64::MAX as int) {
            None => Err(
                error_at(
                    if radix == 16 {
                        "hex number is too large"@
                    } else {
                        "number is too large"@
                    },
                    start,
                    end,
                ),
            ),
            Some(v) => if !negative {
                Ok(Some(TokView::Number(v as u64)))
            } else if v <= i64::MAX {
                Ok(Some(TokView::Signed((-v) as i64)))
            } else {
                Err(error_at("number is too large"@, start, end))
            },
        }
    }
}

/// The view of an optional token.
pub open spec fn tok_view(t: Option<Tok>) -> Option<TokView> {
    match t {
        Some(t) => Some(t@),
        None => None,
    }
}

fn parse_number(w: &[char], start: usize, end: usize, prev: &Vec<Spanned>) -> (r: Result<
    Option<Tok>,
    FilterError,
>)
    ensures
        match r {
            Ok(t) => number_of(w@, start as int, end as int, tokens_view(prev@)) == Ok::<
                Option<TokView>,
                ErrorView,
            >(tok_view(t)),
            Err(e) => number_of(w@, start as int, end as int, tokens_view(prev@)) == Err::<
                Option<TokView>,
                ErrorView,
            >(e@),
        },
{
    let negative: bool = w.len() > 0 && w[0] == '-';
    if negative && !allows_negative(prev) {
        return Ok(None);
    }
    let from: usize = if negative {
        1
    } else {
        0
    };
    let body: &[char] = vstd::slice::slice_subrange(w, from, w.len());
    proof {
        assert(negative ==> body@ =~= w@.skip(1));
        assert(!negative ==> body@ =~= w@);
    }
    let hex: bool = body.len() >= 2 && body[0] == '0' && (body[1] == 'x' || body[1] == 'X');
    let skip: usize = if hex {
        2
    } else {
        0
    };
    let radix: u64 = if hex {
        16
    } else {
        10
    };
    let digits: &[char] = vstd::slice::slice_subrange(body, skip, body.len());
    proof {
        assert(hex ==> digits@ =~= body@.skip(2));
        assert(!hex ==> digits@ =~= body@);
        assert(base_of(body@) == (digits@, radix as int));
    }
    if digits.len() == 0 || !text::only_digits(digits, radix) {
        return Ok(None);
    }
    match text::parse(digits, radix, u64::MAX) {
        None => {
            let message: String = if hex {
                text::owned("hex number is too large")
            } else {
                text::owned("number is too large")
            };
            Err(FilterError::new(message, start..end))
        },
        Some(v) => if !negative {
            Ok(Some(Tok::Number(v)))
        } else if v <= i64::MAX as u64 {
            Ok(Some(Tok::Signed(-(v as i64))))
        } else {
            Err(FilterError::new(text::owned("number is too large"), start..end))
        },
    }
}

// ---- addresses ------------------------------------------------------------------

/// The prefix length that stands behind a slash, if there is a slash: at most
/// `most` bits.
pub open spec fn prefix_of(w: Seq<char>, slash: int, most: int) -> Option<int> {
    spelled(w.skip(slash + 1), 10, most)
}

/// The number in a dotted part: one to three digits, at most 255.
pub open spec fn octet_of(p: Seq<char>) -> Option<int> {
    if p.len() == 0 || p.len() > 3 || !all_digits(p, 10) {
        None
    } else {
        spelled(p, 10, 255)
    }
}

fn read_octet(p: &[char]) -> (r: Option<u8>)
    ensures
        match r {
            Some(v) => octet_of(p@) == Some(v as int),
            None => octet_of(p@) is None,
        },
{
    if p.len() == 0 || p.len() > 3 || !text::only_digits(p, 10) {
        return None;
    }
    match text::parse(p, 10, 255) {
        Some(v) => {
            proof {
                lemma_spelled_range(p@, 10, 255);
            }
            Some(v as u8)
        },
        None => None,
    }
}

proof fn lemma_spelled_range(s: Seq<char>, radix: int, max: int)
    ensures
        spelled(s, radix, max) matches Some(v) ==> v <= max,
{
}

/// The four bytes of a dotted address. With `strict`, a part other than zero
/// does not begin with a zero.
pub open spec fn quad_of(w: Seq<char>, strict: bool) -> Option<Seq<u8>> {
    let p = parts(w, '.');
    if p.len() != 4 {
        None
    } else {
        match (octet_of(p[0]), octet_of(p[1]), octet_of(p[2]), octet_of(p[3])) {
            (Some(a), Some(b), Some(c), Some(d)) => if strict && exists|i: int|
                0 <= i < 4 && (#[trigger] p[i]).len() > 1 && p[i][0] == '0' {
                None
            } else {
                Some(seq![a as u8, b as u8, c as u8, d as u8])
            },
            _ => None,
        }
    }
}

fn zero_led(p: &[char]) -> (r: bool)
    ensures
        r == (p@.len() > 1 && p@[0] == '0'),
{
    p.len() > 1 && p[0] == '0'
}

fn read_quad(w: &[char], strict: bool) -> (r: Option<[u8; 4]>)
    ensures
        match r {
            Some(a) => quad_of(w@, strict) == Some(a@),
            None => quad_of(w@, strict) is None,
        },
{
    let p: Vec<Vec<char>> = text::split(w, '.');
    assert(char_parts(p@).len() == p@.len());
    if p.len() != 4 {
        return None;
    }
    assert(forall|i: int| 0 <= i < 4 ==> p@[i]@ == #[trigger] parts(w@, '.')[i]);
    match (
        read_octet(p[0].as_slice()),
        read_octet(p[1].as_slice()),
        read_octet(p[2].as_slice()),
        read_octet(p[3].as_slice()),
    ) {
        (Some(a), Some(b), Some(c), Some(d)) => {
            if strict && (zero_led(p[0].as_slice()) || zero_led(p[1].as_slice()) || zero_led(
                p[2].as_slice(),
            ) || zero_led(p[3].as_slice())) {
                proof {
                    let q = parts(w@, '.');
                    assert(q[0].len() > 1 && q[0][0] == '0' || q[1].len() > 1 && q[1][0] == '0'
                        || q[2].len() > 1 && q[2][0] == '0' || q[3].len() > 1 && q[3][0] == '0');
                }
                return None;
            }
            let r: [u8; 4] = [a, b, c, d];
            assert(r@ =~= seq![a, b, c, d]);
            Some(r)
        },
        _ => None,
    }
}

/// An IPv4 address, or a prefix of one.
pub open spec fn ipv4_of(w: Seq<char>) -> Option<TokView> {
    match first_at(w, '/', 0) {
        None => match quad_of(w, false) {
            Some(a) => Some(TokView::Ipv4(a)),
            None => None,
        },
        Some(k) => match (quad_of(w.take(k), false), prefix_of(w, k, 32)) {
            (Some(a), Some(n)) => Some(TokView::Ipv4Cidr(a, n as u8)),
            _ => None,
        },
    }
}

fn read_prefix(w: &[char], slash: usize, most: u8) -> (r: Option<u8>)
    requires
        slash < w@.len(),
    ensures
        match r {
            Some(n) => prefix_of(w@, slash as int, most as int) == Some(n as int),
            None => prefix_of(w@, slash as int, most as int) is None,
        },
{
    assert(w@.len() == w.len());
    let rest: &[char] = vstd::slice::slice_subrange(w, slash + 1, w.len());
    assert(rest@ =~= w@.skip(slash + 1));
    match text::parse(rest, 10, most as u64) {
        Some(n) => {
            proof {
                lemma_spelled_range(rest@, 10, most as int);
            }
            Some(n as u8)
        },
        None => None,
    }
}

fn parse_ipv4(w: &[char]) -> (r: Option<Tok>)
    ensures
        tok_view(r) == ipv4_of(w@),
{
    match text::find_char(w, '/', 0) {
        None => match read_quad(w, false) {
            Some(a) => Some(Tok::Ipv4(a)),
            None => None,
        },
        Some(k) => {
            let addr: &[char] = vstd::slice::slice_subrange(w, 0, k);
            assert(addr@ =~= w@.take(k as int));
            match (read_quad(addr, false), read_prefix(w, k, 32)) {
                (Some(a), Some(n)) => Some(Tok::Ipv4Cidr(a, n)),
                _ => None,
            }
        },
    }
}

/// The two bytes of a group: one to four hex digits.
pub open spec fn group_of(p: Seq<char>) -> Option<Seq<u8>> {
    if p.len() == 0 || p.len() > 4 || !all_digits(p, 16) {
        None
    } else {
        match spelled(p, 16, 0xffff) {
            Some(v) => Some(seq![(v / 0x100) as u8, (v % 0x100) as u8]),
            None => None,
        }
    }
}

fn read_group(p: &[char]) -> (r: Option<(u8, u8)>)
    ensures
        match r {
            Some((a, b)) => group_of(p@) == Some(seq![a, b]),
            None => group_of(p@) is None,
        },
{
    if p.len() == 0 || p.len() > 4 || !text::only_digits(p, 16) {
        return None;
    }
    match text::parse(p, 16, 0xffff) {
        Some(v) => {
            proof {
                lemma_spelled_range(p@, 16, 0xffff);
            }
            Some(((v / 0x100) as u8, (v % 0x100) as u8))
        },
        None => None,
    }
}

/// The bytes of the colon-separated groups from `i` on. With `quad`, the last
/// one may be a dotted address instead.
pub open spec fn groups_from(p: Seq<Seq<char>>, i: int, quad: bool) -> Option<Seq<u8>>
    decreases p.len() - i,
{
    if i < 0 || i >= p.len() {
        Some(Seq::empty())
    } else {
        let here = if quad && i == p.len() - 1 && quad_of(p[i], true) is Some {
            quad_of(p[i], true)
        } else {
            group_of(p[i])
        };
        match (here, groups_from(p, i + 1, quad)) {
            (Some(a), Some(b)) => Some(a + b),
            _ => None,
        }
    }
}

/// The bytes of one side of an address: none if it is empty.
pub open spec fn side_of(s: Seq<char>, quad: bool) -> Option<Seq<u8>> {
    if s.len() == 0 {
        Some(Seq::empty())
    } else {
        groups_from(parts(s, ':'), 0, quad)
    }
}

fn read_side(s: &[char], quad: bool) -> (r: Option<Vec<u8>>)
    ensures
        match r {
            Some(b) => side_of(s@, quad) == Some(b@),
            None => side_of(s@, quad) is None,
        },
{
    let mut out: Vec<u8> = Vec::new();
    if s.len() == 0 {
        assert(out@ =~= Seq::empty());
        return Some(out);
    }
    let p: Vec<Vec<char>> = text::split(s, ':');
    let ghost q = parts(s@, ':');
    assert(char_parts(p@).len() == p@.len());
    let mut i: usize = 0;
    assert(match groups_from(q, 0, quad) {
        Some(rest) => out@ + rest =~= rest,
        None => true,
    });
    while i < p.len()
        invariant
            i <= p@.len(),
            q == char_parts(p@),
            q == parts(s@, ':'),
            s@.len() > 0,
            match (groups_from(q, i as int, quad), groups_from(q, 0, quad)) {
                (Some(rest), Some(all)) => all == out@ + rest,
                (None, None) => true,
                _ => false,
            },
        decreases p.len() - i,
    {
        let ghost before = out@;
        let last: bool = i == p.len() - 1;
        let part: &[char] = p[i].as_slice();
        assert(part@ == q[i as int]);
        let dotted: Option<[u8; 4]> = if quad && last {
            read_quad(part, true)
        } else {
            None
        };
        match dotted {
            Some(a) => {
                bytes::put_all(&mut out, &a);
                assert(out@ == before + a@);
            },
            None => match read_group(part) {
                Some((a, b)) => {
                    out.push(a);
                    out.push(b);
                    assert(out@ =~= before + seq![a, b]);
                },
                None => {
                    return None;
                },
            },
        }
        proof {
            if let Some(rest) = groups_from(q, i + 1, quad) {
                let here = out@.skip(before.len() as int);
                assert(out@ =~= before + here);
                assert(before + (here + rest) =~= out@ + rest);
            }
        }
        i += 1;
    }
    assert(out@ + Seq::<u8>::empty() =~= out@);
    Some(out)
}

/// The position of the first `::`.
pub open spec fn gap_at(s: Seq<char>, i: int) -> Option<int>
    decreases s.len() - i,
{
    if i < 0 || i + 2 > s.len() {
        None
    } else if s[i] == ':' && s[i + 1] == ':' {
        Some(i)
    } else {
        gap_at(s, i + 1)
    }
}

fn find_gap(s: &[char]) -> (r: Option<usize>)
    ensures
        match r {
            Some(i) => gap_at(s@, 0) == Some(i as int) && i + 2 <= s@.len() <= usize::MAX,
            None => gap_at(s@, 0) is None,
        },
{
    let mut i: usize = 0;
    while i < s.len() && s.len() - i >= 2
        invariant
            gap_at(s@, 0) == gap_at(s@, i as int),
        decreases s.len() - i,
    {
        if s[i] == ':' && s[i + 1] == ':' {
            return Some(i);
        }
        i += 1;
    }
    None
}

/// The sixteen bytes of an IPv6 address: eight groups, or fewer with one `::`
/// that stands for at least one group of zeros. The last two groups may be
/// written as a dotted address.
pub open spec fn hextets_of(s: Seq<char>) -> Option<Seq<u8>> {
    match gap_at(s, 0) {
        None => match side_of(s, true) {
            Some(b) => if b.len() == 16 {
                Some(b)
            } else {
                None
            },
            None => None,
        },
        Some(k) => match (side_of(s.take(k), false), side_of(s.skip(k + 2), true)) {
            (Some(a), Some(b)) => if a.len() + b.len() <= 14 {
                Some(a + Seq::new((16 - a.len() - b.len()) as nat, |i: int| 0u8) + b)
            } else {
                None
            },
            _ => None,
        },
    }
}

fn sixteen(b: &Vec<u8>) -> (r: [u8; 16])
    requires
        b@.len() == 16,
    ensures
        r@ == b@,
{
    let r: [u8; 16] = [
        b[0], b[1], b[2], b[3], b[4], b[5], b[6], b[7], b[8], b[9], b[10], b[11], b[12], b[13],
        b[14], b[15],
    ];
    assert(r@ =~= b@);
    r
}

fn read_hextets(s: &[char]) -> (r: Option<[u8; 16]>)
    ensures
        match r {
            Some(a) => hextets_of(s@) == Some(a@),
            None => hextets_of(s@) is None,
        },
{
    match find_gap(s) {
        None => match read_side(s, true) {
            Some(b) => if b.len() == 16 {
                Some(sixteen(&b))
            } else {
                None
            },
            None => None,
        },
        Some(k) => {
            let head: &[char] = vstd::slice::slice_subrange(s, 0, k);
            let tail: &[char] = vstd::slice::slice_subrange(s, k + 2, s.len());
            proof {
                assert(head@ =~= s@.take(k as int));
                assert(tail@ =~= s@.skip(k + 2));
            }
            match (read_side(head, false), read_side(tail, true)) {
                (Some(a), Some(b)) => {
                    if a.len() > 14 || b.len() > 14 - a.len() {
                        return None;
                    }
                    let n: usize = 16 - a.len() - b.len();
                    let mut out: Vec<u8> = bytes::copy_of(a.as_slice());
                    let mut i: usize = 0;
                    while i < n
                        invariant
                            i <= n,
                            out@ =~= a@ + Seq::new(i as nat, |i: int| 0u8),
                        decreases n - i,
                    {
                        out.push(0);
                        i += 1;
                    }
                    bytes::put_all(&mut out, b.as_slice());
                    Some(sixteen(&out))
                },
                _ => None,
            }
        },
    }
}

/// An IPv6 address, or a prefix of one.
pub open spec fn ipv6_of(w: Seq<char>) -> Option<TokView> {
    match first_at(w, '/', 0) {
        None => if first_at(w, ':', 0) is None {
            None
        } else {
            match hextets_of(w) {
                Some(a) => Some(TokView::Ipv6(a)),
                None => None,
            }
        },
        Some(k) => if first_at(w.take(k), ':', 0) is None {
            None
        } else {
            match (hextets_of(w.take(k)), prefix_of(w, k, 128)) {
                (Some(a), Some(n)) => Some(TokView::Ipv6Cidr(a, n as u8)),
                _ => None,
            }
        },
    }
}

fn parse_ipv6(w: &[char]) -> (r: Option<Tok>)
    ensures
        tok_view(r) == ipv6_of(w@),
{
    match text::find_char(w, '/', 0) {
        None => {
            if text::find_char(w, ':', 0).is_none() {
                return None;
            }
            match read_hextets(w) {
                Some(a) => Some(Tok::Ipv6(a)),
                None => None,
            }
        },
        Some(k) => {
            let addr: &[char] = vstd::slice::slice_subrange(w, 0, k);
            assert(addr@ =~= w@.take(k as int));
            if text::find_char(addr, ':', 0).is_none() {
                return None;
            }
            match (read_hextets(addr), read_prefix(w, k, 128)) {
                (Some(a), Some(n)) => Some(Tok::Ipv6Cidr(a, n)),
                _ => None,
            }
        },
    }
}

/// The bytes of the hex pairs from `i` on.
pub open spec fn pairs_from(p: Seq<Seq<char>>, i: int) -> Option<Seq<u8>>
    decreases p.len() - i,
{
    if i < 0 || i >= p.len() {
        Some(Seq::empty())
    } else if p[i].len() != 2 || !all_digits(p[i], 16) {
        None
    } else {
        match (spelled(p[i], 16, 255), pairs_from(p, i + 1)) {
            (Some(v), Some(rest)) => Some(seq![v as u8] + rest),
            _ => None,
        }
    }
}

/// `aa:bb:cc` and friends: two-hex-digit groups separated by colons.
pub open spec fn hex_bytes_of(w: Seq<char>) -> Option<TokView> {
    if first_at(w, ':', 0) is None || first_at(w, '/', 0) is Some {
        None
    } else {
        match pairs_from(parts(w, ':'), 0) {
            Some(b) => Some(TokView::Bytes(b)),
            None => None,
        }
    }
}

fn parse_hex_bytes(w: &[char]) -> (r: Option<Tok>)
    ensures
        tok_view(r) == hex_bytes_of(w@),
{
    if text::find_char(w, ':', 0).is_none() || text::find_char(w, '/', 0).is_some() {
        return None;
    }
    let p: Vec<Vec<char>> = text::split(w, ':');
    let ghost q = parts(w@, ':');
    assert(char_parts(p@).len() == p@.len());
    let mut out: Vec<u8> = Vec::new();
    let mut i: usize = 0;
    assert(match pairs_from(q, 0) {
        Some(rest) => out@ + rest =~= rest,
        None => true,
    });
    while i < p.len()
        invariant
            i <= p@.len(),
            q == char_parts(p@),
            q == parts(w@, ':'),
            first_at(w@, ':', 0) is Some,
            first_at(w@, '/', 0) is None,
            match (pairs_from(q, i as int), pairs_from(q, 0)) {
                (Some(rest), Some(all)) => all == out@ + rest,
                (None, None) => true,
                _ => false,
            },
        decreases p.len() - i,
    {
        let ghost before = out@;
        let part: &[char] = p[i].as_slice();
        assert(part@ == q[i as int]);
        if part.len() != 2 || !text::only_digits(part, 16) {
            return None;
        }
        match text::parse(part, 16, 255) {
            None => {
                return None;
            },
            Some(v) => {
                proof {
                    lemma_spelled_range(part@, 16, 255);
                    if let Some(rest) = pairs_from(q, i + 1) {
                        assert(before + (seq![v as u8] + rest) =~= before.push(v as u8) + rest);
                    }
                }
                out.push(v as u8);
            },
        }
        i += 1;
    }
    assert(out@ + Seq::<u8>::empty() =~= out@);
    Some(Tok::Bytes(out))
}

// ---- what a word is -------------------------------------------------------------

/// A keyword.
pub open spec fn keyword_of(w: Seq<char>) -> Option<TokView> {
    if w == "contains"@ {
        Some(TokView::Contains)
    } else if w == "matches"@ {
        Some(TokView::Matches)
    } else if w == "in"@ {
        Some(TokView::In)
    } else if w == "and"@ {
        Some(TokView::And)
    } else if w == "or"@ {
        Some(TokView::Or)
    } else if w == "not"@ {
        Some(TokView::Not)
    } else if w == "true"@ {
        Some(TokView::Bool(true))
    } else if w == "false"@ {
        Some(TokView::Bool(false))
    } else {
        None
    }
}

fn keyword(w: &str) -> (r: Option<Tok>)
    ensures
        tok_view(r) == keyword_of(w@),
{
    if text::same(w, "contains") {
        Some(Tok::Contains)
    } else if text::same(w, "matches") {
        Some(Tok::Matches)
    } else if text::same(w, "in") {
        Some(Tok::In)
    } else if text::same(w, "and") {
        Some(Tok::And)
    } else if text::same(w, "or") {
        Some(Tok::Or)
    } else if text::same(w, "not") {
        Some(Tok::Not)
    } else if text::same(w, "true") {
        Some(Tok::Bool(true))
    } else if text::same(w, "false") {
        Some(Tok::Bool(false))
    } else {
        None
    }
}

/// What the word `w` at `start..end` is. Literal forms are tried before field
/// names so `aa:bb:cc:dd:ee:ff` is a MAC rather than a (nonexistent) field, and
/// hex pairs before addresses, so eight pairs are a byte string.
pub open spec fn classified(w: Seq<char>, start: int, end: int, prev: Seq<SpannedView>) -> Result<
    TokView,
    ErrorView,
> {
    if w.len() == 0 {
        Err(error_at("expected a value"@, start, end))
    } else if keyword_of(w) is Some {
        Ok(keyword_of(w)->0)
    } else if ipv4_of(w) is Some {
        Ok(ipv4_of(w)->0)
    } else if hex_bytes_of(w) is Some {
        Ok(hex_bytes_of(w)->0)
    } else if ipv6_of(w) is Some {
        Ok(ipv6_of(w)->0)
    } else {
        match number_of(w, start, end, prev) {
            Err(e) => Err(e),
            Ok(Some(t)) => Ok(t),
            Ok(None) => if is_field_name(w) {
                Ok(TokView::Field(w))
            } else {
                Err(
                    error_at("`"@ + w + "` is not a field name or a literal"@, start, end),
                )
            },
        }
    }
}

/// The outcome of a step, by what it holds.
pub open spec fn tok_outcome(r: Result<Tok, FilterError>) -> Result<TokView, ErrorView> {
    match r {
        Ok(t) => Ok(t@),
        Err(e) => Err(e@),
    }
}

fn classify(w: &[char], start: usize, end: usize, prev: &Vec<Spanned>) -> (r: Result<
    Tok,
    FilterError,
>)
    ensures
        tok_outcome(r) == classified(w@, start as int, end as int, tokens_view(prev@)),
{
    if w.len() == 0 {
        return Err(FilterError::new(text::owned("expected a value"), start..end));
    }
    let word: String = text::from_chars(w);
    if let Some(t) = keyword(word.as_str()) {
        return Ok(t);
    }
    if let Some(t) = parse_ipv4(w) {
        return Ok(t);
    }
    if let Some(t) = parse_hex_bytes(w) {
        return Ok(t);
    }
    if let Some(t) = parse_ipv6(w) {
        return Ok(t);
    }
    match parse_number(w, start, end, prev) {
        Err(e) => {
            return Err(e);
        },
        Ok(Some(t)) => {
            return Ok(t);
        },
        Ok(None) => {},
    }
    if field_name(w) {
        return Ok(Tok::Field(word));
    }
    let mut message: String = text::cat("`", word.as_str());
    message.push_str("` is not a field name or a literal");
    Err(FilterError::new(message, start..end))
}

// ---- strings --------------------------------------------------------------------

/// The character that a plain escape stands for.
pub open spec fn escaped(b: u8) -> Option<char> {
    if b == 0x6e {
        Some('\n')
    } else if b == 0x74 {
        Some('\t')
    } else if b == 0x72 {
        Some('\r')
    } else if b == 0x30 {
        Some('\0')
    } else if b == 0x5c {
        Some('\\')
    } else if b == 0x22 {
        Some('"')
    } else if b == 0x27 {
        Some('\'')
    } else {
        None
    }
}

fn unescape(b: u8) -> (r: Option<char>)
    ensures
        r == escaped(b),
{
    if b == 0x6e {
        Some('\n')
    } else if b == 0x74 {
        Some('\t')
    } else if b == 0x72 {
        Some('\r')
    } else if b == 0x30 {
        Some('\0')
    } else if b == 0x5c {
        Some('\\')
    } else if b == 0x22 {
        Some('"')
    } else if b == 0x27 {
        Some('\'')
    } else {
        None
    }
}

/// The byte that the two hex digits at `i` spell.
pub open spec fn hex_escape(d: Seq<u8>, i: int) -> Option<int> {
    if i + 2 <= d.len() {
        spelled(latin(d.subrange(i, i + 2)), 16, 255)
    } else {
        None
    }
}

fn read_hex_escape(d: &[u8], i: usize) -> (r: Option<u8>)
    requires
        i <= d@.len(),
    ensures
        match r {
            Some(b) => hex_escape(d@, i as int) == Some(b as int) && i + 2 <= d@.len(),
            None => hex_escape(d@, i as int) is None,
        },
{
    if d.len() - i < 2 {
        return None;
    }
    let chars: Vec<char> = text::from_latin(bytes::part(d, i, i + 2));
    match text::parse(chars.as_slice(), 16, 255) {
        Some(v) => {
            proof {
                lemma_spelled_range(chars@, 16, 255);
            }
            Some(v as u8)
        },
        None => None,
    }
}

/// The rest of the string that began at `at`, from `i` on, behind what was
/// read of it so far, and where it ends.
pub open spec fn string_from(d: Seq<u8>, at: int, i: int, quote: u8, s: Seq<char>) -> Result<
    (Seq<char>, int),
    ErrorView,
>
    decreases d.len() - i,
{
    if i < 0 || i >= d.len() {
        Err(error_at("unterminated string"@, at, at + 1))
    } else if d[i] == quote {
        Ok((s, i + 1))
    } else if d[i] == 0x5c {
        if i + 1 >= d.len() {
            Err(error_at("string ends with a trailing backslash"@, i, i + 1))
        } else if escaped(d[i + 1]) is Some {
            string_from(d, at, i + 2, quote, s.push(escaped(d[i + 1])->0))
        } else if d[i + 1] == 0x78 {
            match hex_escape(d, i + 2) {
                Some(v) => if i + 4 <= d.len() {
                    string_from(d, at, i + 4, quote, s.push((v as u8) as char))
                } else {
                    Err(error_at("`\\x` needs two hex digits"@, i, i + 2))
                },
                None => Err(error_at("`\\x` needs two hex digits"@, i, i + 2)),
            }
        } else {
            Err(
                error_at(
                    "unknown escape `\\"@ + seq![d[i + 1] as char] + "`"@,
                    i,
                    i + 2,
                ),
            )
        }
    } else {
        string_from(d, at, i + 1, quote, s.push(d[i] as char))
    }
}

fn lex_string(d: &[u8], at: usize, quote: u8) -> (r: Result<(String, usize), FilterError>)
    requires
        at < d@.len(),
    ensures
        match r {
            Ok((s, end)) => string_from(d@, at as int, at + 1, quote, Seq::empty()) == Ok::<
                (Seq<char>, int),
                ErrorView,
            >((s@, end as int)) && at < end <= d@.len(),
            Err(e) => string_from(d@, at as int, at + 1, quote, Seq::empty()) == Err::<
                (Seq<char>, int),
                ErrorView,
            >(e@),
        },
{
    let n: usize = d.len();
    let mut s: String = String::new();
    let mut i: usize = at + 1;
    assert(s@ =~= Seq::empty());
    while i < n
        invariant
            n == d@.len(),
            at < i <= n,
            string_from(d@, at as int, at + 1, quote, Seq::empty()) == string_from(
                d@,
                at as int,
                i as int,
                quote,
                s@,
            ),
        decreases n - i,
    {
        let b: u8 = d[i];
        if b == quote {
            return Ok((s, i + 1));
        }
        if b == 0x5c {
            if n - i < 2 {
                return Err(
                    FilterError::new(
                        text::owned("string ends with a trailing backslash"),
                        i..i + 1,
                    ),
                );
            }
            let next: u8 = d[i + 1];
            if let Some(c) = unescape(next) {
                s.push(c);
                i += 2;
            } else if next == 0x78 {
                match read_hex_escape(d, i + 2) {
                    Some(v) => {
                        s.push(v as char);
                        i += 4;
                    },
                    None => {
                        return Err(
                            FilterError::new(text::owned("`\\x` needs two hex digits"), i..i + 2),
                        );
                    },
                }
            } else {
                let mut message: String = text::owned("unknown escape `\\");
                message.push(next as char);
                message.push_str("`");
                assert(message@ =~= "unknown escape `\\"@ + seq![next as char] + "`"@);
                return Err(FilterError::new(message, i..i + 2));
            }
        } else {
            s.push(b as char);
            i += 1;
        }
    }
    Err(FilterError::new(text::owned("unterminated string"), at..at + 1))
}

// ---- tokens ---------------------------------------------------------------------

/// The operator or bracket at `i`, and its length.
pub open spec fn symbol_at(d: Seq<u8>, i: int) -> Option<(TokView, int)> {
    let b = d[i];
    let next = if i + 1 < d.len() {
        d[i + 1]
    } else {
        0
    };
    if b == 0x3d && next == 0x3d {
        Some((TokView::Eq, 2))
    } else if b == 0x21 && next == 0x3d {
        Some((TokView::Ne, 2))
    } else if b == 0x3e && next == 0x3d {
        Some((TokView::Ge, 2))
    } else if b == 0x3c && next == 0x3d {
        Some((TokView::Le, 2))
    } else if b == 0x26 && next == 0x26 {
        Some((TokView::And, 2))
    } else if b == 0x7c && next == 0x7c {
        Some((TokView::Or, 2))
    } else if b == 0x3e {
        Some((TokView::Gt, 1))
    } else if b == 0x3c {
        Some((TokView::Lt, 1))
    } else if b == 0x21 {
        Some((TokView::Not, 1))
    } else if b == 0x28 {
        Some((TokView::LParen, 1))
    } else if b == 0x29 {
        Some((TokView::RParen, 1))
    } else if b == 0x7b {
        Some((TokView::LBrace, 1))
    } else if b == 0x7d {
        Some((TokView::RBrace, 1))
    } else if b == 0x5b {
        Some((TokView::LBracket, 1))
    } else if b == 0x5d {
        Some((TokView::RBracket, 1))
    } else if b == 0x3a {
        Some((TokView::Colon, 1))
    } else if b == 0x2c {
        Some((TokView::Comma, 1))
    } else {
        None
    }
}

fn symbol(d: &[u8], i: usize) -> (r: Option<(Tok, usize)>)
    requires
        i < d@.len(),
    ensures
        match r {
            Some((t, n)) => symbol_at(d@, i as int) == Some((t@, n as int)) && 1 <= n && i + n
                <= d@.len(),
            None => symbol_at(d@, i as int) is None,
        },
{
    let b: u8 = d[i];
    let next: u8 = if d.len() - i > 1 {
        d[i + 1]
    } else {
        0
    };
    if b == 0x3d && next == 0x3d {
        Some((Tok::Eq, 2))
    } else if b == 0x21 && next == 0x3d {
        Some((Tok::Ne, 2))
    } else if b == 0x3e && next == 0x3d {
        Some((Tok::Ge, 2))
    } else if b == 0x3c && next == 0x3d {
        Some((Tok::Le, 2))
    } else if b == 0x26 && next == 0x26 {
        Some((Tok::And, 2))
    } else if b == 0x7c && next == 0x7c {
        Some((Tok::Or, 2))
    } else if b == 0x3e {
        Some((Tok::Gt, 1))
    } else if b == 0x3c {
        Some((Tok::Lt, 1))
    } else if b == 0x21 {
        Some((Tok::Not, 1))
    } else if b == 0x28 {
        Some((Tok::LParen, 1))
    } else if b == 0x29 {
        Some((Tok::RParen, 1))
    } else if b == 0x7b {
        Some((Tok::LBrace, 1))
    } else if b == 0x7d {
        Some((Tok::RBrace, 1))
    } else if b == 0x5b {
        Some((Tok::LBracket, 1))
    } else if b == 0x5d {
        Some((Tok::RBracket, 1))
    } else if b == 0x3a {
        Some((Tok::Colon, 1))
    } else if b == 0x2c {
        Some((Tok::Comma, 1))
    } else {
        None
    }
}

/// The last token opened or continued a slice.
pub open spec fn in_slice(prev: Seq<SpannedView>) -> bool {
    prev.len() > 0 && (prev.last().tok is LBracket || prev.last().tok is Colon)
}

/// Where the word at `i` ends. Inside a slice, `3]` must not swallow the `:`
/// of `0:3`: a word that starts right after `[` or `:` ends at its first
/// colon.
pub open spec fn word_cut(d: Seq<u8>, i: int, prev: Seq<SpannedView>) -> int {
    let end = word_end(d, i);
    if in_slice(prev) {
        match first_at(latin(d.subrange(i, end)), ':', 0) {
            Some(k) => i + k,
            None => end,
        }
    } else {
        end
    }
}

fn ends_in_slice(prev: &Vec<Spanned>) -> (r: bool)
    ensures
        r == in_slice(tokens_view(prev@)),
{
    if prev.len() == 0 {
        return false;
    }
    let last: &Tok = &prev[prev.len() - 1].tok;
    assert(tokens_view(prev@).last().tok == last@);
    matches!(last, Tok::LBracket | Tok::Colon)
}

/// How many bytes the character with number `b` takes in UTF-8.
pub open spec fn width_of(b: u8) -> int {
    if b < 0x80 {
        1
    } else {
        2
    }
}

/// The tokens from `i` on, behind those read so far.
pub open spec fn lexed(d: Seq<u8>, i: int, out: Seq<SpannedView>) -> Result<
    Seq<SpannedView>,
    ErrorView,
>
    decreases d.len() - i,
{
    if i < 0 || i >= d.len() {
        Ok(out)
    } else if is_blank(d[i]) {
        lexed(d, i + 1, out)
    } else if symbol_at(d, i) is Some {
        let (tok, n) = symbol_at(d, i)->0;
        if 1 <= n && i + n <= d.len() {
            lexed(d, i + n, out.push(SpannedView { tok, start: i, end: i + n }))
        } else {
            Ok(out)
        }
    } else if d[i] == 0x3d {
        Err(error_at("`=` is not an operator; use `==` to compare"@, i, i + 1))
    } else if d[i] == 0x26 {
        Err(error_at("single `&` is not an operator; use `&&`"@, i, i + 1))
    } else if d[i] == 0x7c {
        Err(error_at("single `|` is not an operator; use `||`"@, i, i + 1))
    } else if d[i] == 0x22 || d[i] == 0x27 {
        match string_from(d, i, i + 1, d[i], Seq::empty()) {
            Ok((s, end)) => if i < end <= d.len() {
                lexed(d, end, out.push(SpannedView { tok: TokView::Str(s), start: i, end }))
            } else {
                Ok(out)
            },
            Err(e) => Err(e),
        }
    } else if !is_word_char(d[i] as char) {
        Err(
            error_at(
                "unexpected character `"@ + seq![d[i] as char] + "`"@,
                i,
                i + width_of(d[i]),
            ),
        )
    } else {
        let end = word_cut(d, i, out);
        match classified(latin(d.subrange(i, end)), i, end, out) {
            Ok(tok) => if i < end <= d.len() {
                lexed(d, end, out.push(SpannedView { tok, start: i, end }))
            } else {
                Ok(out)
            },
            Err(e) => Err(e),
        }
    }
}

/// The outcome of a read, by what it holds.
pub open spec fn lex_outcome(r: Result<Vec<Spanned>, FilterError>) -> Result<
    Seq<SpannedView>,
    ErrorView,
> {
    match r {
        Ok(v) => Ok(tokens_view(v@)),
        Err(e) => Err(e@),
    }
}

/// The word at `i`, and where it ends.
fn word_at(d: &[u8], i: usize, prev: &Vec<Spanned>) -> (r: (Vec<char>, usize))
    requires
        i < d@.len(),
        is_word_char(d@[i as int] as char),
        symbol_at(d@, i as int) is None,
    ensures
        r.1 == word_cut(d@, i as int, tokens_view(prev@)),
        i < r.1 <= d@.len(),
        r.0@ == latin(d@.subrange(i as int, r.1 as int)),
{
    let end: usize = find_word_end(d, i);
    let word: Vec<char> = text::from_latin(bytes::part(d, i, end));
    if ends_in_slice(prev) {
        if let Some(k) = text::find_char(word.as_slice(), ':', 0) {
            assert(word@[0] == d@[i as int] as char);
            assert(k > 0) by {
                assert(word@[0] != ':');
            }
            return (text::from_latin(bytes::part(d, i, i + k)), i + k);
        }
    }
    (word, end)
}

/// The tokens of a filter.
pub fn lex(input: &str) -> (r: Result<Vec<Spanned>, FilterError>)
    ensures
        lex_outcome(r) == lexed(encode_utf8(input@), 0, Seq::empty()),
{
    let d: &[u8] = input.as_bytes();
    let n: usize = d.len();
    let mut out: Vec<Spanned> = Vec::new();
    let mut i: usize = 0;
    assert(tokens_view(out@) =~= Seq::empty());
    let ghost all = lexed(encode_utf8(input@), 0, Seq::empty());
    while i < n
        invariant
            n == d@.len(),
            i <= n,
            all == lexed(encode_utf8(input@), 0, Seq::empty()),
            d@ == encode_utf8(input@),
            all == lexed(d@, i as int, tokens_view(out@)),
        decreases n - i,
    {
        let b: u8 = d[i];
        let ghost before = tokens_view(out@);
        if blank(b) {
            i += 1;
        } else if let Some((tok, len)) = symbol(d, i) {
            out.push(Spanned { tok, span: i..i + len });
            assert(tokens_view(out@) =~= before.push(
                SpannedView { tok: tok@, start: i as int, end: i + len },
            ));
            i += len;
        } else if b == 0x3d {
            return Err(
                FilterError::new(
                    text::owned("`=` is not an operator; use `==` to compare"),
                    i..i + 1,
                ),
            );
        } else if b == 0x26 {
            return Err(
                FilterError::new(text::owned("single `&` is not an operator; use `&&`"), i..i + 1),
            );
        } else if b == 0x7c {
            return Err(
                FilterError::new(text::owned("single `|` is not an operator; use `||`"), i..i + 1),
            );
        } else if b == 0x22 || b == 0x27 {
            match lex_string(d, i, b) {
                Err(e) => {
                    return Err(e);
                },
                Ok((s, end)) => {
                    out.push(Spanned { tok: Tok::Str(s), span: i..end });
                    assert(tokens_view(out@) =~= before.push(
                        SpannedView { tok: TokView::Str(s@), start: i as int, end: end as int },
                    ));
                    i = end;
                },
            }
        } else if !word_char(b as char) {
            let mut message: String = text::owned("unexpected character `");
            message.push(b as char);
            message.push_str("`");
            assert(message@ =~= "unexpected character `"@ + seq![b as char] + "`"@);
            let width: usize = if b < 0x80 {
                1
            } else {
                2
            };
            return Err(FilterError { message, column: i, len: width });
        } else {
            let (word, end) = word_at(d, i, &out);
            match classify(word.as_slice(), i, end, &out) {
                Err(e) => {
                    return Err(e);
                },
                Ok(tok) => {
                    out.push(Spanned { tok, span: i..end });
                    assert(tokens_view(out@) =~= before.push(
                        SpannedView { tok: tok@, start: i as int, end: end as int },
                    ));
                    i = end;
                },
            }
        }
    }
    Ok(out)
}

} // verus!
