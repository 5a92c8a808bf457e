//! Recursive-descent parser for the display filter grammar.
//!
//! Precedence, loosest first: `||`, `&&`, `!`, then a comparison or a bare
//! field. Parentheses group. The parser is only concerned with shape; the
//! type checker decides whether a comparison makes sense.

use std::ops::Range;

use vstd::prelude::*;
use vstd::utf8::encode_utf8;

use super::ast::{
    values_view, CmpOp, Expr, ExprView, FieldRef, FieldView, Literal, LiteralView, Slice,
    SpannedLiteral, ValueAt,
};
use super::lex::{
    described, error_at, lex, lexed, tokens_view, ErrorView, FilterError, Spanned, SpannedView,
    Tok, TokView,
};
use crate::bytes;
use crate::text;

verus! {

/// A parsed piece and the position behind it.
pub type Parsed<T> = Result<(T, int), ErrorView>;

/// The span to blame when input runs out: just behind the last token.
pub open spec fn eof_at(ts: Seq<SpannedView>, end: int) -> int {
    if ts.len() > 0 {
        ts.last().end
    } else {
        end
    }
}

/// The error of running out of input.
pub open spec fn ends_here(message: Seq<char>, ts: Seq<SpannedView>, end: int) -> ErrorView {
    error_at(message, eof_at(ts, end), eof_at(ts, end) + 1)
}

/// The position behind token `want`, which has to stand at `p`.
pub open spec fn expected(
    ts: Seq<SpannedView>,
    end: int,
    p: int,
    want: TokView,
    what: Seq<char>,
) -> Result<
    int,
    ErrorView,
> {
    if p < 0 || p >= ts.len() {
        Err(ends_here("expected "@ + what + ", but the filter ends here"@, ts, end))
    } else if ts[p].tok == want {
        Ok(p + 1)
    } else {
        Err(
            error_at(
                "expected "@ + what + ", found "@ + described(ts[p].tok),
                ts[p].start,
                ts[p].end,
            ),
        )
    }
}

/// The literal that a token is.
pub open spec fn literal_of(t: TokView) -> Option<LiteralView> {
    match t {
        TokView::Number(n) => Some(LiteralView::Unsigned(n)),
        TokView::Signed(n) => Some(LiteralView::Signed(n)),
        TokView::Str(s) => Some(LiteralView::Str(s)),
        TokView::Bytes(b) => Some(LiteralView::Bytes(b)),
        TokView::Ipv4(a) => Some(LiteralView::Ipv4(a)),
        TokView::Ipv4Cidr(a, n) => Some(LiteralView::Ipv4Cidr(a, n)),
        TokView::Ipv6(a) => Some(LiteralView::Ipv6(a)),
        TokView::Ipv6Cidr(a, n) => Some(LiteralView::Ipv6Cidr(a, n)),
        TokView::Bool(b) => Some(LiteralView::Bool(b)),
        _ => None,
    }
}

/// The value at `p`.
pub open spec fn literal_at(ts: Seq<SpannedView>, end: int, p: int) -> Parsed<ValueAt> {
    if p < 0 || p >= ts.len() {
        Err(ends_here("expected a value, but the filter ends here"@, ts, end))
    } else {
        match (literal_of(ts[p].tok), ts[p].tok) {
            (Some(value), _) => Ok(
                (ValueAt { value, start: ts[p].start, end: ts[p].end }, p + 1),
            ),
            (None, TokView::Field(name)) => Err(
                error_at(
                    "expected a value, found field `"@ + name
                        + "`; comparing two fields is not supported"@,
                    ts[p].start,
                    ts[p].end,
                ),
            ),
            (None, t) => Err(
                error_at("expected a value, found "@ + described(t), ts[p].start, ts[p].end),
            ),
        }
    }
}

/// An optional `[offset]`, `[offset:len]`, `[offset:]` or `[:len]` at `p`.
pub open spec fn slice_at(ts: Seq<SpannedView>, end: int, p: int) -> Parsed<Option<Slice>> {
    if p >= ts.len() || !(ts[p].tok is LBracket) {
        Ok((None, p))
    } else if p + 1 >= ts.len() {
        Err(ends_here("expected a slice offset, but the filter ends here"@, ts, end))
    } else {
        let t = ts[p + 1];
        match t.tok {
            TokView::Number(n) => length_at(ts, end, p + 2, n as usize),
            TokView::Colon => length_at(ts, end, p + 1, 0),
            other => Err(
                error_at("expected a slice offset, found "@ + described(other), t.start, t.end),
            ),
        }
    }
}

/// The rest of a slice behind its offset. Without a colon it takes one byte;
/// with nothing behind the colon it runs to the end of the field.
pub open spec fn length_at(ts: Seq<SpannedView>, end: int, p: int, offset: usize) -> Parsed<
    Option<Slice>,
> {
    let (len, q) = if p < ts.len() && ts[p].tok is Colon {
        if p + 1 < ts.len() && ts[p + 1].tok is Number {
            (Some(ts[p + 1].tok->Number_0 as usize), p + 2)
        } else {
            (None, p + 1)
        }
    } else {
        (Some(1), p)
    };
    if len == Some(0usize) && q < ts.len() {
        Err(error_at("a slice cannot have length 0"@, ts[q].start, ts[q].end))
    } else {
        match expected(ts, end, q, TokView::RBracket, "`]` to close the slice"@) {
            Ok(r) => Ok((Some(Slice { offset, len }), r)),
            Err(e) => Err(e),
        }
    }
}

/// The operator at `p`.
pub open spec fn operator_at(ts: Seq<SpannedView>, p: int) -> Option<CmpOp> {
    if p < 0 || p >= ts.len() {
        None
    } else {
        match ts[p].tok {
            TokView::Eq => Some(CmpOp::Eq),
            TokView::Ne => Some(CmpOp::Ne),
            TokView::Gt => Some(CmpOp::Gt),
            TokView::Ge => Some(CmpOp::Ge),
            TokView::Lt => Some(CmpOp::Lt),
            TokView::Le => Some(CmpOp::Le),
            TokView::Contains => Some(CmpOp::Contains),
            TokView::Matches => Some(CmpOp::Matches),
            _ => None,
        }
    }
}

/// The values of a set from `p` on, behind those read so far, up to its
/// closing brace.
pub open spec fn set_at(ts: Seq<SpannedView>, end: int, p: int, got: Seq<ValueAt>) -> Parsed<
    Seq<ValueAt>,
>
    decreases ts.len() - p,
{
    match literal_at(ts, end, p) {
        Err(e) => Err(e),
        Ok((v, q)) => if p < q < ts.len() && ts[q].tok is Comma {
            set_at(ts, end, q + 1, got.push(v))
        } else {
            match expected(ts, end, q, TokView::RBrace, "`,` or `}` to close the set"@) {
                Ok(r) => Ok((got.push(v), r)),
                Err(e) => Err(e),
            }
        },
    }
}

/// A bare field, a comparison or a set test that begins with the field `name`
/// at `p`.
pub open spec fn test_at(
    ts: Seq<SpannedView>,
    end: int,
    p: int,
    name: Seq<char>,
) -> Parsed<ExprView> {
    match slice_at(ts, end, p + 1) {
        Err(e) => Err(e),
        Ok((slice, q)) => {
            let field = FieldView { name, slice, start: ts[p].start, end: ts[q - 1].end };
            match operator_at(ts, q) {
                Some(op) => match literal_at(ts, end, q + 1) {
                    Ok((value, r)) => Ok((ExprView::Compare { field, op, value }, r)),
                    Err(e) => Err(e),
                },
                None => if q < ts.len() && ts[q].tok is In {
                    match expected(ts, end, q + 1, TokView::LBrace, "`{` to open the set"@) {
                        Err(e) => Err(e),
                        Ok(r) => match set_at(ts, end, r, Seq::empty()) {
                            Ok((values, s)) => Ok((ExprView::In { field, values }, s)),
                            Err(e) => Err(e),
                        },
                    }
                } else {
                    Ok((ExprView::Present(field), q))
                },
            }
        },
    }
}

/// What is said of a token that cannot begin a test.
pub open spec fn no_field(t: SpannedView) -> ErrorView {
    let hint = match t.tok {
        TokView::Number(_) | TokView::Signed(_) | TokView::Str(_) | TokView::Bytes(_) =>
            " (a comparison starts with a field name, not a value)"@,
        _ => ""@,
    };
    error_at("expected a field name, found "@ + described(t.tok) + hint, t.start, t.end)
}

/// A group in parentheses, or a test.
pub open spec fn primary_at(ts: Seq<SpannedView>, end: int, p: int) -> Parsed<ExprView>
    decreases ts.len() - p, 1int,
{
    if p < 0 || p >= ts.len() {
        Err(ends_here("expected a field or `(`, but the filter ends here"@, ts, end))
    } else {
        match ts[p].tok {
            TokView::LParen => match or_at(ts, end, p + 1) {
                Err(e) => Err(e),
                Ok((inner, q)) => match expected(
                    ts,
                    end,
                    q,
                    TokView::RParen,
                    "`)` to close the group"@,
                ) {
                    Ok(r) => Ok((inner, r)),
                    Err(e) => Err(e),
                },
            },
            TokView::Field(name) => test_at(ts, end, p, name),
            _ => Err(no_field(ts[p])),
        }
    }
}

/// Any number of `!` in front of a primary.
pub open spec fn unary_at(ts: Seq<SpannedView>, end: int, p: int) -> Parsed<ExprView>
    decreases ts.len() - p, 2int,
{
    if 0 <= p < ts.len() && ts[p].tok is Not {
        match unary_at(ts, end, p + 1) {
            Ok((inner, q)) => Ok((ExprView::Not(Box::new(inner)), q)),
            Err(e) => Err(e),
        }
    } else {
        primary_at(ts, end, p)
    }
}

/// Unary tests joined by `&&`.
pub open spec fn and_at(ts: Seq<SpannedView>, end: int, p: int) -> Parsed<ExprView>
    decreases ts.len() - p, 3int,
{
    match unary_at(ts, end, p) {
        Err(e) => Err(e),
        Ok((lhs, q)) => if p < q <= ts.len() {
            and_more(ts, end, q, lhs)
        } else {
            Ok((lhs, q))
        },
    }
}

/// The rest of an `&&` chain, which groups to the left.
pub open spec fn and_more(ts: Seq<SpannedView>, end: int, p: int, lhs: ExprView) -> Parsed<ExprView>
    decreases ts.len() - p, 4int,
{
    if 0 <= p < ts.len() && ts[p].tok is And {
        match unary_at(ts, end, p + 1) {
            Err(e) => Err(e),
            Ok((rhs, q)) => if p < q <= ts.len() {
                and_more(ts, end, q, ExprView::And(Box::new(lhs), Box::new(rhs)))
            } else {
                Ok((ExprView::And(Box::new(lhs), Box::new(rhs)), q))
            },
        }
    } else {
        Ok((lhs, p))
    }
}

/// `&&` chains joined by `||`.
pub open spec fn or_at(ts: Seq<SpannedView>, end: int, p: int) -> Parsed<ExprView>
    decreases ts.len() - p, 5int,
{
    match and_at(ts, end, p) {
        Err(e) => Err(e),
        Ok((lhs, q)) => if p < q <= ts.len() {
            or_more(ts, end, q, lhs)
        } else {
            Ok((lhs, q))
        },
    }
}

/// The rest of an `||` chain, which groups to the left.
pub open spec fn or_more(ts: Seq<SpannedView>, end: int, p: int, lhs: ExprView) -> Parsed<ExprView>
    decreases ts.len() - p, 6int,
{
    if 0 <= p < ts.len() && ts[p].tok is Or {
        match and_at(ts, end, p + 1) {
            Err(e) => Err(e),
            Ok((rhs, q)) => if p < q <= ts.len() {
                or_more(ts, end, q, ExprView::Or(Box::new(lhs), Box::new(rhs)))
            } else {
                Ok((ExprView::Or(Box::new(lhs), Box::new(rhs)), q))
            },
        }
    } else {
        Ok((lhs, p))
    }
}

/// The filter that tokens make: one expression and nothing behind it.
pub open spec fn whole(ts: Seq<SpannedView>, end: int) -> Result<ExprView, ErrorView> {
    if ts.len() == 0 {
        Err(error_at("the filter is empty"@, 0, 1))
    } else {
        match or_at(ts, end, 0) {
            Err(e) => Err(e),
            Ok((e, p)) => if p < ts.len() {
                Err(
                    error_at(
                        "unexpected "@ + described(ts[p].tok) + " after the end of the filter"@,
                        ts[p].start,
                        ts[p].end,
                    ),
                )
            } else {
                Ok(e)
            },
        }
    }
}

/// The filter that a text says.
pub open spec fn parsed(input: Seq<char>) -> Result<ExprView, ErrorView> {
    let d = encode_utf8(input);
    match lexed(d, 0, Seq::empty()) {
        Err(e) => Err(e),
        Ok(ts) => whole(ts, d.len() as int),
    }
}

/// The outcome of a parse, by what it says.
pub open spec fn parse_outcome(r: Result<Expr, FilterError>) -> Result<ExprView, ErrorView> {
    match r {
        Ok(e) => Ok(e@),
        Err(e) => Err(e@),
    }
}

struct Parser<'a> {
    tokens: &'a Vec<Spanned>,
    /// Offset just past the input, for errors that point at "the end".
    end: usize,
}

/// The outcome of a step, by what it says.
pub open spec fn step_outcome(r: Result<(Expr, usize), FilterError>) -> Parsed<ExprView> {
    match r {
        Ok((e, p)) => Ok((e@, p as int)),
        Err(e) => Err(e@),
    }
}

impl<'a> Parser<'a> {
    spec fn ts(&self) -> Seq<SpannedView> {
        tokens_view(self.tokens@)
    }

    /// The error of running out of input.
    fn ends_here(&self, message: String) -> (r: FilterError)
        ensures
            r@ == ends_here(message@, self.ts(), self.end as int),
    {
        let n: usize = self.tokens.len();
        let at: usize = if n > 0 {
            assert(self.ts().last() == self.tokens@[n - 1]@);
            self.tokens[n - 1].span.end
        } else {
            self.end
        };
        FilterError { message, column: at, len: 1 }
    }

    /// An error at token `p`.
    fn at_token(&self, message: String, p: usize) -> (r: FilterError)
        requires
            p < self.tokens@.len(),
        ensures
            r@ == error_at(message@, self.ts()[p as int].start, self.ts()[p as int].end),
    {
        let span: &Range<usize> = &self.tokens[p].span;
        FilterError::new(message, span.start..span.end)
    }

    /// The position behind token `p`, if that is the one asked for.
    fn expect(&self, p: usize, found: bool, Ghost(want): Ghost<TokView>, what: &str) -> (r: Result<
        usize,
        FilterError,
    >)
        requires
            found == (p < self.tokens@.len() && self.ts()[p as int].tok == want),
        ensures
            match r {
                Ok(q) => expected(self.ts(), self.end as int, p as int, want, what@) == Ok::<
                    int,
                    ErrorView,
                >(q as int) && q == p + 1 && q <= self.tokens@.len(),
                Err(e) => expected(self.ts(), self.end as int, p as int, want, what@) == Err::<
                    int,
                    ErrorView,
                >(e@),
            },
    {
        let n: usize = self.tokens.len();
        if found {
            return Ok(p + 1);
        }
        let mut message: String = text::cat("expected ", what);
        if p < n {
            message.push_str(", found ");
            message.push_str(self.tokens[p].tok.describe().as_str());
            Err(self.at_token(message, p))
        } else {
            message.push_str(", but the filter ends here");
            Err(self.ends_here(message))
        }
    }

    /// The value at `p`.
    fn literal(&self, p: usize) -> (r: Result<(SpannedLiteral, usize), FilterError>)
        ensures
            match r {
                Ok((v, q)) => literal_at(self.ts(), self.end as int, p as int) == Ok::<
                    (ValueAt, int),
                    ErrorView,
                >((v@, q as int)) && p < q <= self.tokens@.len(),
                Err(e) => literal_at(self.ts(), self.end as int, p as int) == Err::<
                    (ValueAt, int),
                    ErrorView,
                >(e@),
            },
    {
        if p >= self.tokens.len() {
            return Err(
                self.ends_here(text::owned("expected a value, but the filter ends here")),
            );
        }
        let tok: &Tok = &self.tokens[p].tok;
        assert(self.ts()[p as int].tok == tok@);
        let value: Literal = match tok {
            Tok::Number(n) => Literal::Unsigned(*n),
            Tok::Signed(n) => Literal::Signed(*n),
            Tok::Str(s) => Literal::Str(text::owned(s.as_str())),
            Tok::Bytes(b) => Literal::Bytes(bytes::copy_of(b.as_slice())),
            Tok::Ipv4(a) => Literal::Ipv4(*a),
            Tok::Ipv4Cidr(a, n) => Literal::Ipv4Cidr(*a, *n),
            Tok::Ipv6(a) => Literal::Ipv6(*a),
            Tok::Ipv6Cidr(a, n) => Literal::Ipv6Cidr(*a, *n),
            Tok::Bool(b) => Literal::Bool(*b),
            Tok::Field(name) => {
                let mut message: String = text::cat(
                    "expected a value, found field `",
                    name.as_str(),
                );
                message.push_str("`; comparing two fields is not supported");
                return Err(self.at_token(message, p));
            },
            other => {
                let message: String = text::cat(
                    "expected a value, found ",
                    other.describe().as_str(),
                );
                return Err(self.at_token(message, p));
            },
        };
        let span: &Range<usize> = &self.tokens[p].span;
        Ok((SpannedLiteral { value, span: span.start..span.end }, p + 1))
    }

    /// The rest of a slice behind its offset.
    fn slice_len(&self, p: usize, offset: usize) -> (r: Result<(Option<Slice>, usize), FilterError>)
        requires
            p <= self.tokens@.len(),
        ensures
            match r {
                Ok((s, q)) => length_at(self.ts(), self.end as int, p as int, offset) == Ok::<
                    (Option<Slice>, int),
                    ErrorView,
                >((s, q as int)) && p < q <= self.tokens@.len(),
                Err(e) => length_at(self.ts(), self.end as int, p as int, offset) == Err::<
                    (Option<Slice>, int),
                    ErrorView,
                >(e@),
            },
    {
        let n: usize = self.tokens.len();
        let mut q: usize = p;
        let mut len: Option<usize> = Some(1);
        if p < n && matches!(self.tokens[p].tok, Tok::Colon) {
            q = p + 1;
            len = None;
            if q < n {
                if let Tok::Number(v) = &self.tokens[q].tok {
                    len = Some(*v as usize);
                    q = q + 1;
                }
            }
        }
        if q < n {
            if let Some(0) = len {
                return Err(self.at_token(text::owned("a slice cannot have length 0"), q));
            }
        }
        let found: bool = q < n && matches!(self.tokens[q].tok, Tok::RBracket);
        match self.expect(q, found, Ghost(TokView::RBracket), "`]` to close the slice") {
            Ok(r) => Ok((Some(Slice { offset, len }), r)),
            Err(e) => Err(e),
        }
    }

    /// An optional slice at `p`.
    fn slice(&self, p: usize) -> (r: Result<(Option<Slice>, usize), FilterError>)
        requires
            p <= self.tokens@.len(),
        ensures
            match r {
                Ok((s, q)) => slice_at(self.ts(), self.end as int, p as int) == Ok::<
                    (Option<Slice>, int),
                    ErrorView,
                >((s, q as int)) && p <= q <= self.tokens@.len(),
                Err(e) => slice_at(self.ts(), self.end as int, p as int) == Err::<
                    (Option<Slice>, int),
                    ErrorView,
                >(e@),
            },
    {
        let n: usize = self.tokens.len();
        if p >= n || !matches!(self.tokens[p].tok, Tok::LBracket) {
            return Ok((None, p));
        }
        if p + 1 >= n {
            return Err(
                self.ends_here(text::owned("expected a slice offset, but the filter ends here")),
            );
        }
        match &self.tokens[p + 1].tok {
            Tok::Number(v) => self.slice_len(p + 2, *v as usize),
            Tok::Colon => self.slice_len(p + 1, 0),
            other => {
                let message: String = text::cat(
                    "expected a slice offset, found ",
                    other.describe().as_str(),
                );
                Err(self.at_token(message, p + 1))
            },
        }
    }

    /// The operator at `p`.
    fn operator(&self, p: usize) -> (r: Option<CmpOp>)
        ensures
            r == operator_at(self.ts(), p as int),
            r is Some ==> p < self.tokens@.len(),
    {
        if p >= self.tokens.len() {
            return None;
        }
        match &self.tokens[p].tok {
            Tok::Eq => Some(CmpOp::Eq),
            Tok::Ne => Some(CmpOp::Ne),
            Tok::Gt => Some(CmpOp::Gt),
            Tok::Ge => Some(CmpOp::Ge),
            Tok::Lt => Some(CmpOp::Lt),
            Tok::Le => Some(CmpOp::Le),
            Tok::Contains => Some(CmpOp::Contains),
            Tok::Matches => Some(CmpOp::Matches),
            _ => None,
        }
    }

    /// The values of a set from `p` on.
    fn set(&self, from: usize) -> (r: Result<(Vec<SpannedLiteral>, usize), FilterError>)
        requires
            from <= self.tokens@.len(),
        ensures
            match r {
                Ok((v, q)) => set_at(self.ts(), self.end as int, from as int, Seq::empty()) == Ok::<
                    (Seq<ValueAt>, int),
                    ErrorView,
                >((values_view(v@), q as int)) && from < q <= self.tokens@.len(),
                Err(e) => set_at(self.ts(), self.end as int, from as int, Seq::empty()) == Err::<
                    (Seq<ValueAt>, int),
                    ErrorView,
                >(e@),
            },
    {
        let n: usize = self.tokens.len();
        let mut values: Vec<SpannedLiteral> = Vec::new();
        let mut p: usize = from;
        assert(values_view(values@) =~= Seq::empty());
        loop
            invariant
                    n == self.tokens@.len(),
                from <= p <= n,
                set_at(self.ts(), self.end as int, from as int, Seq::empty()) == set_at(
                    self.ts(),
                    self.end as int,
                    p as int,
                    values_view(values@),
                ),
            decreases n - p,
        {
            let ghost before = values_view(values@);
            match self.literal(p) {
                Err(e) => {
                    return Err(e);
                },
                Ok((v, q)) => {
                    values.push(v);
                    assert(values_view(values@) =~= before.push(v@));
                    if q < n && matches!(self.tokens[q].tok, Tok::Comma) {
                        p = q + 1;
                    } else {
                        let found: bool = q < n && matches!(self.tokens[q].tok, Tok::RBrace);
                        match self.expect(
                            q,
                            found,
                            Ghost(TokView::RBrace),
                            "`,` or `}` to close the set",
                        ) {
                            Ok(r) => {
                                return Ok((values, r));
                            },
                            Err(e) => {
                                return Err(e);
                            },
                        }
                    }
                },
            }
        }
    }

    /// A bare field, a comparison or a set test.
    fn test(&self, p: usize, name: &String) -> (r: Result<(Expr, usize), FilterError>)
        requires
            p < self.tokens@.len(),
        ensures
            step_outcome(r) == test_at(self.ts(), self.end as int, p as int, name@),
            r matches Ok((_, q)) ==> p < q <= self.tokens@.len(),
    {
        let n: usize = self.tokens.len();
        match self.slice(p + 1) {
            Err(e) => Err(e),
            Ok((slice, q)) => {
                let span: Range<usize> = self.tokens[p].span.start..self.tokens[q - 1].span.end;
                let field = FieldRef { name: text::owned(name.as_str()), slice, span };
                if let Some(op) = self.operator(q) {
                    return match self.literal(q + 1) {
                        Ok((value, r)) => Ok((Expr::Compare { field, op, value }, r)),
                        Err(e) => Err(e),
                    };
                }
                if q < n && matches!(self.tokens[q].tok, Tok::In) {
                    let found: bool = q + 1 < n && matches!(self.tokens[q + 1].tok, Tok::LBrace);
                    match self.expect(
                        q + 1,
                        found,
                        Ghost(TokView::LBrace),
                        "`{` to open the set",
                    ) {
                        Err(e) => Err(e),
                        Ok(r) => match self.set(r) {
                            Ok((values, s)) => Ok((Expr::In { field, values }, s)),
                            Err(e) => Err(e),
                        },
                    }
                } else {
                    Ok((Expr::Present(field), q))
                }
            },
        }
    }

    fn primary(&self, p: usize) -> (r: Result<(Expr, usize), FilterError>)
        requires
            p <= self.tokens@.len(),
        ensures
            step_outcome(r) == primary_at(self.ts(), self.end as int, p as int),
            r matches Ok((_, q)) ==> p < q <= self.tokens@.len(),
        decreases self.tokens@.len() - p, 1int,
    {
        let n: usize = self.tokens.len();
        if p >= n {
            return Err(
                self.ends_here(text::owned("expected a field or `(`, but the filter ends here")),
            );
        }
        let tok: &Tok = &self.tokens[p].tok;
        assert(self.ts()[p as int].tok == tok@);
        match tok {
            Tok::LParen => match self.or_expr(p + 1) {
                Err(e) => Err(e),
                Ok((inner, q)) => {
                    let found: bool = q < n && matches!(self.tokens[q].tok, Tok::RParen);
                    match self.expect(
                        q,
                        found,
                        Ghost(TokView::RParen),
                        "`)` to close the group",
                    ) {
                        Ok(r) => Ok((inner, r)),
                        Err(e) => Err(e),
                    }
                },
            },
            Tok::Field(name) => self.test(p, name),
            other => {
                let hint: &str = match other {
                    Tok::Number(_) | Tok::Signed(_) | Tok::Str(_) | Tok::Bytes(_) =>
                        " (a comparison starts with a field name, not a value)",
                    _ => "",
                };
                let mut message: String = text::cat(
                    "expected a field name, found ",
                    other.describe().as_str(),
                );
                message.push_str(hint);
                Err(self.at_token(message, p))
            },
        }
    }

    fn unary(&self, p: usize) -> (r: Result<(Expr, usize), FilterError>)
        requires
            p <= self.tokens@.len(),
        ensures
            step_outcome(r) == unary_at(self.ts(), self.end as int, p as int),
            r matches Ok((_, q)) ==> p < q <= self.tokens@.len(),
        decreases self.tokens@.len() - p, 2int,
    {
        if p < self.tokens.len() && matches!(self.tokens[p].tok, Tok::Not) {
            return match self.unary(p + 1) {
                Ok((inner, q)) => Ok((Expr::Not(Box::new(inner)), q)),
                Err(e) => Err(e),
            };
        }
        self.primary(p)
    }

    fn and_expr(&self, p: usize) -> (r: Result<(Expr, usize), FilterError>)
        requires
            p <= self.tokens@.len(),
        ensures
            step_outcome(r) == and_at(self.ts(), self.end as int, p as int),
            r matches Ok((_, q)) ==> p < q <= self.tokens@.len(),
        decreases self.tokens@.len() - p, 3int,
    {
        let n: usize = self.tokens.len();
        let (lhs, q) = match self.unary(p) {
            Ok(found) => found,
            Err(e) => {
                return Err(e);
            },
        };
        let mut lhs: Expr = lhs;
        let mut q: usize = q;
        let ghost all = and_at(self.ts(), self.end as int, p as int);
        while q < n && matches!(self.tokens[q].tok, Tok::And)
            invariant
                    n == self.tokens@.len(),
                p < q <= n,
                all == and_at(self.ts(), self.end as int, p as int),
                all == and_more(self.ts(), self.end as int, q as int, lhs@),
            decreases n - q,
        {
            match self.unary(q + 1) {
                Ok((rhs, r)) => {
                    lhs = Expr::And(Box::new(lhs), Box::new(rhs));
                    q = r;
                },
                Err(e) => {
                    return Err(e);
                },
            }
        }
        Ok((lhs, q))
    }

    fn or_expr(&self, p: usize) -> (r: Result<(Expr, usize), FilterError>)
        requires
            p <= self.tokens@.len(),
        ensures
            step_outcome(r) == or_at(self.ts(), self.end as int, p as int),
            r matches Ok((_, q)) ==> p < q <= self.tokens@.len(),
        decreases self.tokens@.len() - p, 5int,
    {
        let n: usize = self.tokens.len();
        let (lhs, q) = match self.and_expr(p) {
            Ok(found) => found,
            Err(e) => {
                return Err(e);
            },
        };
        let mut lhs: Expr = lhs;
        let mut q: usize = q;
        let ghost all = or_at(self.ts(), self.end as int, p as int);
        while q < n && matches!(self.tokens[q].tok, Tok::Or)
            invariant
                    n == self.tokens@.len(),
                p < q <= n,
                all == or_at(self.ts(), self.end as int, p as int),
                all == or_more(self.ts(), self.end as int, q as int, lhs@),
            decreases n - q,
        {
            match self.and_expr(q + 1) {
                Ok((rhs, r)) => {
                    lhs = Expr::Or(Box::new(lhs), Box::new(rhs));
                    q = r;
                },
                Err(e) => {
                    return Err(e);
                },
            }
        }
        Ok((lhs, q))
    }
}

/// Parse a filter.
pub fn parse(input: &str) -> (r: Result<Expr, FilterError>)
    ensures
        parse_outcome(r) == parsed(input@),
{
    let tokens: Vec<Spanned> = match lex(input) {
        Ok(tokens) => tokens,
        Err(e) => {
            return Err(e);
        },
    };
    if tokens.len() == 0 {
        return Err(FilterError::new(text::owned("the filter is empty"), 0..1));
    }
    let p = Parser { tokens: &tokens, end: input.as_bytes().len() };
    match p.or_expr(0) {
        Err(e) => Err(e),
        Ok((expr, q)) => {
            if q < tokens.len() {
                let mut message: String = text::cat(
                    "unexpected ",
                    tokens[q].tok.describe().as_str(),
                );
                message.push_str(" after the end of the filter");
                return Err(p.at_token(message, q));
            }
            Ok(expr)
        },
    }
}

// ---- precedence -----------------------------------------------------------------

/// The chain ends at `p`: neither `&&` nor `||` follows.
pub open spec fn chain_ends(ts: Seq<SpannedView>, p: int) -> bool {
    p == ts.len() || (0 <= p < ts.len() && !(ts[p].tok is And) && !(ts[p].tok is Or))
}

/// A unary test stands at `p..q`.
pub open spec fn stands(ts: Seq<SpannedView>, end: int, p: int, e: ExprView, q: int) -> bool {
    0 <= p < q <= ts.len() && unary_at(ts, end, p) == Ok::<(ExprView, int), ErrorView>((e, q))
}

/// `a || b && c` is `a || (b && c)`, and `a && b || c` is `(a && b) || c`:
/// `&&` binds tighter than `||`.
pub proof fn and_binds_tighter_than_or(
    ts: Seq<SpannedView>,
    end: int,
    p: int,
    a: ExprView,
    q: int,
    b: ExprView,
    r: int,
    c: ExprView,
    s: int,
)
    requires
        stands(ts, end, p, a, q),
        q < ts.len(),
        stands(ts, end, q + 1, b, r),
        r < ts.len(),
        stands(ts, end, r + 1, c, s),
        chain_ends(ts, s),
    ensures
        ts[q].tok is Or && ts[r].tok is And ==> or_at(ts, end, p) == Ok::<
            (ExprView, int),
            ErrorView,
        >(
            (
                ExprView::Or(
                    Box::new(a),
                    Box::new(ExprView::And(Box::new(b), Box::new(c))),
                ),
                s,
            ),
        ),
        ts[q].tok is And && ts[r].tok is Or ==> or_at(ts, end, p) == Ok::<
            (ExprView, int),
            ErrorView,
        >(
            (
                ExprView::Or(
                    Box::new(ExprView::And(Box::new(a), Box::new(b))),
                    Box::new(c),
                ),
                s,
            ),
        ),
{
    let bc = ExprView::And(Box::new(b), Box::new(c));
    let ab = ExprView::And(Box::new(a), Box::new(b));
    if ts[q].tok is Or && ts[r].tok is And {
        assert(and_more(ts, end, s, bc) == Ok::<(ExprView, int), ErrorView>((bc, s)));
        assert(and_more(ts, end, r, b) == Ok::<(ExprView, int), ErrorView>((bc, s)));
        assert(and_at(ts, end, q + 1) == Ok::<(ExprView, int), ErrorView>((bc, s)));
        assert(and_at(ts, end, p) == Ok::<(ExprView, int), ErrorView>((a, q)));
        let whole = ExprView::Or(Box::new(a), Box::new(bc));
        assert(or_more(ts, end, s, whole) == Ok::<(ExprView, int), ErrorView>((whole, s)));
        assert(or_more(ts, end, q, a) == Ok::<(ExprView, int), ErrorView>((whole, s)));
    }
    if ts[q].tok is And && ts[r].tok is Or {
        assert(and_more(ts, end, r, ab) == Ok::<(ExprView, int), ErrorView>((ab, r)));
        assert(and_more(ts, end, q, a) == Ok::<(ExprView, int), ErrorView>((ab, r)));
        assert(and_at(ts, end, p) == Ok::<(ExprView, int), ErrorView>((ab, r)));
        assert(and_more(ts, end, s, c) == Ok::<(ExprView, int), ErrorView>((c, s)));
        assert(and_at(ts, end, r + 1) == Ok::<(ExprView, int), ErrorView>((c, s)));
        let whole = ExprView::Or(Box::new(ab), Box::new(c));
        assert(or_more(ts, end, s, whole) == Ok::<(ExprView, int), ErrorView>((whole, s)));
        assert(or_more(ts, end, r, ab) == Ok::<(ExprView, int), ErrorView>((whole, s)));
    }
}

/// `!a && b` is `(!a) && b`: `!` binds tighter than `&&` and `||`.
pub proof fn not_binds_tightest(
    ts: Seq<SpannedView>,
    end: int,
    p: int,
    a: ExprView,
    q: int,
    b: ExprView,
    r: int,
)
    requires
        0 <= p < ts.len(),
        ts[p].tok is Not,
        stands(ts, end, p + 1, a, q),
        q < ts.len(),
        stands(ts, end, q + 1, b, r),
        chain_ends(ts, r),
    ensures
        stands(ts, end, p, ExprView::Not(Box::new(a)), q),
        ts[q].tok is And ==> or_at(ts, end, p) == Ok::<(ExprView, int), ErrorView>(
            (ExprView::And(Box::new(ExprView::Not(Box::new(a))), Box::new(b)), r),
        ),
        ts[q].tok is Or ==> or_at(ts, end, p) == Ok::<(ExprView, int), ErrorView>(
            (ExprView::Or(Box::new(ExprView::Not(Box::new(a))), Box::new(b)), r),
        ),
{
    let na = ExprView::Not(Box::new(a));
    assert(unary_at(ts, end, p) == Ok::<(ExprView, int), ErrorView>((na, q)));
    if ts[q].tok is And {
        let whole = ExprView::And(Box::new(na), Box::new(b));
        assert(and_more(ts, end, r, whole) == Ok::<(ExprView, int), ErrorView>((whole, r)));
        assert(and_more(ts, end, q, na) == Ok::<(ExprView, int), ErrorView>((whole, r)));
        assert(or_more(ts, end, r, whole) == Ok::<(ExprView, int), ErrorView>((whole, r)));
    }
    if ts[q].tok is Or {
        let whole = ExprView::Or(Box::new(na), Box::new(b));
        assert(and_at(ts, end, p) == Ok::<(ExprView, int), ErrorView>((na, q)));
        assert(and_more(ts, end, r, b) == Ok::<(ExprView, int), ErrorView>((b, r)));
        assert(and_at(ts, end, q + 1) == Ok::<(ExprView, int), ErrorView>((b, r)));
        assert(or_more(ts, end, r, whole) == Ok::<(ExprView, int), ErrorView>((whole, r)));
        assert(or_more(ts, end, q, na) == Ok::<(ExprView, int), ErrorView>((whole, r)));
    }
}

} // verus!
