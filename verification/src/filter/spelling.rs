//! How filters are written, and what is read from the writing.

use vstd::prelude::*;

use super::ast::{CmpOp, ExprView, FieldView, LiteralView, Slice, ValueAt};
use super::lex::ErrorView;
use super::lex::{keyword_of, symbol_at, SpannedView, TokView};
use super::parse::{
    and_at, and_more, literal_of, operator_at, or_more, slice_at, test_at, unary_at, whole,
};
use crate::dissect::registry::{alias_from, members_of};
use crate::dissect::tables::ALIASES;

verus! {

// ---- tokens ---------------------------------------------------------------------

/// The text `w` stands in `d` at `i`.
pub open spec fn stands(d: Seq<u8>, i: int, w: Seq<char>) -> bool {
    &&& 0 <= i
    &&& i + w.len() <= d.len()
    &&& forall|k: int| 0 <= k < w.len() ==> d[i + k] == #[trigger] w[k] as u8
}

/// An operator of symbols is read as it is written, wherever it stands and
/// whatever follows, unless an equals sign follows one that could go on.
pub proof fn operators_read_as_they_are_written(
    op: CmpOp,
    d: Seq<u8>,
    i: int,
    start: int,
    end: int,
)
    requires
        !(op is Contains) && !(op is Matches),
        stands(d, i, op.written()),
        (op is Gt || op is Lt) && i + 1 < d.len() ==> d[i + 1] != 0x3d,
    ensures
        symbol_at(d, i) matches Some((tok, n)) && n == op.written().len() && operator_at(
            seq![SpannedView { tok, start, end }],
            0,
        ) == Some(op),
{
    reveal_strlit("==");
    reveal_strlit("!=");
    reveal_strlit(">");
    reveal_strlit(">=");
    reveal_strlit("<");
    reveal_strlit("<=");
    let w = op.written();
    assert(w.len() >= 1);
    assert(d[i] == w[0] as u8);
    if w.len() > 1 {
        assert(d[i + 1] == w[1] as u8);
    }
}

/// Words that mean something in a filter: searching, sets, connectives and
/// truth values.
pub proof fn words_read_as_they_are_written(start: int, end: int)
    ensures
        keyword_of(CmpOp::Contains.written()) == Some(TokView::Contains),
        keyword_of(CmpOp::Matches.written()) == Some(TokView::Matches),
        operator_at(seq![SpannedView { tok: TokView::Contains, start, end }], 0) == Some(
            CmpOp::Contains,
        ),
        operator_at(seq![SpannedView { tok: TokView::Matches, start, end }], 0) == Some(
            CmpOp::Matches,
        ),
        keyword_of("in"@) == Some(TokView::In),
        keyword_of("and"@) == Some(TokView::And),
        keyword_of("or"@) == Some(TokView::Or),
        keyword_of("not"@) == Some(TokView::Not),
        keyword_of("true"@) == Some(TokView::Bool(true)),
        keyword_of("false"@) == Some(TokView::Bool(false)),
{
    reveal_strlit("contains");
    reveal_strlit("matches");
    reveal_strlit("in");
    reveal_strlit("and");
    reveal_strlit("or");
    reveal_strlit("not");
    reveal_strlit("true");
    reveal_strlit("false");
    assert("contains"@.len() == 8);
    assert("matches"@.len() == 7);
    assert("in"@.len() == 2 && "in"@[0] == 'i');
    assert("and"@.len() == 3 && "and"@[0] == 'a');
    assert("or"@.len() == 2 && "or"@[0] == 'o');
    assert("not"@.len() == 3 && "not"@[0] == 'n');
    assert("true"@.len() == 4);
    assert("false"@.len() == 5);
}

/// The connectives can also be written in symbols.
pub proof fn connectives_have_symbols(d: Seq<u8>, i: int)
    requires
        0 <= i < d.len(),
    ensures
        i + 1 < d.len() && d[i] == 0x26 && d[i + 1] == 0x26 ==> symbol_at(d, i) == Some(
            (TokView::And, 2int),
        ),
        i + 1 < d.len() && d[i] == 0x7c && d[i + 1] == 0x7c ==> symbol_at(d, i) == Some(
            (TokView::Or, 2int),
        ),
        d[i] == 0x21 && (i + 1 < d.len() ==> d[i + 1] != 0x3d) ==> symbol_at(d, i) == Some(
            (TokView::Not, 1int),
        ),
{
}

// ---- expressions ----------------------------------------------------------------

/// A field, an operator and a value are a comparison of that field with that
/// value by that operator.
pub proof fn three_tokens_are_a_comparison(
    f: SpannedView,
    o: SpannedView,
    v: SpannedView,
    end: int,
)
    requires
        f.tok is Field,
        operator_at(seq![o], 0) is Some,
        literal_of(v.tok) is Some,
    ensures
        whole(seq![f, o, v], end) == Ok::<ExprView, ErrorView>(
            ExprView::Compare {
                field: FieldView {
                    name: f.tok->Field_0,
                    slice: None,
                    start: f.start,
                    end: f.end,
                },
                op: operator_at(seq![o], 0)->0,
                value: ValueAt { value: literal_of(v.tok)->0, start: v.start, end: v.end },
            },
        ),
{
    let ts = seq![f, o, v];
    assert(operator_at(ts, 1) == operator_at(seq![o], 0));
    assert(test_at(ts, end, 0, f.tok->Field_0) is Ok);
}

/// A field alone asks whether the frame has it.
pub proof fn one_token_asks_for_presence(f: SpannedView, end: int)
    requires
        f.tok is Field,
    ensures
        whole(seq![f], end) == Ok::<ExprView, ErrorView>(
            ExprView::Present(
                FieldView { name: f.tok->Field_0, slice: None, start: f.start, end: f.end },
            ),
        ),
{
    let ts = seq![f];
    assert(test_at(ts, end, 0, f.tok->Field_0) is Ok);
}

/// Two tests are joined by the connective between them, the first on the left.
pub proof fn connectives_join_what_stands_beside_them(
    f: SpannedView,
    c: SpannedView,
    g: SpannedView,
    end: int,
)
    requires
        f.tok is Field,
        g.tok is Field,
        c.tok is And || c.tok is Or,
    ensures
        ({
            let left = ExprView::Present(
                FieldView { name: f.tok->Field_0, slice: None, start: f.start, end: f.end },
            );
            let right = ExprView::Present(
                FieldView { name: g.tok->Field_0, slice: None, start: g.start, end: g.end },
            );
            whole(seq![f, c, g], end) == Ok::<ExprView, ErrorView>(
                if c.tok is And {
                    ExprView::And(Box::new(left), Box::new(right))
                } else {
                    ExprView::Or(Box::new(left), Box::new(right))
                },
            )
        }),
{
    let ts = seq![f, c, g];
    let left = ExprView::Present(
        FieldView { name: f.tok->Field_0, slice: None, start: f.start, end: f.end },
    );
    let right = ExprView::Present(
        FieldView { name: g.tok->Field_0, slice: None, start: g.start, end: g.end },
    );
    assert(unary_at(ts, end, 0) == Ok::<(ExprView, int), ErrorView>((left, 1)));
    assert(unary_at(ts, end, 2) == Ok::<(ExprView, int), ErrorView>((right, 3)));
    if c.tok is And {
        let both = ExprView::And(Box::new(left), Box::new(right));
        assert(and_more(ts, end, 3, both) == Ok::<(ExprView, int), ErrorView>(
            (both, 3),
        ));
        assert(and_at(ts, end, 0) == Ok::<(ExprView, int), ErrorView>((both, 3)));
    } else {
        let either = ExprView::Or(Box::new(left), Box::new(right));
        assert(and_more(ts, end, 1, left) == Ok::<(ExprView, int), ErrorView>(
            (left, 1),
        ));
        assert(and_more(ts, end, 3, right) == Ok::<(ExprView, int), ErrorView>(
            (right, 3),
        ));
        assert(and_at(ts, end, 2) == Ok::<(ExprView, int), ErrorView>((right, 3)));
        assert(or_more(ts, end, 3, either) == Ok::<(ExprView, int), ErrorView>(
            (either, 3),
        ));
    }
}

/// `[n]` is one byte, `[n:k]` is `k` bytes, `[n:]` is all from `n` on, and
/// `[:k]` is the first `k` bytes.
pub proof fn slices_say_what_they_take(ts: Seq<SpannedView>, end: int, p: int, n: u64, k: u64)
    requires
        0 <= p,
        p + 4 < ts.len(),
        ts[p].tok is LBracket,
        n <= 0xffff_ffff,
        0 < k <= 0xffff_ffff,
    ensures
        ts[p + 1].tok == TokView::Number(n) && ts[p + 2].tok is RBracket ==> slice_at(ts, end, p)
            == Ok::<(Option<Slice>, int), ErrorView>(
            (Some(Slice { offset: n as usize, len: Some(1) }), p + 3),
        ),
        ts[p + 1].tok == TokView::Number(n) && ts[p + 2].tok is Colon && ts[p + 3].tok
            == TokView::Number(k) && ts[p + 4].tok is RBracket ==> slice_at(ts, end, p) == Ok::<
            (Option<Slice>, int),
            ErrorView,
        >((Some(Slice { offset: n as usize, len: Some(k as usize) }), p + 5)),
        ts[p + 1].tok == TokView::Number(n) && ts[p + 2].tok is Colon && ts[p + 3].tok is RBracket
            ==> slice_at(ts, end, p) == Ok::<(Option<Slice>, int), ErrorView>(
            (Some(Slice { offset: n as usize, len: None }), p + 4),
        ),
        ts[p + 1].tok is Colon && ts[p + 2].tok == TokView::Number(k) && ts[p + 3].tok is RBracket
            ==> slice_at(ts, end, p) == Ok::<(Option<Slice>, int), ErrorView>(
            (Some(Slice { offset: 0, len: Some(k as usize) }), p + 4),
        ),
{
}

/// A value is what its token says: nothing is reinterpreted.
pub proof fn values_are_taken_as_they_stand(n: u64, k: i64, s: Seq<char>, b: Seq<u8>, bits: u8)
    ensures
        literal_of(TokView::Number(n)) == Some(LiteralView::Unsigned(n)),
        literal_of(TokView::Signed(k)) == Some(LiteralView::Signed(k)),
        literal_of(TokView::Str(s)) == Some(LiteralView::Str(s)),
        literal_of(TokView::Bytes(b)) == Some(LiteralView::Bytes(b)),
        literal_of(TokView::Ipv4(b)) == Some(LiteralView::Ipv4(b)),
        literal_of(TokView::Ipv6(b)) == Some(LiteralView::Ipv6(b)),
        literal_of(TokView::Ipv4Cidr(b, bits)) == Some(LiteralView::Ipv4Cidr(b, bits)),
        literal_of(TokView::Ipv6Cidr(b, bits)) == Some(LiteralView::Ipv6Cidr(b, bits)),
        literal_of(TokView::Bool(true)) == Some(LiteralView::Bool(true)),
        literal_of(TokView::Bool(false)) == Some(LiteralView::Bool(false)),
{
}

// ---- fields that stand for two ----------------------------------------------------

/// The fields that stand for either end of a frame stand for its source and
/// its destination, and no others do.
pub proof fn either_end_is_source_or_destination(name: Seq<char>)
    ensures
        members_of("eth.addr"@) == seq!["eth.src"@, "eth.dst"@],
        members_of("arp.addr"@) == seq!["arp.src.proto_ipv4"@, "arp.dst.proto_ipv4"@],
        members_of("ip.addr"@) == seq!["ip.src"@, "ip.dst"@],
        members_of("ipv6.addr"@) == seq!["ipv6.src"@, "ipv6.dst"@],
        members_of("udp.port"@) == seq!["udp.srcport"@, "udp.dstport"@],
        members_of("tcp.port"@) == seq!["tcp.srcport"@, "tcp.dstport"@],
        name != "eth.addr"@ && name != "arp.addr"@ && name != "ip.addr"@ && name != "ipv6.addr"@
            && name != "udp.port"@ && name != "tcp.port"@ ==> members_of(name).len() == 0,
{
    reveal_with_fuel(alias_from, 7);
    reveal_strlit("eth.addr");
    reveal_strlit("arp.addr");
    reveal_strlit("ip.addr");
    reveal_strlit("ipv6.addr");
    reveal_strlit("udp.port");
    reveal_strlit("tcp.port");
    assert("eth.addr"@.len() == 8 && "eth.addr"@[0] == 'e');
    assert("arp.addr"@.len() == 8 && "arp.addr"@[0] == 'a');
    assert("ip.addr"@.len() == 7);
    assert("ipv6.addr"@.len() == 9);
    assert("udp.port"@.len() == 8 && "udp.port"@[0] == 'u');
    assert("tcp.port"@.len() == 8 && "tcp.port"@[0] == 't');
    assert(ALIASES@.len() == 6);
    assert(ALIASES@[0].0@ == "eth.addr"@ && ALIASES@[1].0@ == "arp.addr"@ && ALIASES@[2].0@
        == "ip.addr"@ && ALIASES@[3].0@ == "ipv6.addr"@ && ALIASES@[4].0@ == "udp.port"@
        && ALIASES@[5].0@ == "tcp.port"@);
}

} // verus!
