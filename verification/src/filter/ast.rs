//! The display-filter syntax tree, as the parser produces it and the type
//! checker annotates it.

use std::ops::Range;

use vstd::prelude::*;


verus! {

#[derive(Debug, Clone, Copy, PartialEq, Eq, Structural)]
pub enum CmpOp {
    Eq,
    Ne,
    Gt,
    Ge,
    Lt,
    Le,
    Contains,
    Matches,
}

impl CmpOp {
    /// How the operator is written.
    pub open spec fn written(self) -> Seq<char> {
        match self {
            CmpOp::Eq => "=="@,
            CmpOp::Ne => "!="@,
            CmpOp::Gt => ">"@,
            CmpOp::Ge => ">="@,
            CmpOp::Lt => "<"@,
            CmpOp::Le => "<="@,
            CmpOp::Contains => "contains"@,
            CmpOp::Matches => "matches"@,
        }
    }

    /// How the operator is written.
    pub fn name(self) -> (r: &'static str)
        ensures
            r@ == self.written(),
    {
        match self {
            CmpOp::Eq => "==",
            CmpOp::Ne => "!=",
            CmpOp::Gt => ">",
            CmpOp::Ge => ">=",
            CmpOp::Lt => "<",
            CmpOp::Le => "<=",
            CmpOp::Contains => "contains",
            CmpOp::Matches => "matches",
        }
    }

    /// Ordering comparisons need a field type with a total order.
    pub open spec fn orders(self) -> bool {
        self is Gt || self is Ge || self is Lt || self is Le
    }

    /// Ordering comparisons need a field type with a total order.
    pub fn is_ordering(self) -> (r: bool)
        ensures
            r == self.orders(),
    {
        matches!(self, CmpOp::Gt | CmpOp::Ge | CmpOp::Lt | CmpOp::Le)
    }
}

/// A byte range taken from a field's own bytes: `eth.src[0:3]`.
#[derive(Debug, Clone, Copy, PartialEq, Eq)]
pub struct Slice {
    pub offset: usize,
    /// `None` means "to the end of the field".
    pub len: Option<usize>,
}

/// The left side of a comparison: a field, optionally sliced.
#[derive(Debug, PartialEq, Eq)]
pub struct FieldRef {
    pub name: String,
    pub slice: Option<Slice>,
    pub span: Range<usize>,
}

/// What a field reference says, and where it stands.
#[verifier::ext_equal]
pub struct FieldView {
    pub name: Seq<char>,
    pub slice: Option<Slice>,
    pub start: int,
    pub end: int,
}

impl View for FieldRef {
    type V = FieldView;

    open spec fn view(&self) -> FieldView {
        FieldView {
            name: self.name@,
            slice: self.slice,
            start: self.span.start as int,
            end: self.span.end as int,
        }
    }
}

/// A literal value, before type checking has matched it to a field.
#[derive(Debug, PartialEq, Eq)]
pub enum Literal {
    Unsigned(u64),
    Signed(i64),
    Str(String),
    Bytes(Vec<u8>),
    Ipv4([u8; 4]),
    Ipv4Cidr([u8; 4], u8),
    Ipv6([u8; 16]),
    Ipv6Cidr([u8; 16], u8),
    Bool(bool),
}

/// What a literal stands for.
#[verifier::ext_equal]
pub enum LiteralView {
    Unsigned(u64),
    Signed(i64),
    Str(Seq<char>),
    Bytes(Seq<u8>),
    Ipv4(Seq<u8>),
    Ipv4Cidr(Seq<u8>, u8),
    Ipv6(Seq<u8>),
    Ipv6Cidr(Seq<u8>, u8),
    Bool(bool),
}

impl View for Literal {
    type V = LiteralView;

    open spec fn view(&self) -> LiteralView {
        match *self {
            Literal::Unsigned(n) => LiteralView::Unsigned(n),
            Literal::Signed(n) => LiteralView::Signed(n),
            Literal::Str(s) => LiteralView::Str(s@),
            Literal::Bytes(b) => LiteralView::Bytes(b@),
            Literal::Ipv4(a) => LiteralView::Ipv4(a@),
            Literal::Ipv4Cidr(a, n) => LiteralView::Ipv4Cidr(a@, n),
            Literal::Ipv6(a) => LiteralView::Ipv6(a@),
            Literal::Ipv6Cidr(a, n) => LiteralView::Ipv6Cidr(a@, n),
            Literal::Bool(b) => LiteralView::Bool(b),
        }
    }
}

/// What kind of value a literal is, in words.
pub open spec fn kind_words(l: LiteralView) -> Seq<char> {
    match l {
        LiteralView::Unsigned(_) => "a number"@,
        LiteralView::Signed(_) => "a signed number"@,
        LiteralView::Str(_) => "a string"@,
        LiteralView::Bytes(b) => if b.len() == 6 {
            "a MAC or byte string"@
        } else {
            "a byte string"@
        },
        LiteralView::Ipv4(_) => "an IPv4 address"@,
        LiteralView::Ipv4Cidr(_, _) => "an IPv4 prefix"@,
        LiteralView::Ipv6(_) => "an IPv6 address"@,
        LiteralView::Ipv6Cidr(_, _) => "an IPv6 prefix"@,
        LiteralView::Bool(_) => "a boolean"@,
    }
}

impl Literal {
    /// What kind of value this is, in words.
    pub fn kind_name(&self) -> (r: &'static str)
        ensures
            r@ == kind_words(self@),
    {
        match self {
            Literal::Unsigned(_) => "a number",
            Literal::Signed(_) => "a signed number",
            Literal::Str(_) => "a string",
            Literal::Bytes(b) => if b.len() == 6 {
                "a MAC or byte string"
            } else {
                "a byte string"
            },
            Literal::Ipv4(_) => "an IPv4 address",
            Literal::Ipv4Cidr(_, _) => "an IPv4 prefix",
            Literal::Ipv6(_) => "an IPv6 address",
            Literal::Ipv6Cidr(_, _) => "an IPv6 prefix",
            Literal::Bool(_) => "a boolean",
        }
    }
}

#[derive(Debug, PartialEq, Eq)]
pub struct SpannedLiteral {
    pub value: Literal,
    pub span: Range<usize>,
}

/// What a literal stands for, and where it stands.
#[verifier::ext_equal]
pub struct ValueAt {
    pub value: LiteralView,
    pub start: int,
    pub end: int,
}

impl View for SpannedLiteral {
    type V = ValueAt;

    open spec fn view(&self) -> ValueAt {
        ValueAt {
            value: self.value@,
            start: self.span.start as int,
            end: self.span.end as int,
        }
    }
}

/// What several literals stand for.
pub open spec fn values_view(v: Seq<SpannedLiteral>) -> Seq<ValueAt> {
    v.map_values(|l: SpannedLiteral| l@)
}

#[derive(Debug, PartialEq, Eq)]
pub enum Expr {
    /// A bare field name: true when the frame contains that field.
    Present(FieldRef),
    /// `field op literal`.
    Compare { field: FieldRef, op: CmpOp, value: SpannedLiteral },
    /// `field in { a, b, c }`.
    In { field: FieldRef, values: Vec<SpannedLiteral> },
    And(Box<Expr>, Box<Expr>),
    Or(Box<Expr>, Box<Expr>),
    Not(Box<Expr>),
}

/// What a filter says.
pub enum ExprView {
    Present(FieldView),
    Compare { field: FieldView, op: CmpOp, value: ValueAt },
    In { field: FieldView, values: Seq<ValueAt> },
    And(Box<ExprView>, Box<ExprView>),
    Or(Box<ExprView>, Box<ExprView>),
    Not(Box<ExprView>),
}

impl Expr {
    /// What the filter says.
    pub open spec fn says(self) -> ExprView
        decreases self,
    {
        match self {
            Expr::Present(f) => ExprView::Present(f@),
            Expr::Compare { field, op, value } => ExprView::Compare {
                field: field@,
                op,
                value: value@,
            },
            Expr::In { field, values } => ExprView::In {
                field: field@,
                values: values_view(values@),
            },
            Expr::And(a, b) => ExprView::And(Box::new(a.says()), Box::new(b.says())),
            Expr::Or(a, b) => ExprView::Or(Box::new(a.says()), Box::new(b.says())),
            Expr::Not(a) => ExprView::Not(Box::new(a.says())),
        }
    }
}

impl View for Expr {
    type V = ExprView;

    open spec fn view(&self) -> ExprView {
        self.says()
    }
}

} // verus!
