//! The syntax tree of a PQL query.
use vstd::prelude::*;

use crate::clock::Hlc;
use crate::fact::Timestamp;

verus! {

/// A parsed query.
#[derive(Debug)]
pub struct Query {
    pub columns: Vec<Column>,
    pub namespace: String,
    pub filter: Option<Expr>,
    pub effective_at: Option<Timestamp>,
    pub asof: Option<Hlc>,
    pub order_by: Vec<OrderBy>,
    pub limit: Option<usize>,
    pub offset: Option<usize>,
}

/// A selected column.
#[derive(Debug)]
pub enum Column {
    Star,
    Named(String),
}

/// One key of an `ORDER BY`.
#[derive(Debug)]
pub struct OrderBy {
    pub column: String,
    pub direction: Direction,
}

/// A sort direction.
#[derive(Debug, Clone, Copy, PartialEq, Eq, Structural)]
pub enum Direction {
    Asc,
    Desc,
}

/// A filter expression.
#[derive(Debug)]
pub enum Expr {
    BinOp { op: BinOp, left: Box<Expr>, right: Box<Expr> },
    And(Box<Expr>, Box<Expr>),
    Or(Box<Expr>, Box<Expr>),
    Not(Box<Expr>),
    IsNull(Box<Expr>),
    IsNotNull(Box<Expr>),
    Like { expr: Box<Expr>, pattern: String },
    In { expr: Box<Expr>, values: Vec<Literal> },
    Column(String),
    Lit(Literal),
}

/// A comparison operator.
#[derive(Debug, Clone, Copy, PartialEq, Eq, Structural)]
pub enum BinOp {
    Eq,
    Ne,
    Lt,
    Le,
    Gt,
    Ge,
}

/// A literal. A float literal is kept as written.
#[derive(Debug)]
pub enum Literal {
    Str(String),
    Int(i64),
    Float(String),
    Bool(bool),
    Null,
}

/// The content of a literal.
pub enum LitView {
    Str(Seq<char>),
    Int(i64),
    Float(Seq<char>),
    Bool(bool),
    Null,
}

impl View for Literal {
    type V = LitView;

    open spec fn view(&self) -> LitView {
        match self {
            Literal::Str(s) => LitView::Str(s@),
            Literal::Int(n) => LitView::Int(*n),
            Literal::Float(s) => LitView::Float(s@),
            Literal::Bool(b) => LitView::Bool(*b),
            Literal::Null => LitView::Null,
        }
    }
}

/// The content of an expression.
pub enum ExprView {
    BinOp { op: BinOp, left: Box<ExprView>, right: Box<ExprView> },
    And(Box<ExprView>, Box<ExprView>),
    Or(Box<ExprView>, Box<ExprView>),
    Not(Box<ExprView>),
    IsNull(Box<ExprView>),
    IsNotNull(Box<ExprView>),
    Like { expr: Box<ExprView>, pattern: Seq<char> },
    In { expr: Box<ExprView>, values: Seq<LitView> },
    Column(Seq<char>),
    Lit(LitView),
}

/// The content of an expression.
pub open spec fn expr_view(e: Expr) -> ExprView
    decreases e,
{
    match e {
        Expr::BinOp { op, left, right } => ExprView::BinOp {
            op,
            left: Box::new(expr_view(*left)),
            right: Box::new(expr_view(*right)),
        },
        Expr::And(a, b) => ExprView::And(Box::new(expr_view(*a)), Box::new(expr_view(*b))),
        Expr::Or(a, b) => ExprView::Or(Box::new(expr_view(*a)), Box::new(expr_view(*b))),
        Expr::Not(a) => ExprView::Not(Box::new(expr_view(*a))),
        Expr::IsNull(a) => ExprView::IsNull(Box::new(expr_view(*a))),
        Expr::IsNotNull(a) => ExprView::IsNotNull(Box::new(expr_view(*a))),
        Expr::Like { expr, pattern } => ExprView::Like { expr: Box::new(expr_view(*expr)), pattern: pattern@ },
        Expr::In { expr, values } => ExprView::In {
            expr: Box::new(expr_view(*expr)),
            values: values@.map_values(|l: Literal| l@),
        },
        Expr::Column(c) => ExprView::Column(c@),
        Expr::Lit(l) => ExprView::Lit(l@),
    }
}

impl View for Expr {
    type V = ExprView;

    open spec fn view(&self) -> ExprView {
        expr_view(*self)
    }
}

/// The content of a selected column.
pub enum ColumnView {
    Star,
    Named(Seq<char>),
}

impl View for Column {
    type V = ColumnView;

    open spec fn view(&self) -> ColumnView {
        match self {
            Column::Star => ColumnView::Star,
            Column::Named(s) => ColumnView::Named(s@),
        }
    }
}

/// The content of an `ORDER BY` key.
pub struct OrderByView {
    pub column: Seq<char>,
    pub direction: Direction,
}

impl View for OrderBy {
    type V = OrderByView;

    open spec fn view(&self) -> OrderByView {
        OrderByView { column: self.column@, direction: self.direction }
    }
}

/// The view of an optional expression.
pub open spec fn opt_expr_view(e: Option<Expr>) -> Option<ExprView> {
    match e {
        Some(x) => Some(x@),
        None => None,
    }
}

/// The content of a query.
pub struct QueryView {
    pub columns: Seq<ColumnView>,
    pub namespace: Seq<char>,
    pub filter: Option<ExprView>,
    pub effective_at: Option<Timestamp>,
    pub asof: Option<Hlc>,
    pub order_by: Seq<OrderByView>,
    pub limit: Option<usize>,
    pub offset: Option<usize>,
}

impl View for Query {
    type V = QueryView;

    open spec fn view(&self) -> QueryView {
        QueryView {
            columns: self.columns@.map_values(|c: Column| c@),
            namespace: self.namespace@,
            filter: opt_expr_view(self.filter),
            effective_at: self.effective_at,
            asof: self.asof,
            order_by: self.order_by@.map_values(|o: OrderBy| o@),
            limit: self.limit,
            offset: self.offset,
        }
    }
}

} // verus!
