//! The statement tree that the parser builds and the executor interprets.

use vstd::prelude::*;

verus! {

/// An expression of a WHERE clause.
#[derive(Debug, PartialEq, Eq)]
pub enum Expression {
    /// Two operands joined by an operator.
    BinaryOp { left: Box<Expression>, op: String, right: Box<Expression> },
    /// A text, taken as it is.
    Literal(String),
    /// The value of a column in the row at hand.
    Column(String),
}

/// An expression over sequences of characters.
pub enum ExprView {
    BinaryOp { left: Box<ExprView>, op: Seq<char>, right: Box<ExprView> },
    Literal(Seq<char>),
    Column(Seq<char>),
}

/// The expression `e` over sequences of characters.
pub open spec fn expr_view(e: Expression) -> ExprView
    decreases e,
{
    match e {
        Expression::BinaryOp { left, op, right } => ExprView::BinaryOp {
            left: Box::new(expr_view(*left)),
            op: op@,
            right: Box::new(expr_view(*right)),
        },
        Expression::Literal(text) => ExprView::Literal(text@),
        Expression::Column(name) => ExprView::Column(name@),
    }
}

impl View for Expression {
    type V = ExprView;

    open spec fn view(&self) -> ExprView {
        expr_view(*self)
    }
}

impl DeepView for Expression {
    type V = ExprView;

    open spec fn deep_view(&self) -> ExprView {
        expr_view(*self)
    }
}

/// The ORDER BY clause: one column and a direction.
#[derive(Debug, PartialEq, Eq)]
pub struct OrderBy {
    pub column: String,
    pub ascending: bool,
}

pub struct OrderByView {
    pub column: Seq<char>,
    pub ascending: bool,
}

impl View for OrderBy {
    type V = OrderByView;

    open spec fn view(&self) -> OrderByView {
        OrderByView { column: self.column@, ascending: self.ascending }
    }
}

impl DeepView for OrderBy {
    type V = OrderByView;

    open spec fn deep_view(&self) -> OrderByView {
        self@
    }
}

/// One `column = value` of an UPDATE.
#[derive(Debug, PartialEq, Eq)]
pub struct Assignment {
    pub column: String,
    pub value: String,
}

pub struct AssignmentView {
    pub column: Seq<char>,
    pub value: Seq<char>,
}

impl View for Assignment {
    type V = AssignmentView;

    open spec fn view(&self) -> AssignmentView {
        AssignmentView { column: self.column@, value: self.value@ }
    }
}

impl DeepView for Assignment {
    type V = AssignmentView;

    open spec fn deep_view(&self) -> AssignmentView {
        self@
    }
}

/// `SELECT columns FROM table [WHERE ..] [ORDER BY ..]`. A `*` in the column list
/// stands as the name `*`.
#[derive(Debug, PartialEq, Eq)]
pub struct SelectQuery {
    pub columns: Vec<String>,
    pub table: String,
    pub where_clause: Option<Expression>,
    pub order_by: Option<OrderBy>,
}

pub struct SelectView {
    pub columns: Seq<Seq<char>>,
    pub table: Seq<char>,
    pub where_clause: Option<ExprView>,
    pub order_by: Option<OrderByView>,
}

impl View for SelectQuery {
    type V = SelectView;

    open spec fn view(&self) -> SelectView {
        SelectView {
            columns: self.columns.deep_view(),
            table: self.table@,
            where_clause: self.where_clause.deep_view(),
            order_by: self.order_by.deep_view(),
        }
    }
}

/// `INSERT INTO table [(columns)] VALUES (values)`. Without a column list
/// `columns` is empty.
#[derive(Debug, PartialEq, Eq)]
pub struct InsertQuery {
    pub table: String,
    pub columns: Vec<String>,
    pub values: Vec<String>,
}

pub struct InsertView {
    pub table: Seq<char>,
    pub columns: Seq<Seq<char>>,
    pub values: Seq<Seq<char>>,
}

impl View for InsertQuery {
    type V = InsertView;

    open spec fn view(&self) -> InsertView {
        InsertView {
            table: self.table@,
            columns: self.columns.deep_view(),
            values: self.values.deep_view(),
        }
    }
}

/// `UPDATE table SET assignments [WHERE ..]`.
#[derive(Debug, PartialEq, Eq)]
pub struct UpdateQuery {
    pub table: String,
    pub assignments: Vec<Assignment>,
    pub where_clause: Option<Expression>,
}

pub struct UpdateView {
    pub table: Seq<char>,
    pub assignments: Seq<AssignmentView>,
    pub where_clause: Option<ExprView>,
}

impl View for UpdateQuery {
    type V = UpdateView;

    open spec fn view(&self) -> UpdateView {
        UpdateView {
            table: self.table@,
            assignments: self.assignments.deep_view(),
            where_clause: self.where_clause.deep_view(),
        }
    }
}

/// `DELETE FROM table [WHERE ..]`.
#[derive(Debug, PartialEq, Eq)]
pub struct DeleteQuery {
    pub table: String,
    pub where_clause: Option<Expression>,
}

pub struct DeleteView {
    pub table: Seq<char>,
    pub where_clause: Option<ExprView>,
}

impl View for DeleteQuery {
    type V = DeleteView;

    open spec fn view(&self) -> DeleteView {
        DeleteView { table: self.table@, where_clause: self.where_clause.deep_view() }
    }
}

/// A parsed statement.
#[derive(Debug, PartialEq, Eq)]
pub enum SQLQuery {
    Select(SelectQuery),
    Insert(InsertQuery),
    Update(UpdateQuery),
    Delete(DeleteQuery),
}

pub enum QueryView {
    Select(SelectView),
    Insert(InsertView),
    Update(UpdateView),
    Delete(DeleteView),
}

impl View for SQLQuery {
    type V = QueryView;

    open spec fn view(&self) -> QueryView {
        match self {
            SQLQuery::Select(q) => QueryView::Select(q@),
            SQLQuery::Insert(q) => QueryView::Insert(q@),
            SQLQuery::Update(q) => QueryView::Update(q@),
            SQLQuery::Delete(q) => QueryView::Delete(q@),
        }
    }
}

impl SQLQuery {
    /// The name of the table that the statement works on.
    pub fn table(&self) -> (name: &String)
        ensures
            name@ == self@.table(),
    {
        match self {
            SQLQuery::Select(q) => &q.table,
            SQLQuery::Insert(q) => &q.table,
            SQLQuery::Update(q) => &q.table,
            SQLQuery::Delete(q) => &q.table,
        }
    }
}

impl QueryView {
    /// The name of the table that the statement works on.
    pub open spec fn table(self) -> Seq<char> {
        match self {
            QueryView::Select(q) => q.table,
            QueryView::Insert(q) => q.table,
            QueryView::Update(q) => q.table,
            QueryView::Delete(q) => q.table,
        }
    }
}

} // verus!
