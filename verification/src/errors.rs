//! The errors a statement can end in.

use vstd::prelude::*;

verus! {

/// Why a statement was not carried out. Every variant holds the full message.
#[derive(Debug, PartialEq, Eq)]
pub enum SQLError {
    /// The table cannot be read or has no header.
    InvalidTable(String),
    /// A column that the table does not have.
    InvalidColumn(String),
    /// Text that is no statement, or an expression that cannot be evaluated.
    InvalidSyntax(String),
    /// Anything else, such as a failed write.
    GenericError(String),
}

/// An error with its message as a sequence of characters.
pub enum ErrorView {
    InvalidTable(Seq<char>),
    InvalidColumn(Seq<char>),
    InvalidSyntax(Seq<char>),
    GenericError(Seq<char>),
}

impl ErrorView {
    /// The line that reports the error: a tag for the kind, then the message.
    pub open spec fn report(self) -> Seq<char> {
        match self {
            ErrorView::InvalidTable(m) => "INVALID_TABLE: "@ + m,
            ErrorView::InvalidColumn(m) => "INVALID_COLUMN: "@ + m,
            ErrorView::InvalidSyntax(m) => "INVALID_SYNTAX: "@ + m,
            ErrorView::GenericError(m) => "ERROR: "@ + m,
        }
    }
}

impl View for SQLError {
    type V = ErrorView;

    open spec fn view(&self) -> ErrorView {
        match self {
            SQLError::InvalidTable(m) => ErrorView::InvalidTable(m@),
            SQLError::InvalidColumn(m) => ErrorView::InvalidColumn(m@),
            SQLError::InvalidSyntax(m) => ErrorView::InvalidSyntax(m@),
            SQLError::GenericError(m) => ErrorView::GenericError(m@),
        }
    }
}

/// The error for a column name that the schema does not hold.
pub open spec fn unknown_column(name: Seq<char>) -> ErrorView {
    ErrorView::InvalidColumn("Column '"@ + name + "' does not exist"@)
}

/// A syntax error with a fixed message.
pub open spec fn syntax_error(message: &str) -> ErrorView {
    ErrorView::InvalidSyntax(message@)
}

impl SQLError {
    /// The line that reports the error.
    pub fn message(&self) -> (line: String)
        ensures
            line@ == self@.report(),
    {
        match self {
            SQLError::InvalidTable(m) => "INVALID_TABLE: ".to_string().concat(m.as_str()),
            SQLError::InvalidColumn(m) => "INVALID_COLUMN: ".to_string().concat(m.as_str()),
            SQLError::InvalidSyntax(m) => "INVALID_SYNTAX: ".to_string().concat(m.as_str()),
            SQLError::GenericError(m) => "ERROR: ".to_string().concat(m.as_str()),
        }
    }

    /// The error for a column name that the schema does not hold.
    pub fn column_missing(name: &str) -> (e: SQLError)
        ensures
            e@ == unknown_column(name@),
    {
        let mut m = "Column '".to_string();
        m.append(name);
        m.append("' does not exist");
        SQLError::InvalidColumn(m)
    }

    /// A syntax error with the given message.
    pub fn syntax(message: &str) -> (e: SQLError)
        ensures
            e@ == syntax_error(message),
    {
        SQLError::InvalidSyntax(message.to_string())
    }
}

} // verus!
