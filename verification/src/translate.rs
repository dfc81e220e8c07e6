//! Translation of a parsed query into the engine's command: a total
//! mapping with explicit failures, never an abort on parseable input.

use vstd::prelude::*;

use crate::ast::{ColumnDef, Expr};
use crate::error::{Error, TranslateError};
use crate::fetch::Filter;
use crate::literal::AstLiteral;

verus! {

/// A parsed table-creation statement.
#[derive(Debug)]
pub struct CreateTableStatement {
    pub table: String,
    pub columns: Vec<ColumnDef>,
}

/// A parsed insertion.
#[derive(Debug)]
pub struct InsertStatement {
    pub table: String,
    pub values: Vec<Vec<AstLiteral>>,
}

/// A parsed selection.
#[derive(Debug)]
pub struct SelectStatement {
    pub tables: Vec<String>,
    pub where_clause: Option<Expr>,
}

/// A parsed deletion.
#[derive(Debug)]
pub struct DeleteStatement {
    pub table: String,
    pub where_clause: Option<Expr>,
}

/// A parsed update.
#[derive(Debug)]
pub struct UpdateStatement {
    pub table: String,
    pub fields: Vec<(String, AstLiteral)>,
    pub where_clause: Option<Expr>,
}

/// A parsed query, as the parser hands it over.
#[derive(Debug)]
pub enum SqlQuery {
    CreateTable(CreateTableStatement),
    Insert(InsertStatement),
    Select(SelectStatement),
    Delete(DeleteStatement),
    Update(UpdateStatement),
    Other,
}

/// The column assignments of an update.
#[derive(Debug)]
pub struct Update {
    pub fields: Vec<(String, AstLiteral)>,
}

/// The engine command a query translates to.
#[derive(Debug)]
pub enum CommandType {
    Create(CreateTableStatement),
    Insert(InsertStatement),
    Select(String, Filter),
    Delete(String, Filter),
    Update(String, Update, Filter),
}

/// Translates a parsed query into the engine's command.  Creation and
/// insertion pass through; selection takes its first table and its
/// filter, and fails without a table; deletion and update take their
/// table, assignments and filter; an unrecognized statement kind is an
/// explicit unsupported-statement error, not an abort.
pub fn translate(sql_query: SqlQuery) -> (r: Result<CommandType, Error>)
    ensures
        match sql_query {
            SqlQuery::CreateTable(s) => r == Ok::<CommandType, Error>(CommandType::Create(s)),
            SqlQuery::Insert(s) => r == Ok::<CommandType, Error>(CommandType::Insert(s)),
            SqlQuery::Select(s) => if s.tables@.len() == 0 {
                r == Err::<CommandType, Error>(
                    Error::Translate(TranslateError::StatementHasNoTable),
                )
            } else {
                r == Ok::<CommandType, Error>(
                    CommandType::Select(
                        s.tables@[0],
                        Filter { where_clause: s.where_clause },
                    ),
                )
            },
            SqlQuery::Delete(s) => r == Ok::<CommandType, Error>(
                CommandType::Delete(s.table, Filter { where_clause: s.where_clause }),
            ),
            SqlQuery::Update(s) => r == Ok::<CommandType, Error>(
                CommandType::Update(
                    s.table,
                    Update { fields: s.fields },
                    Filter { where_clause: s.where_clause },
                ),
            ),
            SqlQuery::Other => r == Err::<CommandType, Error>(
                Error::Translate(TranslateError::UnsupportedQuery),
            ),
        },
{
    match sql_query {
        SqlQuery::CreateTable(statement) => Ok(CommandType::Create(statement)),
        SqlQuery::Insert(statement) => Ok(CommandType::Insert(statement)),
        SqlQuery::Select(statement) => {
            let SelectStatement { tables, where_clause } = statement;
            let mut tables = tables;
            if tables.len() == 0 {
                return Err(Error::Translate(TranslateError::StatementHasNoTable));
            }
            let table_name = tables.remove(0);
            let filter = Filter { where_clause };
            Ok(CommandType::Select(table_name, filter))
        },
        SqlQuery::Delete(statement) => {
            let DeleteStatement { table, where_clause } = statement;
            let filter = Filter { where_clause };
            Ok(CommandType::Delete(table, filter))
        },
        SqlQuery::Update(statement) => {
            let UpdateStatement { table, fields, where_clause } = statement;
            let update = Update { fields };
            let filter = Filter { where_clause };
            Ok(CommandType::Update(table, update, filter))
        },
        SqlQuery::Other => Err(Error::Translate(TranslateError::UnsupportedQuery)),
    }
}

} // verus!
