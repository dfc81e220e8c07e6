//! The pre-execution validator: a name-collision check over joined
//! tables, run once before evaluation.

use vstd::prelude::*;

use crate::ast::{Expr, Schema, SelectItem, SetExpr, Statement};
use crate::error::{Error, SelectError};

verus! {

/// Whether a schema defines a column of the given name.
pub open spec fn schema_has_col(s: Schema, name: Seq<char>) -> bool {
    exists|i: int| 0 <= i < s.column_defs@.len() && s.column_defs@[i].name@ == name
}

/// How many schemas define a column of the given name.
pub open spec fn col_count(schemas: Seq<Schema>, name: Seq<char>) -> int
    decreases schemas.len(),
{
    if schemas.len() == 0 {
        0
    } else {
        col_count(schemas.drop_last(), name) + if schema_has_col(schemas.last(), name) {
            1int
        } else {
            0int
        }
    }
}

/// A name defined by more than one table is ambiguous.
pub open spec fn ambiguous(schemas: Seq<Schema>, name: Seq<char>) -> bool {
    col_count(schemas, name) >= 2
}

/// The first projected bare identifier that is ambiguous across the
/// schemas, scanning the projection left to right.
pub open spec fn first_ambiguous(items: Seq<SelectItem>, schemas: Seq<Schema>) -> Option<Seq<char>>
    decreases items.len(),
{
    if items.len() == 0 {
        None
    } else {
        match items[0] {
            SelectItem::Expr { expr: Expr::Identifier(id), .. } => if ambiguous(schemas, id@) {
                Some(id@)
            } else {
                first_ambiguous(items.skip(1), schemas)
            },
            _ => first_ambiguous(items.skip(1), schemas),
        }
    }
}

/// Whether the statement is a select with at least one join: the one
/// shape the validator inspects.
pub open spec fn is_join_select(s: Statement) -> bool {
    match s {
        Statement::Query(q) => match q.body {
            SetExpr::Select(sel) => sel.from.joins@.len() > 0,
        },
    }
}

/// The projection of a join select.
pub open spec fn projection_of(s: Statement) -> Seq<SelectItem> {
    match s {
        Statement::Query(q) => match q.body {
            SetExpr::Select(sel) => sel.projection@,
        },
    }
}

/// Decides whether a schema defines the column.
fn has_col(s: &Schema, name: &String) -> (r: bool)
    ensures
        r == schema_has_col(*s, name@),
{
    let mut i: usize = 0;
    while i < s.column_defs.len()
        invariant
            i <= s.column_defs@.len(),
            forall|j: int| 0 <= j < i ==> #[trigger] s.column_defs@[j].name@ != name@,
        decreases s.column_defs@.len() - i,
    {
        if crate::literal::str_eq(s.column_defs[i].name.as_str(), name.as_str()) {
            return true;
        }
        i = i + 1;
    }
    false
}

/// Counts the schemas that define the column.
fn count_tables_with_col(schemas: &Vec<Schema>, name: &String) -> (r: usize)
    ensures
        r == col_count(schemas@, name@),
{
    let mut count: usize = 0;
    let mut i: usize = 0;
    proof {
        assert(schemas@.take(0) =~= Seq::<Schema>::empty());
    }
    while i < schemas.len()
        invariant
            i <= schemas@.len(),
            count <= i,
            count == col_count(schemas@.take(i as int), name@),
        decreases schemas@.len() - i,
    {
        proof {
            assert(schemas@.take(i + 1).drop_last() =~= schemas@.take(i as int));
            assert(schemas@.take(i + 1).last() == schemas@[i as int]);
        }
        if has_col(&schemas[i], name) {
            count = count + 1;
        }
        i = i + 1;
    }
    proof {
        assert(schemas@.take(schemas@.len() as int) =~= schemas@);
    }
    count
}

/// Validates a statement against the schemas: a select over joined
/// tables must not project a bare column name that more than one table
/// defines.  On success the statement passes through unchanged; the
/// first ambiguous name, in projection order, is the error.
pub fn validate(schemas: &Vec<Schema>, statement: Statement) -> (r: Result<Statement, Error>)
    ensures
        !is_join_select(statement) ==> r == Ok::<Statement, Error>(statement),
        is_join_select(statement) ==> match first_ambiguous(projection_of(statement), schemas@) {
            None => r == Ok::<Statement, Error>(statement),
            Some(name) => r matches Err(
                Error::Select(SelectError::ColumnReferenceAmbiguous(n)),
            ) && n@ == name,
        },
{
    let Statement::Query(q) = &statement;
    let SetExpr::Select(sel) = &q.body;
    proof {
        assert(projection_of(statement) == sel.projection@);
        assert(is_join_select(statement) == (sel.from.joins@.len() > 0));
    }
    if sel.from.joins.len() > 0 {
        let ghost items = sel.projection@;
        let mut i: usize = 0;
        proof {
            assert(items.skip(0) =~= items);
        }
        while i < sel.projection.len()
            invariant
                i <= items.len(),
                items == sel.projection@,
                is_join_select(statement),
                projection_of(statement) == items,
                first_ambiguous(items.skip(i as int), schemas@) == first_ambiguous(
                    items,
                    schemas@,
                ),
            decreases items.len() - i,
        {
            proof {
                assert(items.skip(i as int)[0] == items[i as int]);
                assert(items.skip(i as int).skip(1) =~= items.skip(i + 1));
            }
            match &sel.projection[i] {
                SelectItem::Expr { expr: Expr::Identifier(id), .. } => {
                    let c = count_tables_with_col(schemas, id);
                    if c > 1 {
                        proof {
                            assert(ambiguous(schemas@, id@));
                            assert(first_ambiguous(items, schemas@) == Some(id@));
                        }
                        return Err(
                            Error::Select(SelectError::ColumnReferenceAmbiguous(id.clone())),
                        );
                    }
                },
                _ => {},
            }
            i = i + 1;
        }
        proof {
            assert(items.skip(items.len() as int) =~= Seq::<SelectItem>::empty());
        }
    }
    Ok(statement)
}

} // verus!
