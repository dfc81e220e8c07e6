//! The fetch pipeline: a table scan filtered row by row, in scan order,
//! stopping at the first failing filter evaluation.

use vstd::prelude::*;

use crate::ast::Expr;
use crate::error::{Error, EvaluateError, ValueError};
use crate::evaluate::{evaluated_wf, spec_evaluated_to_value, Evaluated, EvaluatedV};
use crate::store::{row_wf, Row, Store};
use crate::value::{Value, ValueV};

verus! {

/// Failures of the fetch pipeline.
#[derive(Debug, Clone, PartialEq, Eq)]
pub enum FetchError {
    /// The named table does not exist.
    TableNotFound(String),
}

/// What evaluating an expression over one row owes.
pub enum ExprOutcome {
    Ev(EvaluatedV),
    ParseFail,
    TypeMismatch,
    Overflow,
    DivByZero,
    BoolRequired,
    NotFound,
    OutOfRange,
    Unsupported,
}

/// The character sequences of a column-name list.
pub open spec fn cols_view(cols: Seq<String>) -> Seq<Seq<char>> {
    Seq::new(cols.len(), |i: int| cols[i]@)
}

/// The position of the first column of the given name, or the count.
pub open spec fn first_col(cols: Seq<Seq<char>>, name: Seq<char>) -> int
    decreases cols.len(),
{
    if cols.len() == 0 {
        0
    } else if cols[0] == name {
        0
    } else {
        1 + first_col(cols.skip(1), name)
    }
}

proof fn lemma_first_col(cols: Seq<Seq<char>>, name: Seq<char>)
    ensures
        0 <= first_col(cols, name) <= cols.len(),
        first_col(cols, name) < cols.len() ==> cols[first_col(cols, name)] == name,
        forall|j: int| 0 <= j < first_col(cols, name) ==> cols[j] != name,
    decreases cols.len(),
{
    if cols.len() > 0 && cols[0] != name {
        lemma_first_col(cols.skip(1), name);
        assert(forall|j: int|
            1 <= j < first_col(cols, name) ==> #[trigger] cols[j] == cols.skip(1)[j - 1]
                && cols.skip(1)[j - 1] != name);
    }
}

/// Lifts a coercion outcome.
pub open spec fn lift_coerced(c: crate::literal::Coerced) -> ExprOutcome {
    match c {
        crate::literal::Coerced::Val(v) => ExprOutcome::Ev(EvaluatedV::Value(v)),
        crate::literal::Coerced::ParseFail(_) => ExprOutcome::ParseFail,
        crate::literal::Coerced::OutOfRange(_) => ExprOutcome::OutOfRange,
        crate::literal::Coerced::Unsupported => ExprOutcome::Unsupported,
    }
}

/// Lifts an evaluator outcome.
pub open spec fn lift_eval(c: crate::evaluate::EvalOutcome) -> ExprOutcome {
    match c {
        crate::evaluate::EvalOutcome::Val(v) => ExprOutcome::Ev(EvaluatedV::Value(v)),
        crate::evaluate::EvalOutcome::ParseFail => ExprOutcome::ParseFail,
        crate::evaluate::EvalOutcome::TypeMismatch => ExprOutcome::TypeMismatch,
        crate::evaluate::EvalOutcome::Overflow => ExprOutcome::Overflow,
        crate::evaluate::EvalOutcome::DivByZero => ExprOutcome::DivByZero,
        crate::evaluate::EvalOutcome::BoolRequired => ExprOutcome::BoolRequired,
    }
}

/// What evaluating an expression tree against one row returns: a pure
/// recursive reduction over the node, resolving bare and compound
/// identifiers positionally against the column list.
pub open spec fn spec_evaluate(e: Expr, cols: Seq<Seq<char>>, row: Seq<ValueV>) -> ExprOutcome
    decreases e,
{
    match e {
        Expr::Identifier(id) => {
            let i = first_col(cols, id@);
            if i < cols.len() && i < row.len() {
                ExprOutcome::Ev(EvaluatedV::Value(row[i]))
            } else {
                ExprOutcome::NotFound
            }
        },
        Expr::CompoundIdentifier(parts) => {
            if parts@.len() == 0 {
                ExprOutcome::NotFound
            } else {
                let i = first_col(cols, parts@.last()@);
                if i < cols.len() && i < row.len() {
                    ExprOutcome::Ev(EvaluatedV::Value(row[i]))
                } else {
                    ExprOutcome::NotFound
                }
            }
        },
        Expr::Literal(l) => match crate::literal::spec_literal_of_ast(l) {
            Some(lv) => ExprOutcome::Ev(EvaluatedV::Literal(lv)),
            None => ExprOutcome::ParseFail,
        },
        Expr::TypedString { data_type, value } => lift_coerced(
            crate::literal::spec_try_from_literal(
                data_type,
                crate::literal::LiteralV::Text(value@),
            ),
        ),
        Expr::BinaryOp { left, op, right } => match spec_evaluate(*left, cols, row) {
            ExprOutcome::Ev(l) => match spec_evaluate(*right, cols, row) {
                ExprOutcome::Ev(r) => lift_eval(crate::evaluate::spec_binary_op(op, l, r)),
                other => other,
            },
            other => other,
        },
        Expr::UnaryOp { op, expr } => match spec_evaluate(*expr, cols, row) {
            ExprOutcome::Ev(v) => lift_eval(crate::evaluate::spec_unary_op(op, v)),
            other => other,
        },
        Expr::Between { expr, negated, low, high } => match spec_evaluate(*expr, cols, row) {
            ExprOutcome::Ev(t) => match spec_evaluate(*low, cols, row) {
                ExprOutcome::Ev(lo) => match spec_evaluate(*high, cols, row) {
                    ExprOutcome::Ev(hi) => lift_eval(
                        crate::evaluate::spec_between(t, negated, lo, hi),
                    ),
                    other => other,
                },
                other => other,
            },
            other => other,
        },
        Expr::Nested(inner) => spec_evaluate(*inner, cols, row),
    }
}

/// Whether an error value carries the kind an outcome names.
pub open spec fn expr_err_matches(c: ExprOutcome, e: Error) -> bool {
    match c {
        ExprOutcome::Ev(_) => false,
        ExprOutcome::ParseFail => e matches Error::Value(ValueError::FailedToParseLiteral(_)),
        ExprOutcome::TypeMismatch => e matches Error::Value(ValueError::TypeMismatch(_)),
        ExprOutcome::Overflow => e matches Error::Value(ValueError::Overflow(_)),
        ExprOutcome::DivByZero => e matches Error::Value(ValueError::DivisorShouldNotBeZero),
        ExprOutcome::BoolRequired => e matches Error::Evaluate(
            EvaluateError::BooleanTypeRequired(_),
        ),
        ExprOutcome::NotFound => e matches Error::Evaluate(EvaluateError::ValueNotFound(_)),
        ExprOutcome::OutOfRange => e matches Error::Value(ValueError::ValueOutOfRange(_)),
        ExprOutcome::Unsupported => e matches Error::Value(ValueError::UnsupportedLiteral(_)),
    }
}

/// Whether an outcome and an evaluation result agree.
pub open spec fn expr_matches(c: ExprOutcome, r: Result<Evaluated, Error>) -> bool {
    match c {
        ExprOutcome::Ev(e) => r is Ok && r->Ok_0@ == e && evaluated_wf(e),
        _ => r is Err && expr_err_matches(c, r->Err_0),
    }
}

/// Finds the position of a column name.
fn find_col(cols: &Vec<String>, name: &str) -> (r: usize)
    ensures
        r == first_col(cols_view(cols@), name@),
        r <= cols@.len(),
{
    let ghost cv = cols_view(cols@);
    let mut i: usize = 0;
    while i < cols.len()
        invariant
            i <= cols@.len(),
            cv == cols_view(cols@),
            forall|j: int| 0 <= j < i ==> cv[j] != name@,
        decreases cols@.len() - i,
    {
        if crate::literal::str_eq(cols[i].as_str(), name) {
            proof {
                lemma_first_col(cv, name@);
                let w = first_col(cv, name@);
                if w < i as int {
                    assert(cv[w] == name@);
                    assert(false);
                } else if (i as int) < w {
                    assert(cv[i as int] != name@);
                    assert(false);
                }
            }
            return i;
        }
        i = i + 1;
    }
    proof {
        lemma_first_col(cv, name@);
        let w = first_col(cv, name@);
        if w < cols@.len() {
            assert(cv[w] == name@);
            assert(false);
        }
    }
    i
}

/// Evaluates an expression tree against one row.
pub fn evaluate_expr(e: &Expr, cols: &Vec<String>, row: &Row) -> (r: Result<Evaluated, Error>)
    requires
        row_wf(row@),
    ensures
        expr_matches(spec_evaluate(*e, cols_view(cols@), row@), r),
    decreases *e,
{
    let ghost cv = cols_view(cols@);
    match e {
        Expr::Identifier(id) => {
            let i = find_col(cols, id.as_str());
            if i < cols.len() && i < row.0.len() {
                Ok(Evaluated::Value(crate::value::value_clone(&row.0[i])))
            } else {
                Err(Error::Evaluate(EvaluateError::ValueNotFound(id.clone())))
            }
        },
        Expr::CompoundIdentifier(parts) => {
            if parts.len() == 0 {
                Err(Error::Evaluate(EvaluateError::ValueNotFound(String::new())))
            } else {
                let last = &parts[parts.len() - 1];
                proof {
                    assert(parts@.last() == parts@[parts@.len() - 1]);
                }
                let i = find_col(cols, last.as_str());
                if i < cols.len() && i < row.0.len() {
                    Ok(Evaluated::Value(crate::value::value_clone(&row.0[i])))
                } else {
                    Err(Error::Evaluate(EvaluateError::ValueNotFound(last.clone())))
                }
            }
        },
        Expr::Literal(l) => crate::evaluate::literal(l),
        Expr::TypedString { data_type, value } => crate::evaluate::typed_string(
            data_type,
            value.clone(),
        ),
        Expr::BinaryOp { left, op, right } => {
            let l = match evaluate_expr(left, cols, row) {
                Ok(v) => v,
                Err(er) => {
                    return Err(er);
                },
            };
            let rr = match evaluate_expr(right, cols, row) {
                Ok(v) => v,
                Err(er) => {
                    return Err(er);
                },
            };
            crate::evaluate::binary_op(op, l, rr)
        },
        Expr::UnaryOp { op, expr } => {
            let v = match evaluate_expr(expr, cols, row) {
                Ok(v) => v,
                Err(er) => {
                    return Err(er);
                },
            };
            crate::evaluate::unary_op(op, v)
        },
        Expr::Between { expr, negated, low, high } => {
            let t = match evaluate_expr(expr, cols, row) {
                Ok(v) => v,
                Err(er) => {
                    return Err(er);
                },
            };
            let lo = match evaluate_expr(low, cols, row) {
                Ok(v) => v,
                Err(er) => {
                    return Err(er);
                },
            };
            let hi = match evaluate_expr(high, cols, row) {
                Ok(v) => v,
                Err(er) => {
                    return Err(er);
                },
            };
            crate::evaluate::between(t, *negated, lo, hi)
        },
        Expr::Nested(inner) => evaluate_expr(inner, cols, row),
    }
}

/// The per-row filter: an optional selection predicate shared across one
/// scan.
#[derive(Debug)]
pub struct Filter {
    pub where_clause: Option<Expr>,
}

/// How one row fares against the filter: it passes or not; its
/// evaluation fails with a named outcome; or the predicate came out
/// non-boolean.
pub enum CheckOutcome {
    Pass(bool),
    EvalFail(ExprOutcome),
    NotBool,
}

/// Whether a row passes the filter: no predicate passes everything; a
/// boolean result decides; `Null` rejects; anything else fails with the
/// evaluation's own outcome, or as a boolean-required error.
pub open spec fn spec_check_full(wc: Option<Expr>, cols: Seq<Seq<char>>, row: Seq<ValueV>) -> CheckOutcome {
    match wc {
        None => CheckOutcome::Pass(true),
        Some(e) => match spec_evaluate(e, cols, row) {
            ExprOutcome::Ev(ev) => match spec_evaluated_to_value(ev) {
                Some(ValueV::Bool(b)) => CheckOutcome::Pass(b),
                Some(ValueV::Null) => CheckOutcome::Pass(false),
                Some(_) => CheckOutcome::NotBool,
                None => CheckOutcome::EvalFail(ExprOutcome::ParseFail),
            },
            other => CheckOutcome::EvalFail(other),
        },
    }
}

/// The pass verdict alone, where there is one.
pub open spec fn spec_check(wc: Option<Expr>, cols: Seq<Seq<char>>, row: Seq<ValueV>) -> Option<
    bool,
> {
    match spec_check_full(wc, cols, row) {
        CheckOutcome::Pass(b) => Some(b),
        _ => None,
    }
}

impl Filter {
    /// Decides whether one row passes.
    pub fn check(&self, cols: &Vec<String>, row: &Row) -> (r: Result<bool, Error>)
        requires
            row_wf(row@),
        ensures
            match spec_check_full(self.where_clause, cols_view(cols@), row@) {
                CheckOutcome::Pass(b) => r == Ok::<bool, Error>(b),
                CheckOutcome::EvalFail(o) => r is Err && expr_err_matches(o, r->Err_0),
                CheckOutcome::NotBool => r matches Err(
                    Error::Evaluate(EvaluateError::BooleanTypeRequired(_)),
                ),
            },
    {
        match &self.where_clause {
            None => Ok(true),
            Some(e) => {
                let ev = match evaluate_expr(e, cols, row) {
                    Ok(v) => v,
                    Err(er) => {
                        return Err(er);
                    },
                };
                let v = match crate::evaluate::evaluated_to_value(&ev) {
                    Ok(v) => v,
                    Err(er) => {
                        return Err(er);
                    },
                };
                match v {
                    Value::Bool(b) => Ok(b),
                    Value::Null => Ok(false),
                    _ => Err(
                        Error::Evaluate(EvaluateError::BooleanTypeRequired(String::new())),
                    ),
                }
            },
        }
    }
}

/// The rows the filter keeps, in scan order; `None` when the filter
/// fails on some row at or before the first kept rows are complete.
pub open spec fn spec_fetch_rows<K>(
    rows: Seq<(K, Seq<ValueV>)>,
    cols: Seq<Seq<char>>,
    wc: Option<Expr>,
) -> Option<Seq<(K, Seq<ValueV>)>>
    decreases rows.len(),
{
    if rows.len() == 0 {
        Some(Seq::empty())
    } else {
        match spec_check(wc, cols, rows[0].1) {
            None => None,
            Some(pass) => match spec_fetch_rows(rows.skip(1), cols, wc) {
                None => None,
                Some(rest) => if pass {
                    Some(seq![rows[0]] + rest)
                } else {
                    Some(rest)
                },
            },
        }
    }
}

/// Whether an error value carries the kind a check outcome names.
pub open spec fn check_err_matches(c: CheckOutcome, e: Error) -> bool {
    match c {
        CheckOutcome::Pass(_) => false,
        CheckOutcome::EvalFail(o) => expr_err_matches(o, e),
        CheckOutcome::NotBool => e matches Error::Evaluate(EvaluateError::BooleanTypeRequired(_)),
    }
}

/// The position of the first row whose check fails, or the count.
pub open spec fn first_check_fail<K>(
    rows: Seq<(K, Seq<ValueV>)>,
    cols: Seq<Seq<char>>,
    wc: Option<Expr>,
) -> int
    decreases rows.len(),
{
    if rows.len() == 0 {
        0
    } else if !(spec_check(wc, cols, rows[0].1) is Some) {
        0
    } else {
        1 + first_check_fail(rows.skip(1), cols, wc)
    }
}

/// The column names of a table: the projected-or-all identifiers, failing
/// with a table-not-found error when the schema is absent.
pub fn fetch_columns<K, S: Store<K>>(storage: &S, table_name: &str) -> (r: Result<
    Vec<String>,
    Error,
>)
    ensures
        r is Ok ==> storage.has_table(table_name@) && r->Ok_0@.len() == storage.table_schema(
            table_name@,
        ).1.len() && (forall|i: int|
            0 <= i < r->Ok_0@.len() ==> (#[trigger] r->Ok_0@[i])@ == storage.table_schema(
                table_name@,
            ).1[i].0),
        !storage.has_table(table_name@) ==> r is Err,
        storage.total() && storage.has_table(table_name@) ==> r is Ok,
        storage.total() && !storage.has_table(table_name@) ==> (r matches Err(
            Error::Fetch(FetchError::TableNotFound(n)),
        ) && n@ == table_name@),
{
    let schema = match storage.fetch_schema(table_name) {
        Ok(Some(s)) => s,
        Ok(None) => {
            return Err(Error::Fetch(FetchError::TableNotFound(table_name.to_owned())));
        },
        Err(e) => {
            return Err(e);
        },
    };
    let mut out: Vec<String> = Vec::new();
    let mut i: usize = 0;
    while i < schema.column_defs.len()
        invariant
            i <= schema.column_defs@.len(),
            out@.len() == i,
            forall|j: int| 0 <= j < i ==> (#[trigger] out@[j])@ == schema.column_defs@[j].name@,
        decreases schema.column_defs@.len() - i,
    {
        out.push(schema.column_defs[i].name.clone());
        i = i + 1;
    }
    Ok(out)
}

/// Scans a table and keeps the rows the filter passes, in scan order;
/// the first failing filter evaluation ends the whole fetch with its
/// error, and a missing table is a table-not-found error.
#[verifier::rlimit(100)]
pub fn fetch<K, S: Store<K>>(
    storage: &S,
    table_name: &str,
    columns: &Vec<String>,
    filter: &Filter,
) -> (r: Result<Vec<(K, Row)>, Error>)
    ensures
        !storage.has_table(table_name@) ==> (r matches Err(
            Error::Fetch(FetchError::TableNotFound(n)),
        ) && n@ == table_name@),
        r is Ok ==> match spec_fetch_rows(
            storage.table_rows(table_name@),
            cols_view(columns@),
            filter.where_clause,
        ) {
            Some(kept) => r->Ok_0@.len() == kept.len() && (forall|i: int|
                0 <= i < kept.len() ==> (#[trigger] r->Ok_0@[i]).0 == kept[i].0 && r->Ok_0@[i].1@
                    == kept[i].1),
            None => false,
        },
        storage.total() && storage.has_table(table_name@) && spec_fetch_rows(
            storage.table_rows(table_name@),
            cols_view(columns@),
            filter.where_clause,
        ) is Some ==> r is Ok,
        storage.total() && storage.has_table(table_name@) && spec_fetch_rows(
            storage.table_rows(table_name@),
            cols_view(columns@),
            filter.where_clause,
        ) is None ==> {
            let rows = storage.table_rows(table_name@);
            let bad = first_check_fail(rows, cols_view(columns@), filter.where_clause);
            &&& r is Err
            &&& 0 <= bad < rows.len()
            &&& check_err_matches(
                spec_check_full(filter.where_clause, cols_view(columns@), rows[bad].1),
                r->Err_0,
            )
        },
{
    let scanned = match storage.scan_data(table_name) {
        Ok(v) => v,
        Err(e) => {
            return Err(e);
        },
    };
    let ghost model = storage.table_rows(table_name@);
    let ghost cv = cols_view(columns@);
    let mut rows = scanned;
    let mut out: Vec<(K, Row)> = Vec::new();
    proof {
        assert(model.skip(0) =~= model);
    }
    loop
        invariant_except_break
            storage.has_table(table_name@),
            model == storage.table_rows(table_name@),
            rows@.len() <= model.len(),
            forall|j: int|
                0 <= j < rows@.len() ==> (#[trigger] rows@[j]).0 == model[model.len() - rows@.len()
                    + j].0 && rows@[j].1@ == model[model.len() - rows@.len() + j].1,
            forall|j: int| 0 <= j < rows@.len() ==> row_wf((#[trigger] rows@[j]).1@),
            cv == cols_view(columns@),
            spec_fetch_rows(model, cv, filter.where_clause) is Some ==> spec_fetch_rows(
                model.skip(model.len() - rows@.len()),
                cv,
                filter.where_clause,
            ) is Some,
            first_check_fail(model, cv, filter.where_clause) == model.len() - rows@.len()
                + first_check_fail(model.skip(model.len() - rows@.len()), cv, filter.where_clause),
            match spec_fetch_rows(model.skip(model.len() - rows@.len()), cv, filter.where_clause) {
                None => true,
                Some(rest) => match spec_fetch_rows(model, cv, filter.where_clause) {
                    Some(whole) => out@.len() + rest.len() == whole.len() && (forall|j: int|
                        0 <= j < out@.len() ==> (#[trigger] out@[j]).0 == whole[j].0 && out@[j].1@
                            == whole[j].1) && (forall|j: int|
                        0 <= j < rest.len() ==> #[trigger] rest[j] == whole[out@.len() + j]),
                    None => false,
                },
            },
        ensures
            match spec_fetch_rows(model, cv, filter.where_clause) {
                Some(kept) => out@.len() == kept.len() && (forall|i: int|
                    0 <= i < kept.len() ==> (#[trigger] out@[i]).0 == kept[i].0 && out@[i].1@
                        == kept[i].1),
                None => false,
            },
        decreases rows@.len(),
    {
        if rows.len() == 0 {
            proof {
                assert(model.skip(model.len() as int) =~= Seq::<(K, Seq<ValueV>)>::empty());
            }
            break ;
        }
        let ghost depth = model.len() - rows@.len();
        let (key, row) = rows.remove(0);
        proof {
            assert(model.skip(depth)[0] == model[depth]);
            assert(model.skip(depth).skip(1) =~= model.skip(depth + 1));
        }
        let pass = match filter.check(columns, &row) {
            Ok(b) => b,
            Err(e) => {
                proof {
                    let wc = filter.where_clause;
                    let sd = model.skip(depth);
                    assert(sd[0] == model[depth]);
                    assert(spec_check(wc, cv, model[depth].1) is None);
                    assert(spec_fetch_rows(sd, cv, wc) is None);
                    assert(spec_fetch_rows(model, cv, wc) is None);
                    assert(first_check_fail(sd, cv, wc) == 0);
                    assert(first_check_fail(model, cv, wc) == depth);
                }
                return Err(e);
            },
        };
        proof {
            let wc = filter.where_clause;
            let sd = model.skip(depth);
            let sd1 = model.skip(depth + 1);
            assert(sd[0] == model[depth]);
            assert(sd.skip(1) =~= sd1);
            assert(spec_check(wc, cv, model[depth].1) == Some(pass));
            assert(first_check_fail(sd, cv, wc) == 1 + first_check_fail(sd1, cv, wc));
            if spec_fetch_rows(sd, cv, wc) is Some {
                let rest = spec_fetch_rows(sd, cv, wc)->0;
                assert(spec_fetch_rows(sd1, cv, wc) is Some);
                let rest1 = spec_fetch_rows(sd1, cv, wc)->0;
                let whole = spec_fetch_rows(model, cv, wc)->0;
                if pass {
                    assert(rest =~= seq![model[depth]] + rest1);
                    assert(rest[0] == model[depth]);
                    assert forall|j: int|
                        0 <= j < rest1.len() implies #[trigger] rest1[j] == whole[out@.len() + 1
                        + j] by {
                        assert(rest1[j] == rest[j + 1]);
                        assert(rest[j + 1] == whole[out@.len() + (j + 1)]);
                    }
                } else {
                    assert(rest == rest1);
                }
            }
        }
        if pass {
            out.push((key, row));
        }
    }
    Ok(out)
}

} // verus!
