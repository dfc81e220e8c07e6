//! The storage contract every backend satisfies, and an in-memory
//! reference backend that satisfies it.

use vstd::prelude::*;

use crate::ast::{ColumnDef, Schema};
use crate::error::Error;
use crate::fetch::FetchError;
use crate::value::{value_wf, Value, ValueV};

verus! {

/// One row: an ordered sequence of values, positionally aligned with its
/// schema.
#[derive(Debug)]
pub struct Row(pub Vec<Value>);

impl View for Row {
    type V = Seq<ValueV>;

    open spec fn view(&self) -> Seq<ValueV> {
        Seq::new(self.0@.len(), |i: int| self.0@[i]@)
    }
}

/// A well-formed row holds well-formed values.
pub open spec fn row_wf(r: Seq<ValueV>) -> bool {
    forall|i: int| 0 <= i < r.len() ==> value_wf(#[trigger] r[i])
}

/// The mathematical shape of a schema: its name and its columns' names,
/// types and nullability.
pub open spec fn schema_view(s: Schema) -> (Seq<char>, Seq<(Seq<char>, crate::literal::DataType, bool)>) {
    (
        s.table_name@,
        Seq::new(
            s.column_defs@.len(),
            |i: int| (s.column_defs@[i].name@, s.column_defs@[i].data_type, s.column_defs@[i].nullable),
        ),
    )
}

/// Copies a row.
pub fn row_clone(r: &Row) -> (c: Row)
    ensures
        c@ == r@,
{
    let mut vals: Vec<Value> = Vec::new();
    let mut i: usize = 0;
    while i < r.0.len()
        invariant
            i <= r.0@.len(),
            vals@.len() == i,
            forall|j: int| 0 <= j < i ==> #[trigger] vals@[j]@ == r.0@[j]@,
        decreases r.0@.len() - i,
    {
        vals.push(crate::value::value_clone(&r.0[i]));
        i = i + 1;
    }
    let c = Row(vals);
    proof {
        assert(c@ =~= r@);
    }
    c
}

/// Copies a schema.
pub fn schema_clone(s: &Schema) -> (c: Schema)
    ensures
        schema_view(c) == schema_view(*s),
{
    let mut defs: Vec<ColumnDef> = Vec::new();
    let mut i: usize = 0;
    while i < s.column_defs.len()
        invariant
            i <= s.column_defs@.len(),
            defs@.len() == i,
            forall|j: int|
                0 <= j < i ==> (#[trigger] defs@[j]).name@ == s.column_defs@[j].name@
                    && defs@[j].data_type == s.column_defs@[j].data_type && defs@[j].nullable
                    == s.column_defs@[j].nullable,
        decreases s.column_defs@.len() - i,
    {
        let d = &s.column_defs[i];
        defs.push(ColumnDef { name: d.name.clone(), data_type: d.data_type, nullable: d.nullable });
        i = i + 1;
    }
    let c = Schema { table_name: s.table_name.clone(), column_defs: defs };
    proof {
        assert(schema_view(c).1 =~= schema_view(*s).1);
        assert(schema_view(c) == schema_view(*s));
    }
    c
}

/// The storage contract: schema lookup, point lookup, and a full scan
/// that distinguishes a missing table from an empty one.
pub trait Store<K> {
    /// Whether a table of this name exists.
    spec fn has_table(&self, name: Seq<char>) -> bool;

    /// The schema of an existing table.
    spec fn table_schema(&self, name: Seq<char>) -> (
        Seq<char>,
        Seq<(Seq<char>, crate::literal::DataType, bool)>,
    );

    /// The keyed rows of an existing table, in scan order.
    spec fn table_rows(&self, name: Seq<char>) -> Seq<(K, Seq<ValueV>)>;

    /// The schemas of all tables.
    spec fn schemas_model(&self) -> Seq<(Seq<char>, Seq<(Seq<char>, crate::literal::DataType, bool)>)>;

    /// Whether this backend never fails on its own account: with it, the
    /// contracts below owe success, not just correct content on success.
    spec fn total(&self) -> bool;

    /// Looks a schema up; absence is not an error, and a total backend
    /// always answers.
    fn fetch_schema(&self, table_name: &str) -> (r: Result<Option<Schema>, Error>)
        ensures
            match r {
                Ok(Some(s)) => self.has_table(table_name@) && schema_view(s) == self.table_schema(
                    table_name@,
                ),
                Ok(None) => !self.has_table(table_name@),
                Err(_) => true,
            },
            self.total() ==> r is Ok,
    ;

    /// Hands out every table's schema.
    fn fetch_all_schemas(&self) -> (r: Result<Vec<Schema>, Error>)
        ensures
            match r {
                Ok(v) => v@.len() == self.schemas_model().len() && (forall|i: int|
                    0 <= i < v@.len() ==> schema_view(#[trigger] v@[i])
                        == self.schemas_model()[i]),
                Err(_) => true,
            },
            self.total() ==> r is Ok,
    ;

    /// Point lookup; absence is not an error.  A total backend answers
    /// with the first row carrying the key, or `None` when no row (or no
    /// table) does.
    fn fetch_data(&self, table_name: &str, key: &K) -> (r: Result<Option<Row>, Error>)
        ensures
            match r {
                Ok(Some(row)) => exists|i: int|
                    0 <= i < self.table_rows(table_name@).len() && #[trigger] self.table_rows(
                        table_name@,
                    )[i].0 == *key && row@ == self.table_rows(table_name@)[i].1,
                Ok(None) => true,
                Err(_) => true,
            },
            self.total() && self.has_table(table_name@) ==> {
                let rows = self.table_rows(table_name@);
                if key_present(rows, *key) {
                    r matches Ok(Some(row)) && row@ == rows[first_key(rows, *key)].1
                } else {
                    r == Ok::<Option<Row>, Error>(None)
                }
            },
            self.total() && !self.has_table(table_name@) ==> r == Ok::<Option<Row>, Error>(None),
    ;

    /// Scans an existing table's rows in order; a missing table is an
    /// error, never an empty scan.
    fn scan_data(&self, table_name: &str) -> (r: Result<Vec<(K, Row)>, Error>)
        ensures
            !self.has_table(table_name@) ==> (r matches Err(
                Error::Fetch(FetchError::TableNotFound(n)),
            ) && n@ == table_name@),
            r is Ok ==> self.has_table(table_name@) && r->Ok_0@.len() == self.table_rows(
                table_name@,
            ).len() && (forall|i: int|
                0 <= i < r->Ok_0@.len() ==> (#[trigger] r->Ok_0@[i]).0 == self.table_rows(
                    table_name@,
                )[i].0 && r->Ok_0@[i].1@ == self.table_rows(table_name@)[i].1 && row_wf(
                    r->Ok_0@[i].1@,
                )),
            self.total() && self.has_table(table_name@) ==> r is Ok,
    ;
}

/// The position of the first row carrying the key, or the count.
pub open spec fn first_key<K>(rows: Seq<(K, Seq<ValueV>)>, key: K) -> int
    decreases rows.len(),
{
    if rows.len() == 0 {
        0
    } else if rows[0].0 == key {
        0
    } else {
        1 + first_key(rows.skip(1), key)
    }
}

/// Whether some row carries the key.
pub open spec fn key_present<K>(rows: Seq<(K, Seq<ValueV>)>, key: K) -> bool {
    first_key(rows, key) < rows.len()
}

/// The characterization of `first_key`: in range, a match, and nothing
/// earlier.
pub proof fn lemma_first_key<K>(rows: Seq<(K, Seq<ValueV>)>, key: K)
    ensures
        0 <= first_key(rows, key) <= rows.len(),
        first_key(rows, key) < rows.len() ==> rows[first_key(rows, key)].0 == key,
        forall|j: int| 0 <= j < first_key(rows, key) ==> (#[trigger] rows[j]).0 != key,
    decreases rows.len(),
{
    if rows.len() > 0 && rows[0].0 != key {
        lemma_first_key(rows.skip(1), key);
        assert(forall|j: int|
            1 <= j < first_key(rows, key) ==> #[trigger] rows[j] == rows.skip(1)[j - 1]
                && rows.skip(1)[j - 1].0 != key);
    }
}

/// One stored table.
#[derive(Debug)]
pub struct MemTable {
    pub schema: Schema,
    pub rows: Vec<(i128, Row)>,
}

/// The in-memory reference backend: every contract method is total and
/// exact.  It only ever holds well-formed values.
#[derive(Debug)]
pub struct MemoryStore {
    tables: Vec<MemTable>,
}

impl MemoryStore {
    /// Every stored row holds only well-formed values.
    #[verifier::type_invariant]
    spec fn store_inv(self) -> bool {
        forall|i: int, j: int|
            0 <= i < self.tables@.len() && 0 <= j < (#[trigger] self.tables@[i]).rows@.len()
                ==> row_wf((#[trigger] self.tables@[i].rows@[j]).1@)
    }
}

/// The position of the first table of the given name, or the count.
pub open spec fn first_table(tables: Seq<MemTable>, name: Seq<char>) -> int
    decreases tables.len(),
{
    if tables.len() == 0 {
        0
    } else if tables[0].schema.table_name@ == name {
        0
    } else {
        1 + first_table(tables.skip(1), name)
    }
}

/// The characterization of `first_table`: in range, a match, and nothing
/// earlier.
pub proof fn lemma_first_table(tables: Seq<MemTable>, name: Seq<char>)
    ensures
        0 <= first_table(tables, name) <= tables.len(),
        first_table(tables, name) < tables.len() ==> tables[first_table(
            tables,
            name,
        )].schema.table_name@ == name,
        forall|j: int|
            0 <= j < first_table(tables, name) ==> (#[trigger] tables[j]).schema.table_name@
                != name,
    decreases tables.len(),
{
    if tables.len() > 0 && tables[0].schema.table_name@ != name {
        lemma_first_table(tables.skip(1), name);
        assert(forall|j: int|
            1 <= j < first_table(tables, name) ==> #[trigger] tables[j] == tables.skip(1)[j - 1]
                && tables.skip(1)[j - 1].schema.table_name@ != name);
    }
}

/// How the first-match position changes when a table is appended.
proof fn lemma_first_table_push(tables: Seq<MemTable>, t: MemTable, name: Seq<char>)
    ensures
        first_table(tables.push(t), name) == if first_table(tables, name) < tables.len() {
            first_table(tables, name)
        } else if t.schema.table_name@ == name {
            tables.len() as int
        } else {
            tables.len() as int + 1
        },
    decreases tables.len(),
{
    lemma_first_table(tables, name);
    let p = tables.push(t);
    assert(p.len() == tables.len() + 1);
    if tables.len() == 0 {
        assert(p[0] == t);
        if t.schema.table_name@ != name {
            assert(p.skip(1) =~= Seq::<MemTable>::empty());
            assert(first_table(Seq::<MemTable>::empty(), name) == 0);
            assert(first_table(p.skip(1), name) == 0);
            assert(first_table(p, name) == 1);
        } else {
            assert(first_table(p, name) == 0);
        }
    } else {
        assert(p[0] == tables[0]);
        if tables[0].schema.table_name@ != name {
            assert(p.skip(1) =~= tables.skip(1).push(t));
            lemma_first_table_push(tables.skip(1), t, name);
            lemma_first_table(tables.skip(1), name);
            assert(first_table(p, name) == 1 + first_table(tables.skip(1).push(t), name));
            assert(first_table(tables, name) == 1 + first_table(tables.skip(1), name));
        } else {
            assert(first_table(p, name) == 0);
            assert(first_table(tables, name) == 0);
        }
    }
}

impl MemoryStore {
    /// The position of the first table of this name.
    spec fn table_at(&self, name: Seq<char>) -> int {
        first_table(self.tables@, name)
    }

    pub fn new() -> (r: MemoryStore)
        ensures
            forall|n: Seq<char>| !r.has_table(n),
            r.schemas_model() == Seq::<
                (Seq<char>, Seq<(Seq<char>, crate::literal::DataType, bool)>),
            >::empty(),
    {
        let r = MemoryStore { tables: Vec::new() };
        proof {
            assert(r.schemas_model() =~= Seq::<
                (Seq<char>, Seq<(Seq<char>, crate::literal::DataType, bool)>),
            >::empty());
        }
        r
    }

    /// Adds a table with its schema and rows, keyed by scan position.
    /// Existing tables keep their schemas and rows; under a fresh name
    /// the new table is found with exactly the given rows.
    pub fn add_table(&mut self, schema: Schema, rows: Vec<Row>)
        requires
            forall|i: int| 0 <= i < rows@.len() ==> row_wf((#[trigger] rows@[i])@),
        ensures
            final(self).has_table(schema.table_name@),
            !old(self).has_table(schema.table_name@) ==> {
                &&& final(self).table_schema(schema.table_name@) == schema_view(schema)
                &&& final(self).table_rows(schema.table_name@).len() == rows@.len()
                &&& forall|i: int|
                    0 <= i < rows@.len() ==> (#[trigger] final(self).table_rows(
                        schema.table_name@,
                    )[i]).0 == i && final(self).table_rows(schema.table_name@)[i].1 == rows@[i]@
            },
            forall|n: Seq<char>|
                old(self).has_table(n) ==> #[trigger] final(self).has_table(n) && final(self).table_schema(n) == old(self).table_schema(n) && final(self).table_rows(n) == old(self).table_rows(n),
            final(self).schemas_model() == old(self).schemas_model().push(schema_view(schema)),
    {
        let ghost oldtables = self.tables@;
        let mut keyed: Vec<(i128, Row)> = Vec::new();
        let mut i: usize = 0;
        while i < rows.len()
            invariant
                i <= rows@.len(),
                keyed@.len() == i,
                forall|j: int| 0 <= j < rows@.len() ==> row_wf((#[trigger] rows@[j])@),
                forall|j: int|
                    0 <= j < i ==> (#[trigger] keyed@[j]).0 == j && keyed@[j].1@ == rows@[j]@,
            decreases rows@.len() - i,
        {
            keyed.push((i as i128, row_clone(&rows[i])));
            i = i + 1;
        }
        proof {
            use_type_invariant(&*self);
        }
        let newt = MemTable { schema, rows: keyed };
        let mut tmp: Vec<MemTable> = Vec::new();
        core::mem::swap(&mut self.tables, &mut tmp);
        tmp.push(newt);
        core::mem::swap(&mut self.tables, &mut tmp);
        proof {
            let t = self.tables@.last();
            assert forall|n: Seq<char>| true implies {
                first_table(self.tables@, n) == if first_table(oldtables, n) < oldtables.len() {
                    first_table(oldtables, n)
                } else if t.schema.table_name@ == n {
                    oldtables.len() as int
                } else {
                    oldtables.len() as int + 1
                }
            } by {
                assert(self.tables@ =~= oldtables.push(t));
                lemma_first_table_push(oldtables, t, n);
            }
            assert forall|n: Seq<char>| old(self).has_table(n) implies #[trigger] final(self).has_table(n) && final(self).table_schema(n) == old(self).table_schema(n) && final(self).table_rows(n) == old(self).table_rows(n) by {
                lemma_first_table(oldtables, n);
                let w = first_table(oldtables, n);
                if w >= oldtables.len() {
                    let k = choose|k: int|
                        0 <= k < oldtables.len() && (#[trigger] oldtables[k]).schema.table_name@
                            == n;
                    assert(false);
                }
                assert(final(self).table_rows(n) =~= old(self).table_rows(n));
            }
            if !old(self).has_table(schema.table_name@) {
                lemma_first_table(oldtables, t.schema.table_name@);
                let w = first_table(oldtables, t.schema.table_name@);
                if w < oldtables.len() {
                    assert(old(self).has_table(t.schema.table_name@));
                }
                assert(final(self).table_rows(t.schema.table_name@) =~= Seq::new(
                    t.rows@.len(),
                    |i: int| (t.rows@[i].0, t.rows@[i].1@),
                ));
            }
            assert(final(self).schemas_model() =~= old(self).schemas_model().push(
                schema_view(schema),
            ));
        }
    }
}

impl Store<i128> for MemoryStore {
    closed spec fn has_table(&self, name: Seq<char>) -> bool {
        exists|i: int|
            0 <= i < self.tables@.len() && (#[trigger] self.tables@[i]).schema.table_name@ == name
    }

    closed spec fn table_schema(&self, name: Seq<char>) -> (
        Seq<char>,
        Seq<(Seq<char>, crate::literal::DataType, bool)>,
    ) {
        schema_view(self.tables@[self.table_at(name)].schema)
    }

    closed spec fn table_rows(&self, name: Seq<char>) -> Seq<(i128, Seq<ValueV>)> {
        let rows = self.tables@[self.table_at(name)].rows@;
        Seq::new(rows.len(), |i: int| (rows[i].0, rows[i].1@))
    }

    closed spec fn schemas_model(&self) -> Seq<
        (Seq<char>, Seq<(Seq<char>, crate::literal::DataType, bool)>),
    > {
        Seq::new(self.tables@.len(), |i: int| schema_view(self.tables@[i].schema))
    }

    open spec fn total(&self) -> bool {
        true
    }

    fn fetch_schema(&self, table_name: &str) -> (r: Result<Option<Schema>, Error>) {
        match self.find_table(table_name) {
            Some(i) => Ok(Some(schema_clone(&self.tables[i].schema))),
            None => Ok(None),
        }
    }

    fn fetch_all_schemas(&self) -> (r: Result<Vec<Schema>, Error>) {
        let mut out: Vec<Schema> = Vec::new();
        let mut i: usize = 0;
        while i < self.tables.len()
            invariant
                i <= self.tables@.len(),
                out@.len() == i,
                forall|j: int|
                    0 <= j < i ==> schema_view(#[trigger] out@[j]) == schema_view(
                        self.tables@[j].schema,
                    ),
            decreases self.tables@.len() - i,
        {
            out.push(schema_clone(&self.tables[i].schema));
            i = i + 1;
        }
        Ok(out)
    }

    fn fetch_data(&self, table_name: &str, key: &i128) -> (r: Result<Option<Row>, Error>) {
        let ti = match self.find_table(table_name) {
            Some(i) => i,
            None => {
                return Ok(None);
            },
        };
        let ghost m = self.table_rows(table_name@);
        let rows = &self.tables[ti].rows;
        let mut i: usize = 0;
        while i < rows.len()
            invariant
                i <= rows@.len(),
                0 <= ti < self.tables@.len(),
                rows == &self.tables@[ti as int].rows,
                self.tables@[ti as int].schema.table_name@ == table_name@,
                ti as int == self.table_at(table_name@),
                m == self.table_rows(table_name@),
                m.len() == rows@.len(),
                forall|j: int| 0 <= j < i ==> (#[trigger] m[j]).0 != *key,
            decreases rows@.len() - i,
        {
            if rows[i].0 == *key {
                let row = row_clone(&rows[i].1);
                proof {
                    lemma_first_key(m, *key);
                    assert(m[i as int].0 == *key && m[i as int].1 == row@);
                    let w = first_key(m, *key);
                    if w < i as int {
                        assert(m[w].0 == *key);
                        assert(false);
                    } else if (i as int) < w {
                        assert(m[i as int].0 != *key);
                        assert(false);
                    }
                }
                return Ok(Some(row));
            }
            proof {
                assert(m[i as int].0 == rows@[i as int].0);
            }
            i = i + 1;
        }
        proof {
            lemma_first_key(m, *key);
            if key_present(m, *key) {
                assert(m[first_key(m, *key)].0 == *key);
                assert(false);
            }
        }
        Ok(None)
    }

    fn scan_data(&self, table_name: &str) -> (r: Result<Vec<(i128, Row)>, Error>) {
        proof {
            use_type_invariant(self);
        }
        let ti = match self.find_table(table_name) {
            Some(i) => i,
            None => {
                return Err(Error::Fetch(FetchError::TableNotFound(table_name.to_owned())));
            },
        };
        let rows = &self.tables[ti].rows;
        let mut out: Vec<(i128, Row)> = Vec::new();
        let mut i: usize = 0;
        while i < rows.len()
            invariant
                i <= rows@.len(),
                0 <= ti < self.tables@.len(),
                rows == &self.tables@[ti as int].rows,
                self.tables@[ti as int].schema.table_name@ == table_name@,
                ti as int == self.table_at(table_name@),
                out@.len() == i,
                self.store_inv(),
                forall|j: int|
                    0 <= j < i ==> (#[trigger] out@[j]).0 == rows@[j].0 && out@[j].1@ == rows@[j].1@,
            decreases rows@.len() - i,
        {
            out.push((rows[i].0, row_clone(&rows[i].1)));
            i = i + 1;
        }
        Ok(out)
    }
}

impl MemoryStore {
    /// The position of the first table of this name, decided executably.
    fn find_table(&self, name: &str) -> (r: Option<usize>)
        ensures
            match r {
                Some(i) => 0 <= i < self.tables@.len() && self.tables@[
                    i as int
                ].schema.table_name@ == name@ && i as int == self.table_at(name@) && self.has_table(
                    name@,
                ),
                None => !self.has_table(name@),
            },
    {
        let mut i: usize = 0;
        while i < self.tables.len()
            invariant
                i <= self.tables@.len(),
                forall|j: int| 0 <= j < i ==> (#[trigger] self.tables@[j]).schema.table_name@ != name@,
            decreases self.tables@.len() - i,
        {
            if crate::literal::str_eq(self.tables[i].schema.table_name.as_str(), name) {
                proof {
                    lemma_first_table(self.tables@, name@);
                    let w = self.table_at(name@);
                    if w < i as int {
                        assert(self.tables@[w].schema.table_name@ == name@);
                        assert(false);
                    } else if (i as int) < w {
                        assert(self.tables@[i as int].schema.table_name@ != name@);
                        assert(false);
                    }
                }
                return Some(i);
            }
            i = i + 1;
        }
        None
    }
}

} // verus!
