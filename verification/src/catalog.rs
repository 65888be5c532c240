//! The schema catalog and the table scanner.
//!
//! The root page's cells are schema rows whose columns are, positionally,
//! (object type, name, table name, root page, sql). Only columns 2, 3 and 4
//! are consumed: the `CREATE TABLE` text of column 4 is parsed for the
//! column definitions, an object whose text does not parse as `CREATE
//! TABLE` is out of scope and skipped, and a parsed name that differs from
//! column 2 is a catalog inconsistency. Entries are keyed by table name;
//! a duplicate name replaces the earlier entry in place (last write wins).
//!
//! The scanner resolves a table name to its entry, and projects requested
//! columns in request order over a page's decoded rows, in cell order.

use crate::error::DbError;
use crate::parser::{parse_create, spec_parse_create, view_columns, ColumnDef, SpecColumnDef};
use crate::record::{view_records, view_values, Record, SpecRecord};
use crate::value::{ColType, SpecValue};
use vstd::prelude::*;
use vstd::string::StrSliceExecFns;
use vstd::string::StringExecFns;

verus! {

/// One catalog entry: a table's name, its 1-based root page number, and
/// its column definitions in declaration order.
#[derive(Debug)]
pub struct SchemaEntry {
    pub table_name: String,
    pub root_page: i64,
    pub columns: Vec<ColumnDef>,
}

/// The mathematical shape of a catalog entry.
pub struct SpecSchemaEntry {
    pub table_name: Seq<char>,
    pub root_page: i64,
    pub columns: Seq<SpecColumnDef>,
}

impl View for SchemaEntry {
    type V = SpecSchemaEntry;

    open spec fn view(&self) -> SpecSchemaEntry {
        SpecSchemaEntry {
            table_name: self.table_name@,
            root_page: self.root_page,
            columns: view_columns(self.columns@),
        }
    }
}

/// The entries of a vector, as mathematical values.
pub open spec fn view_entries(es: Seq<SchemaEntry>) -> Seq<SpecSchemaEntry> {
    es.map_values(|e: SchemaEntry| e@)
}

/// The catalog: entries in root-page cell order, names unique.
#[derive(Debug)]
pub struct SchemaCatalog {
    pub entries: Vec<SchemaEntry>,
}

impl View for SchemaCatalog {
    type V = Seq<SpecSchemaEntry>;

    open spec fn view(&self) -> Seq<SpecSchemaEntry> {
        view_entries(self.entries@)
    }
}

/// What one schema row contributes to the catalog: an error, nothing (an
/// out-of-scope object), or one entry.
pub open spec fn spec_row_entry(row: SpecRecord) -> Result<Option<SpecSchemaEntry>, DbError> {
    if row.values.len() < 5 {
        Err(DbError::MalformedRecord)
    } else {
        match (row.values[2], row.values[3], row.values[4]) {
            (SpecValue::Text(name), SpecValue::Integer(root), SpecValue::Text(sql)) => match
            spec_parse_create(sql) {
                None => Ok(None),
                Some(c) => {
                    if c.table != name {
                        Err(DbError::SchemaInconsistency)
                    } else {
                        Ok(
                            Some(
                                SpecSchemaEntry {
                                    table_name: name,
                                    root_page: root,
                                    columns: c.columns,
                                },
                            ),
                        )
                    }
                },
            },
            (SpecValue::Text(_), SpecValue::Integer(_), _) => Ok(None),
            _ => Err(DbError::MalformedRecord),
        }
    }
}

/// Insert an entry: replace the entry carrying the same name in place, or
/// append.
pub open spec fn spec_insert(entries: Seq<SpecSchemaEntry>, e: SpecSchemaEntry) -> Seq<
    SpecSchemaEntry,
>
    decreases entries.len(),
{
    if entries.len() == 0 {
        seq![e]
    } else if entries[0].table_name == e.table_name {
        seq![e] + entries.drop_first()
    } else {
        seq![entries[0]] + spec_insert(entries.drop_first(), e)
    }
}

/// The catalog built by folding the schema rows, in cell order, onto `acc`.
pub open spec fn spec_build_catalog(rows: Seq<SpecRecord>, acc: Seq<SpecSchemaEntry>) -> Result<
    Seq<SpecSchemaEntry>,
    DbError,
>
    decreases rows.len(),
{
    if rows.len() == 0 {
        Ok(acc)
    } else {
        match spec_row_entry(rows[0]) {
            Err(e) => Err(e),
            Ok(None) => spec_build_catalog(rows.drop_first(), acc),
            Ok(Some(en)) => spec_build_catalog(rows.drop_first(), spec_insert(acc, en)),
        }
    }
}

proof fn lemma_spec_insert_found(s: Seq<SpecSchemaEntry>, e: SpecSchemaEntry, i: int)
    requires
        0 <= i < s.len(),
        s[i].table_name == e.table_name,
        forall|j: int| 0 <= j < i ==> s[j].table_name != e.table_name,
    ensures
        spec_insert(s, e) =~= s.update(i, e),
    decreases i,
{
    if i > 0 {
        lemma_spec_insert_found(s.drop_first(), e, i - 1);
        assert(s.drop_first().update(i - 1, e) =~= s.update(i, e).drop_first());
    }
}

proof fn lemma_spec_insert_absent(s: Seq<SpecSchemaEntry>, e: SpecSchemaEntry)
    requires
        forall|j: int| 0 <= j < s.len() ==> s[j].table_name != e.table_name,
    ensures
        spec_insert(s, e) =~= s.push(e),
    decreases s.len(),
{
    if s.len() > 0 {
        lemma_spec_insert_absent(s.drop_first(), e);
    }
}

/// Index of the first entry carrying `name`, if any.
pub open spec fn spec_find_entry(entries: Seq<SpecSchemaEntry>, name: Seq<char>) -> Option<int>
    decreases entries.len(),
{
    if entries.len() == 0 {
        None
    } else if entries[0].table_name == name {
        Some(0)
    } else {
        match spec_find_entry(entries.drop_first(), name) {
            None => None,
            Some(i) => Some(i + 1),
        }
    }
}

pub proof fn lemma_spec_find_entry(entries: Seq<SpecSchemaEntry>, name: Seq<char>)
    ensures
        match spec_find_entry(entries, name) {
            Some(i) => 0 <= i < entries.len() && entries[i].table_name == name && (forall|j: int|
                0 <= j < i ==> entries[j].table_name != name),
            None => forall|j: int| 0 <= j < entries.len() ==> entries[j].table_name != name,
        },
    decreases entries.len(),
{
    if entries.len() > 0 && entries[0].table_name != name {
        let rest = entries.drop_first();
        lemma_spec_find_entry(rest, name);
        assert(forall|j: int| 1 <= j < entries.len() ==> entries[j] == rest[j - 1]);
    }
}

/// Index of the first column definition carrying `name`, if any.
pub open spec fn spec_find_col(cols: Seq<SpecColumnDef>, name: Seq<char>) -> Option<int>
    decreases cols.len(),
{
    if cols.len() == 0 {
        None
    } else if cols[0].name == name {
        Some(0)
    } else {
        match spec_find_col(cols.drop_first(), name) {
            None => None,
            Some(i) => Some(i + 1),
        }
    }
}

pub proof fn lemma_spec_find_col(cols: Seq<SpecColumnDef>, name: Seq<char>)
    ensures
        match spec_find_col(cols, name) {
            Some(i) => 0 <= i < cols.len() && cols[i].name == name && (forall|j: int|
                0 <= j < i ==> cols[j].name != name),
            None => forall|j: int| 0 <= j < cols.len() ==> cols[j].name != name,
        },
    decreases cols.len(),
{
    if cols.len() > 0 && cols[0].name != name {
        let rest = cols.drop_first();
        lemma_spec_find_col(rest, name);
        assert(forall|j: int| 1 <= j < cols.len() ==> cols[j] == rest[j - 1]);
    }
}

/// Space-joined table names of the entries, in entry order, with no
/// trailing separator.
pub open spec fn spec_join_names(entries: Seq<SpecSchemaEntry>) -> Seq<char>
    decreases entries.len(),
{
    if entries.len() == 0 {
        Seq::empty()
    } else if entries.len() == 1 {
        entries[0].table_name
    } else {
        spec_join_names(entries.drop_last()) + seq![' '] + entries.last().table_name
    }
}

impl SchemaCatalog {
    /// Build the catalog from the decoded schema rows of the root page.
    /// Each row needs at least five columns with a text name in column 2
    /// and an integer root page in column 3; a row whose sql column is not
    /// text or does not parse as `CREATE TABLE` is skipped, and a parsed
    /// table name that differs from column 2 fails the build.
    pub fn build(rows: &Vec<Record>) -> (r: Result<SchemaCatalog, DbError>)
        ensures
            match r {
                Ok(cat) => spec_build_catalog(view_records(rows@), Seq::empty()) == Ok::<
                    _,
                    DbError,
                >(cat@),
                Err(e) => spec_build_catalog(view_records(rows@), Seq::empty()) == Err::<
                    Seq<SpecSchemaEntry>,
                    _,
                >(e),
            },
    {
        let nrows = rows.len();
        let mut entries: Vec<SchemaEntry> = Vec::new();
        let mut i: usize = 0;
        proof {
            assert(view_records(rows@).skip(0) =~= view_records(rows@));
            assert(view_entries(entries@) =~= Seq::<SpecSchemaEntry>::empty());
        }
        while i < nrows
            invariant
                0 <= i <= nrows,
                nrows == rows@.len(),
                spec_build_catalog(view_records(rows@), Seq::empty())
                    == spec_build_catalog(view_records(rows@).skip(i as int), view_entries(entries@)),
            decreases nrows - i,
        {
            let row = &rows[i];
            proof {
                assert(view_records(rows@).skip(i as int)[0] == view_records(rows@)[i as int]);
                assert(view_records(rows@).skip(i as int).drop_first() =~= view_records(
                    rows@,
                ).skip(i + 1));
            }
            if row.values.len() < 5 {
                return Err(DbError::MalformedRecord);
            }
            let name = match &row.values[2] {
                ColType::Text(s) => s,
                _ => {
                    return Err(DbError::MalformedRecord);
                },
            };
            let root = match &row.values[3] {
                ColType::Integer(v) => *v,
                _ => {
                    return Err(DbError::MalformedRecord);
                },
            };
            let sql = match &row.values[4] {
                ColType::Text(s) => s,
                _ => {
                    i = i + 1;
                    continue;
                },
            };
            match parse_create(sql.as_str()) {
                Err(_) => {
                    // Not a `CREATE TABLE` object: out of scope, skipped.
                },
                Ok(c) => {
                    if !(c.table == *name) {
                        return Err(DbError::SchemaInconsistency);
                    }
                    let entry = SchemaEntry {
                        table_name: c.table,
                        root_page: root,
                        columns: c.columns,
                    };
                    insert_entry(&mut entries, entry);
                },
            }
            i = i + 1;
        }
        proof {
            assert(view_records(rows@).skip(nrows as int) =~= Seq::<SpecRecord>::empty());
        }
        Ok(SchemaCatalog { entries })
    }

    /// Resolve a table name to its catalog entry; `TableNotFound` exactly
    /// when no entry carries the name.
    pub fn lookup(&self, table: &String) -> (r: Result<&SchemaEntry, DbError>)
        ensures
            match spec_find_entry(self@, table@) {
                Some(i) => r matches Ok(e) && e@ == self@[i],
                None => r matches Err(e) && e == DbError::TableNotFound,
            },
    {
        proof {
            lemma_spec_find_entry(self@, table@);
        }
        let n = self.entries.len();
        let mut i: usize = 0;
        while i < n
            invariant
                0 <= i <= n,
                n == self.entries@.len(),
                forall|j: int| 0 <= j < i ==> view_entries(self.entries@)[j].table_name != table@,
            decreases n - i,
        {
            proof {
                assert(view_entries(self.entries@)[i as int] == self.entries@[i as int]@);
            }
            if self.entries[i].table_name == *table {
                proof {
                    lemma_spec_find_entry(self@, table@);
                }
                return Ok(&self.entries[i]);
            }
            i = i + 1;
        }
        Err(DbError::TableNotFound)
    }

    /// The `.tables` listing: every catalog table name, space-joined in
    /// entry order, with no separator after the last.
    pub fn tables_display(&self) -> (r: String)
        ensures
            r@ == spec_join_names(self@),
    {
        let n = self.entries.len();
        let mut out = String::new();
        let mut i: usize = 0;
        while i < n
            invariant
                0 <= i <= n,
                n == self.entries@.len(),
                out@ == spec_join_names(view_entries(self.entries@).take(i as int)),
            decreases n - i,
        {
            if i > 0 {
                let sp = " ";
                proof {
                    reveal_strlit(" ");
                    assert(sp@ =~= seq![' ']);
                }
                out.append(sp);
            }
            out.append(self.entries[i].table_name.as_str());
            proof {
                let es = view_entries(self.entries@);
                assert(es.take(i + 1).drop_last() =~= es.take(i as int));
                assert(es.take(i + 1).last() == es[i as int]);
                if i == 0 {
                    assert(out@ =~= es.take(1)[0].table_name);
                }
            }
            i = i + 1;
        }
        proof {
            assert(view_entries(self.entries@).take(n as int) =~= view_entries(self.entries@));
        }
        out
    }
}

/// Insert an entry into the vector, replacing in place the entry with the
/// same table name or appending.
fn insert_entry(entries: &mut Vec<SchemaEntry>, e: SchemaEntry)
    ensures
        view_entries(final(entries)@) == spec_insert(view_entries(old(entries)@), e@),
{
    let n = entries.len();
    let mut i: usize = 0;
    while i < n
        invariant
            0 <= i <= n,
            n == entries@.len(),
            entries@ == old(entries)@,
            forall|j: int| 0 <= j < i ==> view_entries(entries@)[j].table_name != e@.table_name,
        decreases n - i,
    {
        if entries[i].table_name == e.table_name {
            proof {
                lemma_spec_insert_found(view_entries(entries@), e@, i as int);
            }
            let ghost oldv = entries@;
            entries[i] = e;
            proof {
                assert(view_entries(entries@) =~= view_entries(oldv).update(i as int, e@));
            }
            return ;
        }
        i = i + 1;
    }
    proof {
        lemma_spec_insert_absent(view_entries(entries@), e@);
    }
    let ghost oldv = entries@;
    entries.push(e);
    proof {
        assert(view_entries(entries@) =~= view_entries(oldv).push(e@));
    }
}

/// The values of column `idx` across `rows`, in row order; a row without
/// that column contributes nothing.
pub open spec fn spec_project_col(rows: Seq<SpecRecord>, idx: int) -> Seq<SpecValue>
    decreases rows.len(),
{
    if rows.len() == 0 {
        Seq::empty()
    } else {
        let head = if 0 <= idx < rows[0].values.len() {
            seq![rows[0].values[idx]]
        } else {
            Seq::<SpecValue>::empty()
        };
        head + spec_project_col(rows.drop_first(), idx)
    }
}

/// Resolve a requested column name against the table's definitions;
/// `ColumnNotFound` exactly when absent (case-sensitive exact match).
pub fn find_column(columns: &Vec<ColumnDef>, name: &String) -> (r: Result<usize, DbError>)
    ensures
        match spec_find_col(view_columns(columns@), name@) {
            Some(i) => r matches Ok(k) && k == i,
            None => r matches Err(e) && e == DbError::ColumnNotFound,
        },
{
    proof {
        lemma_spec_find_col(view_columns(columns@), name@);
    }
    let n = columns.len();
    let mut i: usize = 0;
    while i < n
        invariant
            0 <= i <= n,
            n == columns@.len(),
            forall|j: int| 0 <= j < i ==> view_columns(columns@)[j].name != name@,
        decreases n - i,
    {
        proof {
            assert(view_columns(columns@)[i as int] == columns@[i as int]@);
        }
        if columns[i].name == *name {
            proof {
                lemma_spec_find_col(view_columns(columns@), name@);
            }
            return Ok(i);
        }
        i = i + 1;
    }
    Err(DbError::ColumnNotFound)
}

/// Project the requested columns over a page's decoded rows: for each
/// requested name in request order, the values of that column across all
/// rows in cell order. Fails with `ColumnNotFound` exactly when some
/// requested name is missing from the table's definitions.
pub fn project(entry: &SchemaEntry, rows: &Vec<Record>, cols: &Vec<String>) -> (r: Result<
    Vec<Vec<ColType>>,
    DbError,
>)
    ensures
        r is Ok <==> (forall|k: int|
            0 <= k < cols@.len() ==> spec_find_col(
                view_columns(entry.columns@),
                #[trigger] cols@[k]@,
            ) is Some),
        r matches Err(e) ==> e == DbError::ColumnNotFound,
        r matches Ok(out) ==> out@.len() == cols@.len() && (forall|k: int|
            0 <= k < cols@.len() ==> view_values(#[trigger] out@[k]@)
                == spec_project_col(
                view_records(rows@),
                spec_find_col(view_columns(entry.columns@), cols@[k]@).unwrap(),
            )),
{
    let ncols = cols.len();
    let mut out: Vec<Vec<ColType>> = Vec::new();
    let mut k: usize = 0;
    while k < ncols
        invariant
            0 <= k <= ncols,
            ncols == cols@.len(),
            out@.len() == k,
            forall|q: int|
                0 <= q < k ==> spec_find_col(
                    view_columns(entry.columns@),
                    #[trigger] cols@[q]@,
                ) is Some,
            forall|q: int|
                0 <= q < k ==> view_values(#[trigger] out@[q]@)
                    == spec_project_col(
                    view_records(rows@),
                    spec_find_col(view_columns(entry.columns@), cols@[q]@).unwrap(),
                ),
        decreases ncols - k,
    {
        let idx = match find_column(&entry.columns, &cols[k]) {
            Ok(idx) => idx,
            Err(_) => {
                return Err(DbError::ColumnNotFound);
            },
        };
        let nrows = rows.len();
        let mut colvals: Vec<ColType> = Vec::new();
        let mut i: usize = 0;
        proof {
            assert(view_records(rows@).skip(0) =~= view_records(rows@));
            assert(view_values(colvals@) + spec_project_col(
                view_records(rows@),
                idx as int,
            ) =~= spec_project_col(view_records(rows@), idx as int));
        }
        while i < nrows
            invariant
                0 <= i <= nrows,
                nrows == rows@.len(),
                spec_project_col(view_records(rows@), idx as int) == view_values(
                    colvals@,
                ) + spec_project_col(view_records(rows@).skip(i as int), idx as int),
            decreases nrows - i,
        {
            let row = &rows[i];
            let ghost oldvals = colvals@;
            proof {
                assert(view_records(rows@).skip(i as int)[0] == view_records(rows@)[i as int]);
                assert(view_records(rows@).skip(i as int).drop_first() =~= view_records(
                    rows@,
                ).skip(i + 1));
            }
            if idx < row.values.len() {
                colvals.push(row.values[idx].clone());
            }
            proof {
                let head = if idx < view_records(rows@)[i as int].values.len() {
                    seq![view_records(rows@)[i as int].values[idx as int]]
                } else {
                    Seq::<SpecValue>::empty()
                };
                assert(view_values(colvals@) =~= view_values(
                    oldvals,
                ) + head);
                assert(view_values(oldvals) + (head + spec_project_col(
                    view_records(rows@).skip(i + 1),
                    idx as int,
                )) =~= (view_values(oldvals) + head) + spec_project_col(
                    view_records(rows@).skip(i + 1),
                    idx as int,
                ));
            }
            i = i + 1;
        }
        proof {
            assert(view_records(rows@).skip(nrows as int) =~= Seq::<SpecRecord>::empty());
            assert(view_values(colvals@) + Seq::<SpecValue>::empty()
                =~= view_values(colvals@));
        }
        out.push(colvals);
        k = k + 1;
    }
    Ok(out)
}

} // verus!
