//! The statements that create, read, update and delete records, and the expansion of
//! foreign keys into joins.
use vstd::prelude::*;

use crate::files::FileUpload;
use crate::metadata::TableMetadata;
use crate::params::{FileContents, Params};
use crate::schema::{
    column_index, plain_list, quoted, quoted_list, str_eq, string_seqs, write_comma,
    write_quoted, ColumnOption,
};
use crate::value::{nat_text, push_char, write_u64, SqlValue};

verus! {

/// What the engine does when an insert violates a constraint.
#[derive(Debug, Clone, Copy, PartialEq, Eq, Structural)]
pub enum ConflictResolutionStrategy {
    Undefined,
    Abort,
    Rollback,
    Fail,
    Ignore,
    Replace,
}

pub open spec fn conflict_clause(c: ConflictResolutionStrategy) -> Seq<char> {
    match c {
        ConflictResolutionStrategy::Undefined => seq![],
        ConflictResolutionStrategy::Abort => seq!['O', 'R', ' ', 'A', 'B', 'O', 'R', 'T'],
        ConflictResolutionStrategy::Rollback => seq![
            'O', 'R', ' ', 'R', 'O', 'L', 'L', 'B', 'A', 'C', 'K',
        ],
        ConflictResolutionStrategy::Fail => seq!['O', 'R', ' ', 'F', 'A', 'I', 'L'],
        ConflictResolutionStrategy::Ignore => seq!['O', 'R', ' ', 'I', 'G', 'N', 'O', 'R', 'E'],
        ConflictResolutionStrategy::Replace => seq![
            'O', 'R', ' ', 'R', 'E', 'P', 'L', 'A', 'C', 'E',
        ],
    }
}

/// The `OR ...` clause of a conflict policy; empty where none is set.
pub fn conflict_resolution_clause(config: ConflictResolutionStrategy) -> (r: &'static str)
    ensures
        r@ == conflict_clause(config),
{
    proof {
        reveal_strlit("");
        reveal_strlit("OR ABORT");
        reveal_strlit("OR ROLLBACK");
        reveal_strlit("OR FAIL");
        reveal_strlit("OR IGNORE");
        reveal_strlit("OR REPLACE");
    }
    let r = match config {
        ConflictResolutionStrategy::Undefined => "",
        ConflictResolutionStrategy::Abort => "OR ABORT",
        ConflictResolutionStrategy::Rollback => "OR ROLLBACK",
        ConflictResolutionStrategy::Fail => "OR FAIL",
        ConflictResolutionStrategy::Ignore => "OR IGNORE",
        ConflictResolutionStrategy::Replace => "OR REPLACE",
    };
    assert(r@ =~= conflict_clause(config));
    r
}

/// The column names quoted and separated by `, `.
pub fn build_col_names(column_names: &Vec<String>) -> (r: String)
    ensures
        r@ == quoted_list(string_seqs(column_names@), column_names@.len() as int),
{
    let ghost names = string_seqs(column_names@);
    let mut s = String::new();
    let mut i: usize = 0;
    while i < column_names.len()
        invariant
            i <= column_names@.len(),
            names == string_seqs(column_names@),
            s@ == quoted_list(names, i as int),
        decreases column_names@.len() - i,
    {
        if i > 0 {
            write_comma(&mut s);
        }
        write_quoted(&mut s, column_names[i].as_str());
        assert(names[i as int] == column_names@[i as int]@);
        assert(s@ =~= quoted_list(names, i as int + 1));
        i = i + 1;
    }
    s
}

pub open spec fn placeholder_of(c: Seq<char>) -> Seq<char> {
    seq![':'] + c
}

pub open spec fn placeholders_of(cols: Seq<Seq<char>>) -> Seq<Seq<char>> {
    cols.map_values(|c: Seq<char>| placeholder_of(c))
}

/// The `RETURNING` clause: `*` as it is, a column name quoted.
pub open spec fn returning_clause(returning: Option<Seq<char>>) -> Seq<char> {
    match returning {
        None => seq![],
        Some(r) => seq![' ', 'R', 'E', 'T', 'U', 'R', 'N', 'I', 'N', 'G', ' '] + if r == seq!['*'] {
            r
        } else {
            quoted(r)
        },
    }
}

/// `INSERT [<conflict clause>] INTO "<table>" ("<c>", ...) VALUES (:<c>, ...) [RETURNING ...]`,
/// or `... DEFAULT VALUES ...` where no column is given.
pub open spec fn insert_sql(
    table: Seq<char>,
    conflict: Seq<char>,
    cols: Seq<Seq<char>>,
    returning: Option<Seq<char>>,
) -> Seq<char> {
    seq!['I', 'N', 'S', 'E', 'R', 'T'] + (if conflict.len() == 0 {
        seq![]
    } else {
        seq![' '] + conflict
    }) + seq![' ', 'I', 'N', 'T', 'O', ' '] + quoted(table) + (if cols.len() == 0 {
        seq![' ', 'D', 'E', 'F', 'A', 'U', 'L', 'T', ' ', 'V', 'A', 'L', 'U', 'E', 'S']
    } else {
        seq![' ', '('] + quoted_list(cols, cols.len() as int) + seq![
            ')',
            ' ',
            'V',
            'A',
            'L',
            'U',
            'E',
            'S',
            ' ',
            '(',
        ] + plain_list(placeholders_of(cols), cols.len() as int) + seq![')']
    }) + returning_clause(returning)
}

fn write_returning(out: &mut String, returning: Option<&str>)
    ensures
        final(out)@ == old(out)@ + returning_clause(
            match returning {
                Some(r) => Some(r@),
                None => None,
            },
        ),
{
    proof {
        reveal_strlit(" RETURNING ");
        reveal_strlit("*");
        assert(" RETURNING "@ =~= seq![' ', 'R', 'E', 'T', 'U', 'R', 'N', 'I', 'N', 'G', ' ']);
        assert("*"@ =~= seq!['*']);
    }
    match returning {
        None => {
            assert(out@ =~= old(out)@ + Seq::<char>::empty());
        },
        Some(r) => {
            out.append(" RETURNING ");
            if str_eq(r, "*") {
                out.append(r);
            } else {
                write_quoted(out, r);
            }
            assert(out@ =~= old(out)@ + returning_clause(Some(r@)));
        },
    }
}

/// The placeholders of the columns, separated by `, `.
fn build_placeholders(column_names: &Vec<String>) -> (r: String)
    ensures
        r@ == plain_list(placeholders_of(string_seqs(column_names@)), column_names@.len() as int),
{
    let ghost xs = placeholders_of(string_seqs(column_names@));
    let mut s = String::new();
    let mut i: usize = 0;
    while i < column_names.len()
        invariant
            i <= column_names@.len(),
            xs == placeholders_of(string_seqs(column_names@)),
            s@ == plain_list(xs, i as int),
        decreases column_names@.len() - i,
    {
        if i > 0 {
            write_comma(&mut s);
        }
        push_char(&mut s, ':');
        s.append(column_names[i].as_str());
        assert(xs[i as int] == placeholder_of(column_names@[i as int]@));
        assert(s@ =~= plain_list(xs, i as int + 1));
        i = i + 1;
    }
    s
}

/// The parts of an insert statement.
pub struct CreateRecordQueryTemplate {
    pub table_name: String,
    pub conflict_clause: String,
    pub column_names: Vec<String>,
    pub returning: Option<String>,
}

impl CreateRecordQueryTemplate {
    /// The insert statement's text.
    pub fn render(&self) -> (r: String)
        ensures
            r@ == insert_sql(
                self.table_name@,
                self.conflict_clause@,
                string_seqs(self.column_names@),
                match self.returning {
                    Some(s) => Some(s@),
                    None => None,
                },
            ),
    {
        proof {
            reveal_strlit("INSERT");
            reveal_strlit(" INTO ");
            reveal_strlit(" DEFAULT VALUES");
            reveal_strlit(" (");
            reveal_strlit(") VALUES (");
            reveal_strlit(")");
        }
        let ghost cols = string_seqs(self.column_names@);
        let mut s = String::new();
        s.append("INSERT");
        if self.conflict_clause.as_str().unicode_len() > 0 {
            push_char(&mut s, ' ');
            s.append(self.conflict_clause.as_str());
        }
        s.append(" INTO ");
        write_quoted(&mut s, self.table_name.as_str());
        let ghost head = s@;
        if self.column_names.len() == 0 {
            s.append(" DEFAULT VALUES");
        } else {
            s.append(" (");
            let names = build_col_names(&self.column_names);
            s.append(names.as_str());
            s.append(") VALUES (");
            let phs = build_placeholders(&self.column_names);
            s.append(phs.as_str());
            s.append(")");
        }
        let ghost body = s@;
        let returning = match &self.returning {
            Some(r) => Some(r.as_str()),
            None => None,
        };
        write_returning(&mut s, returning);
        proof {
            assert(cols.len() == self.column_names@.len());
            assert(s@ =~= insert_sql(
                self.table_name@,
                self.conflict_clause@,
                cols,
                match self.returning {
                    Some(x) => Some(x@),
                    None => None,
                },
            ));
        }
        s
    }
}

/// Insert statement text, named values and the files to store first.
pub struct InsertQuery {
    pub sql: String,
    pub named_params: Vec<(String, SqlValue)>,
    pub files: FileContents,
}

pub open spec fn opt_str(o: Option<&str>) -> Option<Seq<char>> {
    match o {
        Some(s) => Some(s@),
        None => None,
    }
}

pub struct InsertQueryBuilder;

impl InsertQueryBuilder {
    /// The insert statement for `params`, with the given conflict policy and `RETURNING`
    /// column (`*` for all).
    pub fn build_insert_query(
        params: Params,
        conflict_resolution: Option<ConflictResolutionStrategy>,
        return_column_name: Option<&str>,
    ) -> (r: InsertQuery)
        requires
            params.wf(),
        ensures
            r.sql@ == insert_sql(
                params@.table_name,
                conflict_clause(
                    match conflict_resolution {
                        Some(c) => c,
                        None => ConflictResolutionStrategy::Undefined,
                    },
                ),
                params@.columns,
                opt_str(return_column_name),
            ),
            crate::params::names_of(r.named_params@) == params@.placeholders,
            crate::params::values_of(r.named_params@) == params@.values,
            crate::params::files_of(r.files@) == params@.files,
    {
        let conflict = match conflict_resolution {
            Some(c) => c,
            None => ConflictResolutionStrategy::Undefined,
        };
        let clause = conflict_resolution_clause(conflict);
        let template = CreateRecordQueryTemplate {
            table_name: params.table_name().clone(),
            conflict_clause: clause.to_owned(),
            column_names: params.column_names().clone(),
            returning: match return_column_name {
                Some(r) => Some(r.to_owned()),
                None => None,
            },
        };
        proof {
            assert(string_seqs(template.column_names@) =~= params@.columns);
        }
        let sql = template.render();
        let (named_params, files) = params.into_parts();
        InsertQuery { sql, named_params, files }
    }
}

/// The files of the first `k` parameter sets, in order.
pub open spec fn all_files(ps: Seq<Params>, k: int) -> Seq<(FileUpload, Seq<u8>)>
    decreases k,
{
    if k <= 0 {
        seq![]
    } else {
        all_files(ps, k - 1) + ps[k - 1]@.files
    }
}

/// The inserts of several rows, to run in one transaction, and all their files, to store
/// before it.
pub struct BulkInsertQuery {
    pub queries: Vec<InsertQuery>,
    pub files: FileContents,
}

impl InsertQueryBuilder {
    /// One insert per parameter set, in order, with the files of every row gathered, in
    /// order, for storing before the transaction runs.
    pub fn build_bulk_insert(
        params_list: Vec<Params>,
        conflict_resolution: Option<ConflictResolutionStrategy>,
        return_column_name: Option<&str>,
    ) -> (r: BulkInsertQuery)
        requires
            forall|i: int| 0 <= i < params_list@.len() ==> (#[trigger] params_list@[i]).wf(),
        ensures
            r.queries@.len() == params_list@.len(),
            forall|k: int|
                0 <= k < r.queries@.len() ==> {
                    let q = #[trigger] r.queries@[k];
                    let p = params_list@[k]@;
                    &&& q.sql@ == insert_sql(
                        p.table_name,
                        conflict_clause(
                            match conflict_resolution {
                                Some(c) => c,
                                None => ConflictResolutionStrategy::Undefined,
                            },
                        ),
                        p.columns,
                        opt_str(return_column_name),
                    )
                    &&& crate::params::names_of(q.named_params@) == p.placeholders
                    &&& crate::params::values_of(q.named_params@) == p.values
                    &&& q.files@.len() == 0
                },
            crate::params::files_of(r.files@) == all_files(params_list@, params_list@.len() as int),
    {
        let ghost all = params_list@;
        let mut queries: Vec<InsertQuery> = Vec::new();
        let mut files: FileContents = Vec::new();
        let mut rest = params_list;
        proof {
            assert(crate::params::files_of(files@) =~= all_files(all, 0));
        }
        while rest.len() > 0
            invariant
                rest@.len() <= all.len(),
                rest@ == all.subrange(all.len() - rest@.len(), all.len() as int),
                forall|i: int| 0 <= i < all.len() ==> (#[trigger] all[i]).wf(),
                queries@.len() == all.len() - rest@.len(),
                forall|k: int|
                    0 <= k < queries@.len() ==> {
                        let q = #[trigger] queries@[k];
                        let p = all[k]@;
                        &&& q.sql@ == insert_sql(
                            p.table_name,
                            conflict_clause(
                                match conflict_resolution {
                                    Some(c) => c,
                                    None => ConflictResolutionStrategy::Undefined,
                                },
                            ),
                            p.columns,
                            opt_str(return_column_name),
                        )
                        &&& crate::params::names_of(q.named_params@) == p.placeholders
                        &&& crate::params::values_of(q.named_params@) == p.values
                        &&& q.files@.len() == 0
                    },
                crate::params::files_of(files@) == all_files(all, all.len() - rest@.len()),
            decreases rest@.len(),
        {
            let ghost k = all.len() - rest@.len();
            let params = rest.remove(0);
            assert(all[k] == params);
            assert(rest@ =~= all.subrange(all.len() - rest@.len(), all.len() as int));
            let q = Self::build_insert_query(params, conflict_resolution, return_column_name);
            let InsertQuery { sql, named_params, files: mut row_files } = q;
            let ghost before = files@;
            let ghost added = row_files@;
            files.append(&mut row_files);
            proof {
                assert(files@ =~= before + added);
                assert(crate::params::files_of(files@) =~= crate::params::files_of(before)
                    + crate::params::files_of(added));
            }
            queries.push(InsertQuery { sql, named_params, files: Vec::new() });
        }
        BulkInsertQuery { queries, files }
    }
}

pub open spec fn setter(c: Seq<char>) -> Seq<char> {
    quoted(c) + seq![' ', '=', ' '] + placeholder_of(c)
}

pub open spec fn setters_of(cols: Seq<Seq<char>>) -> Seq<Seq<char>> {
    cols.map_values(|c: Seq<char>| setter(c))
}

/// `UPDATE "<table>" SET "<c>" = :<c>, ... WHERE "<pk>" = :<pk> RETURNING _rowid_`.
pub open spec fn update_sql(table: Seq<char>, cols: Seq<Seq<char>>, pk: Seq<char>) -> Seq<char> {
    seq!['U', 'P', 'D', 'A', 'T', 'E', ' '] + quoted(table) + seq![' ', 'S', 'E', 'T', ' ']
        + plain_list(setters_of(cols), cols.len() as int) + seq![
        ' ',
        'W',
        'H',
        'E',
        'R',
        'E',
        ' ',
    ] + setter(pk) + seq![
        ' ',
        'R',
        'E',
        'T',
        'U',
        'R',
        'N',
        'I',
        'N',
        'G',
        ' ',
        '_',
        'r',
        'o',
        'w',
        'i',
        'd',
        '_',
    ]
}

fn write_setter(out: &mut String, c: &str)
    ensures
        final(out)@ == old(out)@ + setter(c@),
{
    proof {
        reveal_strlit(" = :");
    }
    write_quoted(out, c);
    out.append(" = :");
    out.append(c);
    assert(out@ =~= old(out)@ + setter(c@));
}

/// Update statement text, named values and the files to store first.
pub struct UpdateQuery {
    pub sql: String,
    pub named_params: Vec<(String, SqlValue)>,
    pub files: FileContents,
}

pub struct UpdateQueryBuilder;

impl UpdateQueryBuilder {
    /// The update of the record whose `pk_column` is `pk_value`, setting the columns of
    /// `params`; `None` where `params` sets no column, as there is nothing to do.
    pub fn build(params: Params, pk_column: &str, pk_value: SqlValue) -> (r: Option<UpdateQuery>)
        requires
            params.wf(),
        ensures
            params@.columns.len() == 0 <==> r is None,
            r matches Some(q) ==> q.sql@ == update_sql(
                params@.table_name,
                params@.columns.push(pk_column@),
                pk_column@,
            ) && crate::params::values_of(q.named_params@) == params@.values.push(pk_value@)
                && crate::params::names_of(q.named_params@) == params@.placeholders.push(
                crate::params::placeholder(pk_column@),
            ) && crate::params::files_of(q.files@) == params@.files,
    {
        proof {
            params.lemma_wf();
        }
        if params.column_names().len() == 0 {
            return None;
        }
        let mut params = params;
        params.push_param(pk_column.to_owned(), pk_value);
        proof {
            reveal_strlit("UPDATE ");
            reveal_strlit(" SET ");
            reveal_strlit(" WHERE ");
            reveal_strlit(" RETURNING _rowid_");
        }
        let names = params.column_names();
        let ghost cols = string_seqs(names@);
        let ghost xs = setters_of(cols);
        let mut s = String::new();
        s.append("UPDATE ");
        write_quoted(&mut s, params.table_name().as_str());
        s.append(" SET ");
        let ghost head = s@;
        let mut i: usize = 0;
        while i < names.len()
            invariant
                i <= names@.len(),
                cols == string_seqs(names@),
                cols == params@.columns,
                xs == setters_of(cols),
                s@ == head + plain_list(xs, i as int),
            decreases names@.len() - i,
        {
            let ghost before = s@;
            if i > 0 {
                write_comma(&mut s);
            }
            write_setter(&mut s, names[i].as_str());
            assert(xs[i as int] == setter(names@[i as int]@));
            assert(s@ =~= head + plain_list(xs, i as int + 1));
            i = i + 1;
        }
        s.append(" WHERE ");
        write_setter(&mut s, pk_column);
        s.append(" RETURNING _rowid_");
        proof {
            assert(s@ =~= update_sql(params@.table_name, cols, pk_column@));
        }
        let (named_params, files) = params.into_parts();
        Some(UpdateQuery { sql: s, named_params, files })
    }
}

/// Why a record request was refused.
#[derive(Debug, Clone, Copy, PartialEq, Eq, Structural)]
pub enum RecordError {
    /// The request names no table, or a column that cannot be expanded.
    ApiRequiresTable,
}

/// Why a query could not run.
#[derive(Debug, Clone, Copy, PartialEq, Eq, Structural)]
pub enum QueryError {
    /// The column is no single-file column.
    NotAFile,
    /// The column is no file-list column.
    NotAFilesList,
}

/// The position of the first table named `name`.
pub open spec fn table_index(tables: Seq<TableMetadata>, name: Seq<char>) -> Option<int> {
    if exists|i: int| 0 <= i < tables.len() && (#[trigger] tables[i]).schema.name.name@ == name {
        Some(choose|i: int| 0 <= i < tables.len() && (#[trigger] tables[i]).schema.name.name@ == name && forall|j: int|
            0 <= j < i ==> (#[trigger] tables[j]).schema.name.name@ != name)
    } else {
        None
    }
}

/// Finds the table named `name`.
pub fn find_table(tables: &Vec<TableMetadata>, name: &str) -> (r: Option<usize>)
    ensures
        r matches Some(i) ==> table_index(tables@, name@) == Some(i as int) && i < tables@.len(),
        r is None ==> table_index(tables@, name@) is None,
{
    let mut i: usize = 0;
    while i < tables.len()
        invariant
            i <= tables@.len(),
            forall|j: int| 0 <= j < i ==> (#[trigger] tables@[j]).schema.name.name@ != name@,
        decreases tables@.len() - i,
    {
        if str_eq(tables[i].schema.name.name.as_str(), name) {
            let ghost k = i as int;
            let ghost c = choose|q: int| 0 <= q < tables@.len() && (#[trigger] tables@[q]).schema.name.name@ == name@ && forall|j: int|
                0 <= j < q ==> (#[trigger] tables@[j]).schema.name.name@ != name@;
            assert(0 <= k < tables@.len() && tables@[k].schema.name.name@ == name@);
            assert(c == k) by {
                if c < k {
                } else if c > k {
                }
            }
            return Some(i);
        }
        i = i + 1;
    }
    None
}

/// The position of a column's first foreign-key constraint.
pub open spec fn first_foreign_key(opts: Seq<ColumnOption>) -> Option<int> {
    if exists|i: int| 0 <= i < opts.len() && (#[trigger] opts[i]) is ForeignKey {
        Some(choose|i: int| 0 <= i < opts.len() && (#[trigger] opts[i]) is ForeignKey && forall|j: int|
            0 <= j < i ==> !((#[trigger] opts[j]) is ForeignKey))
    } else {
        None
    }
}

fn find_foreign_key(opts: &Vec<ColumnOption>) -> (r: Option<usize>)
    ensures
        r matches Some(i) ==> first_foreign_key(opts@) == Some(i as int) && i < opts@.len()
            && opts@[i as int] is ForeignKey,
        r is None ==> first_foreign_key(opts@) is None,
{
    let mut i: usize = 0;
    while i < opts.len()
        invariant
            i <= opts@.len(),
            forall|j: int| 0 <= j < i ==> !((#[trigger] opts@[j]) is ForeignKey),
        decreases opts@.len() - i,
    {
        if let ColumnOption::ForeignKey { .. } = &opts[i] {
            let ghost k = i as int;
            let ghost c = choose|q: int| 0 <= q < opts@.len() && (#[trigger] opts@[q]) is ForeignKey && forall|j: int|
                0 <= j < q ==> !((#[trigger] opts@[j]) is ForeignKey);
            assert(0 <= k < opts@.len() && opts@[k] is ForeignKey);
            assert(c == k) by {
                if c < k {
                } else if c > k {
                }
            }
            return Some(i);
        }
        i = i + 1;
    }
    None
}

/// One foreign-key hop of a read.
#[derive(Debug, Clone)]
pub struct ExpandedTable {
    /// The position of the foreign table in the table list.
    pub table_index: usize,
    pub local_column_name: String,
    pub num_columns: usize,
    pub foreign_table_name: String,
    pub foreign_column_name: String,
}

/// What an expansion holds.
pub struct ExpandedView {
    pub table_index: int,
    pub local_column_name: Seq<char>,
    pub num_columns: int,
    pub foreign_table_name: Seq<char>,
    pub foreign_column_name: Seq<char>,
}

impl ExpandedTable {
    pub open spec fn view(&self) -> ExpandedView {
        ExpandedView {
            table_index: self.table_index as int,
            local_column_name: self.local_column_name@,
            num_columns: self.num_columns as int,
            foreign_table_name: self.foreign_table_name@,
            foreign_column_name: self.foreign_column_name@,
        }
    }
}

pub open spec fn expanded_views(v: Seq<ExpandedTable>) -> Seq<ExpandedView> {
    v.map_values(|e: ExpandedTable| e.view())
}

/// The expansion of column `name` of `root`: through its first foreign key to the
/// referenced table's record key. `None` where the column is missing, has no foreign key,
/// or the referenced table is missing or has no record key.
#[verifier::opaque]
pub open spec fn expand_one(tables: Seq<TableMetadata>, root: TableMetadata, name: Seq<char>) -> Option<
    ExpandedView,
> {
    match column_index(root.schema.columns@, name) {
        None => None,
        Some(c) => match first_foreign_key(root.schema.columns@[c].options@) {
            None => None,
            Some(o) => {
                let ft = root.schema.columns@[c].options@[o]->ForeignKey_foreign_table@;
                match table_index(tables, ft) {
                    None => None,
                    Some(ti) => match tables[ti].record_pk_column {
                        None => None,
                        Some(pk) => Some(
                            ExpandedView {
                                table_index: ti,
                                local_column_name: name,
                                num_columns: tables[ti].schema.columns@.len() as int,
                                foreign_table_name: ft,
                                foreign_column_name: tables[ti].schema.columns@[pk as int].name@,
                            },
                        ),
                    },
                }
            },
        },
    }
}

/// The expansions of the first `k` requested columns; empty names are skipped.
pub open spec fn expand_all(
    tables: Seq<TableMetadata>,
    root: TableMetadata,
    names: Seq<Seq<char>>,
    k: int,
) -> Option<Seq<ExpandedView>>
    decreases k,
{
    if k <= 0 {
        Some(seq![])
    } else {
        match expand_all(tables, root, names, k - 1) {
            None => None,
            Some(es) => if names[k - 1].len() == 0 {
                Some(es)
            } else {
                match expand_one(tables, root, names[k - 1]) {
                    None => None,
                    Some(e) => Some(es.push(e)),
                }
            },
        }
    }
}

#[verifier::opaque]
pub open spec fn tables_wf(tables: Seq<TableMetadata>) -> bool {
    forall|i: int| 0 <= i < tables.len() ==> (#[trigger] tables[i]).wf()
}

fn expand_column(tables: &Vec<TableMetadata>, root: &TableMetadata, name: &str) -> (r: Option<
    ExpandedTable,
>)
    requires
        tables_wf(tables@),
    ensures
        r matches Some(e) ==> expand_one(tables@, *root, name@) == Some(e.view())
            && e.local_column_name@ == name@,
        r is None ==> expand_one(tables@, *root, name@) is None,
{
    proof {
        reveal(expand_one);
    }
    let c = root.column_by_name(name)?;
    let opts = &root.schema.columns[c].options;
    let o = find_foreign_key(opts)?;
    let foreign_table_name = match &opts[o] {
        ColumnOption::ForeignKey { foreign_table, .. } => foreign_table,
        _ => {
            return None;
        },
    };
    let ti = find_table(tables, foreign_table_name.as_str())?;
    let foreign = &tables[ti];
    let pk = foreign.record_pk_column?;
    proof {
        reveal(tables_wf);
        assert(tables@[ti as int].wf());
        tables@[ti as int].lemma_wf_key();
    }
    Some(
        ExpandedTable {
            table_index: ti,
            local_column_name: name.to_owned(),
            num_columns: foreign.schema.columns.len(),
            foreign_table_name: foreign_table_name.clone(),
            foreign_column_name: foreign.schema.columns[pk].name.clone(),
        },
    )
}

proof fn lemma_expand_all_none_sticks(
    tables: Seq<TableMetadata>,
    root: TableMetadata,
    names: Seq<Seq<char>>,
    k: int,
)
    requires
        0 <= k <= names.len(),
        expand_all(tables, root, names, k) is None,
    ensures
        expand_all(tables, root, names, names.len() as int) is None,
    decreases names.len() - k,
{
    if k < names.len() {
        lemma_expand_all_none_sticks(tables, root, names, k + 1);
    }
}

/// The foreign-key hops that reading `table_name` with `expand` takes, in request order.
/// A missing table, or any requested column that cannot be expanded, is refused.
pub fn expand_tables(tables: &Vec<TableMetadata>, table_name: &str, expand: &Vec<String>) -> (r:
    Result<Vec<ExpandedTable>, RecordError>)
    requires
        tables_wf(tables@),
    ensures
        match table_index(tables@, table_name@) {
            None => r == Err::<Vec<ExpandedTable>, RecordError>(RecordError::ApiRequiresTable),
            Some(ri) => match expand_all(
                tables@,
                tables@[ri],
                string_seqs(expand@),
                expand@.len() as int,
            ) {
                None => r == Err::<Vec<ExpandedTable>, RecordError>(RecordError::ApiRequiresTable),
                Some(es) => r is Ok && expanded_views(r->Ok_0@) == es,
            },
        },
{
    let ri = match find_table(tables, table_name) {
        None => {
            return Err(RecordError::ApiRequiresTable);
        },
        Some(ri) => ri,
    };
    let root = &tables[ri];
    let ghost names = string_seqs(expand@);
    let mut out: Vec<ExpandedTable> = Vec::new();
    let mut i: usize = 0;
    while i < expand.len()
        invariant
            tables_wf(tables@),
            ri < tables@.len(),
            table_index(tables@, table_name@) == Some(ri as int),
            *root == tables@[ri as int],
            names == string_seqs(expand@),
            i <= expand@.len(),
            expand_all(tables@, *root, names, i as int) == Some(expanded_views(out@)),
        decreases expand@.len() - i,
    {
        let name = expand[i].as_str();
        assert(names[i as int] == name@);
        if name.unicode_len() == 0 {
            i = i + 1;
            continue;
        }
        match expand_column(tables, root, name) {
            None => {
                proof {
                    lemma_expand_all_none_sticks(tables@, *root, names, i as int + 1);
                }
                return Err(RecordError::ApiRequiresTable);
            },
            Some(e) => {
                let ghost before = out@;
                let ghost ev = e.view();
                out.push(e);
                assert(expanded_views(out@) =~= expanded_views(before).push(ev));
            },
        }
        i = i + 1;
    }
    Ok(out)
}

/// An expansion request naming a column that does not exist, or that has no foreign
/// key, is refused: the expansion of the whole request fails.
pub proof fn lemma_expand_rejects_bad_column(
    tables: Seq<TableMetadata>,
    root: TableMetadata,
    names: Seq<Seq<char>>,
    i: int,
)
    requires
        0 <= i < names.len(),
        names[i].len() > 0,
        column_index(root.schema.columns@, names[i]) is None || first_foreign_key(
            root.schema.columns@[column_index(root.schema.columns@, names[i])->Some_0].options@,
        ) is None,
    ensures
        expand_all(tables, root, names, names.len() as int) is None,
{
    reveal(expand_one);
    assert(expand_one(tables, root, names[i]) is None);
    assert(expand_all(tables, root, names, i + 1) is None);
    lemma_expand_all_none_sticks(tables, root, names, i + 1);
}

/// The positions of the non-empty names among the first `k`.
pub open spec fn nonempty_positions(names: Seq<Seq<char>>, k: int) -> Seq<int>
    decreases k,
{
    if k <= 0 {
        seq![]
    } else if names[k - 1].len() == 0 {
        nonempty_positions(names, k - 1)
    } else {
        nonempty_positions(names, k - 1).push(k - 1)
    }
}

/// The local column as a join refers to it: qualified by `prefix` where one is given.
pub open spec fn column_ref(prefix: Option<Seq<char>>, col: Seq<char>) -> Seq<char> {
    match prefix {
        Some(p) => p + seq!['.'] + col,
        None => col,
    }
}

/// `LEFT JOIN "<table>" AS F<idx> ON <col> = F<idx>.<foreign column>`.
pub open spec fn join_sql(e: ExpandedView, idx: int, col: Seq<char>) -> Seq<char> {
    seq!['L', 'E', 'F', 'T', ' ', 'J', 'O', 'I', 'N', ' '] + quoted(e.foreign_table_name) + seq![
        ' ',
        'A',
        'S',
        ' ',
        'F',
    ] + nat_text(idx as nat) + seq![' ', 'O', 'N', ' '] + col + seq![' ', '=', ' ', 'F'] + nat_text(
        idx as nat,
    ) + seq!['.'] + e.foreign_column_name
}

/// `F<idx>.*`
pub open spec fn select_all_of(idx: int) -> Seq<char> {
    seq!['F'] + nat_text(idx as nat) + seq!['.', '*']
}

/// The joins of a read with foreign-key expansions, and where to cut its result rows.
pub struct Expansions {
    /// Per table, in join order starting with the root table: its column count and its
    /// position in the table list.
    pub indexes: Vec<(usize, usize)>,
    pub joins: Vec<String>,
    /// `F<i>.*` per join, where the joins are qualified by a prefix.
    pub selects: Option<Vec<String>>,
}

fn write_join(out: &mut String, e: &ExpandedTable, idx: usize, col: &str)
    ensures
        final(out)@ == old(out)@ + join_sql(e.view(), idx as int, col@),
{
    proof {
        reveal_strlit("LEFT JOIN ");
        reveal_strlit(" AS F");
        reveal_strlit(" ON ");
        reveal_strlit(" = F");
    }
    let ghost start = out@;
    out.append("LEFT JOIN ");
    write_quoted(out, e.foreign_table_name.as_str());
    out.append(" AS F");
    write_u64(out, idx as u64);
    out.append(" ON ");
    out.append(col);
    out.append(" = F");
    write_u64(out, idx as u64);
    push_char(out, '.');
    out.append(e.foreign_column_name.as_str());
    assert(out@ =~= start + join_sql(e.view(), idx as int, col@));
}

/// Entry `k` of the expansions: the cut after join `k` and the join's text.
pub open spec fn join_entry(
    indexes: Seq<(usize, usize)>,
    joins: Seq<String>,
    es: Seq<ExpandedView>,
    pos: Seq<int>,
    prefix: Option<Seq<char>>,
    k: int,
) -> bool {
    indexes[k + 1] == (es[k].num_columns as usize, es[k].table_index as usize) && joins[k]@
        == join_sql(es[k], pos[k], column_ref(prefix, es[k].local_column_name))
}

impl Expansions {
    /// The joins that read `table_name` with the foreign keys of the columns in `expand`
    /// expanded, join `i` for the `i`-th requested name; empty names are skipped. Fails
    /// as [`expand_tables`] does.
    pub fn build(
        tables: &Vec<TableMetadata>,
        table_name: &str,
        expand: &Vec<String>,
        prefix: Option<&str>,
    ) -> (r: Result<Expansions, RecordError>)
        requires
            tables_wf(tables@),
        ensures
            match table_index(tables@, table_name@) {
                None => r is Err,
                Some(ri) => match expand_all(
                    tables@,
                    tables@[ri],
                    string_seqs(expand@),
                    expand@.len() as int,
                ) {
                    None => r is Err,
                    Some(es) => r is Ok && {
                        let x = r->Ok_0;
                        let pos = nonempty_positions(string_seqs(expand@), expand@.len() as int);
                        &&& x.indexes@.len() == es.len() + 1
                        &&& x.indexes@[0] == (
                            tables@[ri].schema.columns@.len() as usize,
                            ri as usize,
                        )
                        &&& x.joins@.len() == es.len()
                        &&& pos.len() == es.len()
                        &&& forall|k: int|
                            0 <= k < es.len() ==> #[trigger] join_entry(
                                x.indexes@,
                                x.joins@,
                                es,
                                pos,
                                opt_str(prefix),
                                k,
                            )
                        &&& prefix is None <==> x.selects is None
                    },
                },
            },
    {
        let ri = match find_table(tables, table_name) {
            None => {
                return Err(RecordError::ApiRequiresTable);
            },
            Some(ri) => ri,
        };
        let root = &tables[ri];
        let ghost names = string_seqs(expand@);
        let mut indexes: Vec<(usize, usize)> = Vec::new();
        indexes.push((root.schema.columns.len(), ri));
        let mut joins: Vec<String> = Vec::new();
        let ghost mut es: Seq<ExpandedView> = seq![];
        let ghost mut pos: Seq<int> = seq![];
        let mut i: usize = 0;
        while i < expand.len()
            invariant
                tables_wf(tables@),
                ri < tables@.len(),
                table_index(tables@, table_name@) == Some(ri as int),
                *root == tables@[ri as int],
                names == string_seqs(expand@),
                i <= expand@.len(),
                expand_all(tables@, *root, names, i as int) == Some(es),
                pos == nonempty_positions(names, i as int),
                pos.len() == es.len(),
                indexes@.len() == es.len() + 1,
                indexes@[0] == (root.schema.columns@.len() as usize, ri),
                joins@.len() == es.len(),
                forall|k: int|
                    0 <= k < es.len() ==> #[trigger] join_entry(
                        indexes@,
                        joins@,
                        es,
                        pos,
                        opt_str(prefix),
                        k,
                    ),
            decreases expand@.len() - i,
        {
            let name = expand[i].as_str();
            assert(names[i as int] == name@);
            if name.unicode_len() == 0 {
                assert(nonempty_positions(names, i as int + 1) == nonempty_positions(names, i as int));
                i = i + 1;
                continue;
            }
            let e = match expand_column(tables, root, name) {
                None => {
                    proof {
                        lemma_expand_all_none_sticks(tables@, *root, names, i as int + 1);
                    }
                    return Err(RecordError::ApiRequiresTable);
                },
                Some(e) => e,
            };
            let mut col = String::new();
            match prefix {
                Some(p) => {
                    col.append(p);
                    push_char(&mut col, '.');
                    col.append(name);
                },
                None => {
                    col.append(name);
                },
            }
            assert(col@ =~= column_ref(opt_str(prefix), e.view().local_column_name));
            let mut join = String::new();
            write_join(&mut join, &e, i, col.as_str());
            let ghost ev = e.view();
            let ghost old_es = es;
            let ghost old_pos = pos;
            let ghost old_idx = indexes@;
            let ghost old_joins = joins@;
            indexes.push((e.num_columns, e.table_index));
            joins.push(join);
            proof {
                assert(nonempty_positions(names, i as int + 1) == old_pos.push(i as int));
                es = es.push(ev);
                pos = pos.push(i as int);
                assert forall|k: int| 0 <= k < es.len() implies #[trigger] join_entry(
                    indexes@,
                    joins@,
                    es,
                    pos,
                    opt_str(prefix),
                    k,
                ) by {
                    if k < es.len() - 1 {
                        assert(join_entry(old_idx, old_joins, old_es, old_pos, opt_str(prefix), k));
                        assert(es[k] == old_es[k] && pos[k] == old_pos[k]);
                        assert(indexes@[k + 1] == old_idx[k + 1]);
                        assert(joins@[k] == old_joins[k]);
                    }
                }
            }
            i = i + 1;
        }
        let selects = match prefix {
            None => None,
            Some(_) => {
                let mut v: Vec<String> = Vec::new();
                let mut k: usize = 0;
                while k < joins.len()
                    invariant
                        k <= joins@.len(),
                        v@.len() == k,
                        forall|j: int| 0 <= j < k ==> (#[trigger] v@[j])@ == select_all_of(j),
                    decreases joins@.len() - k,
                {
                    let mut sel = String::new();
                    push_char(&mut sel, 'F');
                    write_u64(&mut sel, k as u64);
                    push_char(&mut sel, '.');
                    push_char(&mut sel, '*');
                    assert(sel@ =~= select_all_of(k as int));
                    v.push(sel);
                    k = k + 1;
                }
                Some(v)
            },
        };
        Ok(Expansions { indexes, joins, selects })
    }
}

pub open spec fn where_pk(pk: Seq<char>) -> Seq<char> {
    seq![' ', 'W', 'H', 'E', 'R', 'E', ' '] + quoted(pk) + seq![' ', '=', ' ', '$', '1']
}

/// `SELECT * FROM "<table>" WHERE "<pk>" = $1`.
pub open spec fn select_sql(table: Seq<char>, pk: Seq<char>) -> Seq<char> {
    seq!['S', 'E', 'L', 'E', 'C', 'T', ' ', '*', ' ', 'F', 'R', 'O', 'M', ' '] + quoted(table)
        + where_pk(pk)
}

/// `DELETE FROM "<table>" WHERE "<pk>" = $1 RETURNING _rowid_`.
pub open spec fn delete_sql(table: Seq<char>, pk: Seq<char>) -> Seq<char> {
    seq!['D', 'E', 'L', 'E', 'T', 'E', ' ', 'F', 'R', 'O', 'M', ' '] + quoted(table) + where_pk(pk)
        + seq![' ', 'R', 'E', 'T', 'U', 'R', 'N', 'I', 'N', 'G', ' ', '_', 'r', 'o', 'w', 'i', 'd', '_']
}

/// `SELECT "<column>" FROM "<table>" WHERE "<pk>" = $1`.
pub open spec fn select_column_sql(column: Seq<char>, table: Seq<char>, pk: Seq<char>) -> Seq<char> {
    seq!['S', 'E', 'L', 'E', 'C', 'T', ' '] + quoted(column) + seq![' ', 'F', 'R', 'O', 'M', ' ']
        + quoted(table) + where_pk(pk)
}

fn write_where_pk(out: &mut String, pk: &str)
    ensures
        final(out)@ == old(out)@ + where_pk(pk@),
{
    proof {
        reveal_strlit(" WHERE ");
        reveal_strlit(" = $1");
    }
    out.append(" WHERE ");
    write_quoted(out, pk);
    out.append(" = $1");
    assert(out@ =~= old(out)@ + where_pk(pk@));
}

pub struct SelectQueryBuilder;

impl SelectQueryBuilder {
    /// The read of the record whose `pk_column` is `$1`.
    pub fn query(table_name: &str, pk_column: &str) -> (r: String)
        ensures
            r@ == select_sql(table_name@, pk_column@),
    {
        proof {
            reveal_strlit("SELECT * FROM ");
        }
        let mut s = String::new();
        s.append("SELECT * FROM ");
        write_quoted(&mut s, table_name);
        write_where_pk(&mut s, pk_column);
        assert(s@ =~= select_sql(table_name@, pk_column@));
        s
    }
}

pub struct DeleteQueryBuilder;

impl DeleteQueryBuilder {
    /// The deletion of the record whose `pk_column` is `$1`, returning its row id.
    pub fn query(table_name: &str, pk_column: &str) -> (r: String)
        ensures
            r@ == delete_sql(table_name@, pk_column@),
    {
        proof {
            reveal_strlit("DELETE FROM ");
            reveal_strlit(" RETURNING _rowid_");
        }
        let mut s = String::new();
        s.append("DELETE FROM ");
        write_quoted(&mut s, table_name);
        write_where_pk(&mut s, pk_column);
        s.append(" RETURNING _rowid_");
        assert(s@ =~= delete_sql(table_name@, pk_column@));
        s
    }
}

fn select_column_query(column: &str, table_name: &str, pk_column: &str) -> (r: String)
    ensures
        r@ == select_column_sql(column@, table_name@, pk_column@),
{
    proof {
        reveal_strlit("SELECT ");
        reveal_strlit(" FROM ");
    }
    let mut s = String::new();
    s.append("SELECT ");
    write_quoted(&mut s, column);
    s.append(" FROM ");
    write_quoted(&mut s, table_name);
    write_where_pk(&mut s, pk_column);
    assert(s@ =~= select_column_sql(column@, table_name@, pk_column@));
    s
}

pub struct GetFileQueryBuilder;

impl GetFileQueryBuilder {
    /// The read of single-file column `col` of the record whose `pk_column` is `$1`;
    /// refused for a column that holds no single file.
    pub fn query(metadata: &TableMetadata, col: usize, pk_column: &str) -> (r: Result<String, QueryError>)
        requires
            metadata.wf(),
            col < metadata.schema.columns@.len(),
        ensures
            metadata.json_meta(col as int) == Some(
                crate::metadata::JsonMeta::SchemaName(crate::metadata::file_upload_name()),
            ) ==> r is Ok && r->Ok_0@ == select_column_sql(
                metadata.schema.columns@[col as int].name@,
                metadata.schema.name.name@,
                pk_column@,
            ),
            metadata.json_meta(col as int) != Some(
                crate::metadata::JsonMeta::SchemaName(crate::metadata::file_upload_name()),
            ) ==> r == Err::<String, QueryError>(QueryError::NotAFile),
    {
        proof {
            metadata.lemma_wf_len();
            reveal_strlit("std.FileUpload");
            assert("std.FileUpload"@ =~= crate::metadata::file_upload_name());
        }
        match &metadata.column_metadata[col].json {
            Some(crate::metadata::JsonColumnMetadata::SchemaName(n)) => {
                if str_eq(n.as_str(), "std.FileUpload") {
                    Ok(
                        select_column_query(
                            metadata.schema.columns[col].name.as_str(),
                            metadata.schema.name.name.as_str(),
                            pk_column,
                        ),
                    )
                } else {
                    Err(QueryError::NotAFile)
                }
            },
            _ => Err(QueryError::NotAFile),
        }
    }
}

pub struct GetFilesQueryBuilder;

impl GetFilesQueryBuilder {
    /// The read of file-list column `col` of the record whose `pk_column` is `$1`;
    /// refused for a column that holds no file list.
    pub fn query(metadata: &TableMetadata, col: usize, pk_column: &str) -> (r: Result<String, QueryError>)
        requires
            metadata.wf(),
            col < metadata.schema.columns@.len(),
        ensures
            metadata.json_meta(col as int) == Some(
                crate::metadata::JsonMeta::SchemaName(crate::metadata::file_uploads_name()),
            ) ==> r is Ok && r->Ok_0@ == select_column_sql(
                metadata.schema.columns@[col as int].name@,
                metadata.schema.name.name@,
                pk_column@,
            ),
            metadata.json_meta(col as int) != Some(
                crate::metadata::JsonMeta::SchemaName(crate::metadata::file_uploads_name()),
            ) ==> r == Err::<String, QueryError>(QueryError::NotAFilesList),
    {
        proof {
            metadata.lemma_wf_len();
            reveal_strlit("std.FileUploads");
            assert("std.FileUploads"@ =~= crate::metadata::file_uploads_name());
        }
        match &metadata.column_metadata[col].json {
            Some(crate::metadata::JsonColumnMetadata::SchemaName(n)) => {
                if str_eq(n.as_str(), "std.FileUploads") {
                    Ok(
                        select_column_query(
                            metadata.schema.columns[col].name.as_str(),
                            metadata.schema.name.name.as_str(),
                            pk_column,
                        ),
                    )
                } else {
                    Err(QueryError::NotAFilesList)
                }
            },
            _ => Err(QueryError::NotAFilesList),
        }
    }
}

/// The sum of the first `k` counts.
pub open spec fn count_sum(counts: Seq<usize>, k: int) -> int
    decreases k,
{
    if k <= 0 {
        0
    } else {
        count_sum(counts, k - 1) + counts[k - 1]
    }
}

/// Cuts a joined row into one row per table: `counts[k]` values for table `k`, in order.
/// Values past the last table are dropped.
pub fn split_row(row: Vec<SqlValue>, counts: &Vec<usize>) -> (r: Vec<Vec<SqlValue>>)
    requires
        count_sum(counts@, counts@.len() as int) <= row@.len(),
    ensures
        r@.len() == counts@.len(),
        forall|k: int|
            0 <= k < counts@.len() ==> (#[trigger] r@[k])@ == row@.subrange(
                count_sum(counts@, k),
                count_sum(counts@, k) + counts@[k],
            ),
{
    let ghost all = row@;
    let mut out: Vec<Vec<SqlValue>> = Vec::new();
    let mut curr = row;
    let mut i: usize = 0;
    proof {
        lemma_count_sum_mono(counts@, 0, counts@.len() as int);
    }
    while i < counts.len()
        invariant
            i <= counts@.len(),
            out@.len() == i,
            count_sum(counts@, counts@.len() as int) <= all.len(),
            0 <= count_sum(counts@, i as int) <= all.len(),
            curr@ == all.subrange(count_sum(counts@, i as int), all.len() as int),
            forall|k: int|
                0 <= k < i ==> (#[trigger] out@[k])@ == all.subrange(
                    count_sum(counts@, k),
                    count_sum(counts@, k) + counts@[k],
                ),
        decreases counts@.len() - i,
    {
        proof {
            lemma_count_sum_mono(counts@, i as int + 1, counts@.len() as int);
        }
        let next = curr.split_off(counts[i]);
        let ghost part = curr@;
        out.push(curr);
        curr = next;
        proof {
            assert(part =~= all.subrange(count_sum(counts@, i as int), count_sum(counts@, i as int) + counts@[i as int]));
            assert(curr@ =~= all.subrange(count_sum(counts@, i as int + 1), all.len() as int));
        }
        i = i + 1;
    }
    out
}

proof fn lemma_count_sum_mono(counts: Seq<usize>, a: int, b: int)
    requires
        0 <= a <= b <= counts.len(),
    ensures
        0 <= count_sum(counts, a) <= count_sum(counts, b),
    decreases b - a,
{
    if a < b {
        lemma_count_sum_mono(counts, a, b - 1);
    } else {
        lemma_count_sum_nonneg(counts, a);
    }
}

proof fn lemma_count_sum_nonneg(counts: Seq<usize>, a: int)
    requires
        0 <= a <= counts.len(),
    ensures
        0 <= count_sum(counts, a),
    decreases a,
{
    if a > 0 {
        lemma_count_sum_nonneg(counts, a - 1);
    }
}

/// The object-store paths to delete after a statement that referred to `files`: none
/// when it succeeded; every file's when it failed, as nothing refers to them then.
pub fn paths_to_clean_up(files: &Vec<FileUpload>, succeeded: bool) -> (r: Vec<String>)
    ensures
        succeeded ==> r@.len() == 0,
        !succeeded ==> r@.len() == files@.len() && forall|k: int|
            0 <= k < files@.len() ==> (#[trigger] r@[k])@ == files@[k].id@,
{
    let mut out: Vec<String> = Vec::new();
    if succeeded {
        return out;
    }
    let mut i: usize = 0;
    while i < files.len()
        invariant
            i <= files@.len(),
            out@.len() == i,
            forall|k: int| 0 <= k < i ==> (#[trigger] out@[k])@ == files@[k].id@,
        decreases files@.len() - i,
    {
        out.push(files[i].id.clone());
        i = i + 1;
    }
    out
}

/// The first `k` joins, each after a space.
pub open spec fn joins_text(joins: Seq<Seq<char>>, k: int) -> Seq<char>
    decreases k,
{
    if k <= 0 {
        seq![]
    } else {
        joins_text(joins, k - 1) + seq![' '] + joins[k - 1]
    }
}

/// `SELECT * FROM "<table>" AS R <joins> WHERE R.<pk> = $1`.
pub open spec fn select_expanded_sql(table: Seq<char>, pk: Seq<char>, joins: Seq<Seq<char>>) -> Seq<char> {
    seq!['S', 'E', 'L', 'E', 'C', 'T', ' ', '*', ' ', 'F', 'R', 'O', 'M', ' '] + quoted(table) + seq![
        ' ',
        'A',
        'S',
        ' ',
        'R',
    ] + joins_text(joins, joins.len() as int) + seq![' ', 'W', 'H', 'E', 'R', 'E', ' ', 'R', '.'] + pk
        + seq![' ', '=', ' ', '$', '1']
}

impl SelectQueryBuilder {
    /// The read of the record whose `pk_column` is `$1`, with the joins of its
    /// expansions.
    pub fn expanded_query(table_name: &str, pk_column: &str, joins: &Vec<String>) -> (r: String)
        ensures
            r@ == select_expanded_sql(table_name@, pk_column@, string_seqs(joins@)),
    {
        proof {
            reveal_strlit("SELECT * FROM ");
            reveal_strlit(" AS R");
            reveal_strlit(" WHERE R.");
            reveal_strlit(" = $1");
        }
        let ghost js = string_seqs(joins@);
        let mut s = String::new();
        s.append("SELECT * FROM ");
        write_quoted(&mut s, table_name);
        s.append(" AS R");
        let ghost head = s@;
        let mut i: usize = 0;
        while i < joins.len()
            invariant
                i <= joins@.len(),
                js == string_seqs(joins@),
                s@ == head + joins_text(js, i as int),
            decreases joins@.len() - i,
        {
            push_char(&mut s, ' ');
            s.append(joins[i].as_str());
            assert(js[i as int] == joins@[i as int]@);
            assert(s@ =~= head + joins_text(js, i as int + 1));
            i = i + 1;
        }
        s.append(" WHERE R.");
        s.append(pk_column);
        s.append(" = $1");
        assert(s@ =~= select_expanded_sql(table_name@, pk_column@, js));
        s
    }
}

} // verus!
