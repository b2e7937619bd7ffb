//! Table migrations by the recreate pattern: create the new shape, copy the columns
//! both shapes share, drop the old table and move the new one into its place, all in
//! one transaction with foreign-key enforcement suspended.
use vstd::prelude::*;

use crate::schema::{
    has_column, escaped_name, find_column, opt_str_view, plain_list, quoted,
    create_table_sql, str_eq, write_comma, write_quoted, Column, Table,
};
use crate::value::push_char;

verus! {

/// A request to change a table from one shape to another.
#[derive(Debug, Clone)]
pub struct AlterTableRequest {
    pub source_schema: Table,
    pub target_schema: Table,
}

/// Why an alteration was refused before anything ran.
#[derive(Debug, Clone, Copy, PartialEq, Eq, Structural)]
pub enum AlterTableError {
    /// Internal tables, whose names start with `_`, cannot be altered in demo mode.
    DisallowedInDemo,
    /// Source and target name different databases.
    CrossDatabase,
    /// The source is no table.
    NotATable,
}

/// What an alteration runs, and what must follow it.
pub struct AlterTablePlan {
    /// The statements of the transaction, in order.
    pub statements: Vec<String>,
    /// The name of the migration the statements are recorded in.
    pub migration_name: String,
    /// Whether the table gets a new name.
    pub is_table_rename: bool,
    /// Whether configuration that names the table must be moved to the new name: for a
    /// rename in the default database.
    pub rename_config: bool,
}

pub open spec fn column_names(cols: Seq<Column>) -> Seq<Seq<char>> {
    cols.map_values(|c: Column| c.name@)
}

/// The names among the first `k` target columns that the source has too, in target
/// order: the columns whose data is copied.
#[verifier::opaque]
pub open spec fn shared_columns(source: Seq<Column>, target: Seq<Column>, k: int) -> Seq<Seq<char>>
    decreases k,
{
    if k <= 0 {
        seq![]
    } else {
        let r = shared_columns(source, target, k - 1);
        if has_column(source, target[k - 1].name@) {
            r.push(target[k - 1].name@)
        } else {
            r
        }
    }
}

pub open spec fn copy_columns(req: AlterTableRequest) -> Seq<Seq<char>> {
    shared_columns(
        req.source_schema.columns@,
        req.target_schema.columns@,
        req.target_schema.columns@.len() as int,
    )
}

pub open spec fn is_rename(req: AlterTableRequest) -> bool {
    !req.target_schema.name.same(req.source_schema.name)
}

pub open spec fn temp_prefix() -> Seq<char> {
    seq!['_', '_', 'a', 'l', 't', 'e', 'r', '_', 't', 'a', 'b', 'l', 'e', '_']
}

/// The quoted name the new shape is created under: the target name for a rename, else
/// a private name beside the source.
pub open spec fn working_name(req: AlterTableRequest) -> Seq<char> {
    if is_rename(req) {
        escaped_name(req.target_schema.name)
    } else {
        let n = quoted(temp_prefix() + req.target_schema.name.name@);
        match req.target_schema.name.database_schema {
            Some(db) => quoted(db@) + seq!['.'] + n,
            None => n,
        }
    }
}

pub open spec fn pragma_fk(on: bool) -> Seq<char> {
    seq!['P', 'R', 'A', 'G', 'M', 'A', ' ', 'f', 'o', 'r', 'e', 'i', 'g', 'n', '_', 'k', 'e', 'y', 's', ' ', '=', ' ']
        + if on {
        seq!['O', 'N']
    } else {
        seq!['O', 'F', 'F']
    }
}

/// `INSERT INTO <to> (<cols>) SELECT <cols> FROM <from>`.
pub open spec fn copy_sql(to: Seq<char>, cols: Seq<Seq<char>>, from: Seq<char>) -> Seq<char> {
    seq!['I', 'N', 'S', 'E', 'R', 'T', ' ', 'I', 'N', 'T', 'O', ' '] + to + seq![' ', '('] + plain_list(
        cols,
        cols.len() as int,
    ) + seq![')', ' ', 'S', 'E', 'L', 'E', 'C', 'T', ' '] + plain_list(cols, cols.len() as int)
        + seq![' ', 'F', 'R', 'O', 'M', ' '] + from
}

/// `DROP TABLE <name>`.
pub open spec fn drop_sql(name: Seq<char>) -> Seq<char> {
    seq!['D', 'R', 'O', 'P', ' ', 'T', 'A', 'B', 'L', 'E', ' '] + name
}

/// `ALTER TABLE <from> RENAME TO <to>`.
pub open spec fn rename_sql(from: Seq<char>, to: Seq<char>) -> Seq<char> {
    seq!['A', 'L', 'T', 'E', 'R', ' ', 'T', 'A', 'B', 'L', 'E', ' '] + from + seq![
        ' ',
        'R',
        'E',
        'N',
        'A',
        'M',
        'E',
        ' ',
        'T',
        'O',
        ' ',
    ] + to
}

/// The statements of an alteration, in order.
pub open spec fn plan_statements(req: AlterTableRequest) -> Seq<Seq<char>> {
    let w = working_name(req);
    let src = escaped_name(req.source_schema.name);
    seq![
        pragma_fk(false),
        create_table_sql(req.target_schema, w),
        copy_sql(w, copy_columns(req), src),
        drop_sql(src),
    ] + (if is_rename(req) {
        seq![]
    } else {
        seq![rename_sql(w, escaped_name(req.target_schema.name))]
    }) + seq![pragma_fk(true)]
}

pub open spec fn is_main(db: Option<Seq<char>>) -> bool {
    db is None || db == Some(seq!['m', 'a', 'i', 'n'])
}

pub open spec fn strings_view(v: Seq<String>) -> Seq<Seq<char>> {
    v.map_values(|s: String| s@)
}

proof fn lemma_shared_step(source: Seq<Column>, target: Seq<Column>, k: int)
    requires
        0 <= k,
    ensures
        shared_columns(source, target, 0) == Seq::<Seq<char>>::empty(),
        shared_columns(source, target, k + 1) == if has_column(source, target[k].name@) {
            shared_columns(source, target, k).push(target[k].name@)
        } else {
            shared_columns(source, target, k)
        },
{
    reveal_with_fuel(shared_columns, 2);
}

fn shared_column_names(source: &Vec<Column>, target: &Vec<Column>) -> (r: Vec<String>)
    ensures
        strings_view(r@) == shared_columns(source@, target@, target@.len() as int),
{
    let mut r: Vec<String> = Vec::new();
    let mut i: usize = 0;
    proof {
        lemma_shared_step(source@, target@, 0);
        assert(strings_view(r@) =~= Seq::<Seq<char>>::empty());
    }
    while i < target.len()
        invariant
            i <= target@.len(),
            strings_view(r@) == shared_columns(source@, target@, i as int),
        decreases target@.len() - i,
    {
        let ghost before = r@;
        proof {
            lemma_shared_step(source@, target@, i as int);
        }
        let found = find_column(source, target[i].name.as_str()).is_some();
        if found {
            r.push(target[i].name.clone());
            assert(strings_view(r@) =~= strings_view(before).push(target@[i as int].name@));
        }
        i = i + 1;
    }
    r
}

fn join_names(items: &Vec<String>) -> (r: String)
    ensures
        r@ == plain_list(strings_view(items@), items@.len() as int),
{
    let ghost xs = strings_view(items@);
    let mut s = String::new();
    let mut i: usize = 0;
    while i < items.len()
        invariant
            i <= items@.len(),
            xs == strings_view(items@),
            s@ == plain_list(xs, i as int),
        decreases items@.len() - i,
    {
        if i > 0 {
            write_comma(&mut s);
        }
        s.append(items[i].as_str());
        assert(xs[i as int] == items@[i as int]@);
        assert(s@ =~= plain_list(xs, i as int + 1));
        i = i + 1;
    }
    s
}

fn starts_with_underscore(s: &str) -> (r: bool)
    ensures
        r == (s@.len() > 0 && s@[0] == '_'),
{
    s.unicode_len() > 0 && s.get_char(0) == '_'
}

fn working_table_name(request: &AlterTableRequest) -> (r: String)
    ensures
        r@ == working_name(*request),
{
    proof {
        reveal_strlit("__alter_table_");
    }
    let target = &request.target_schema;
    if !target.name.equals(&request.source_schema.name) {
        return target.name.escaped_string();
    }
    let mut w = String::new();
    match &target.name.database_schema {
        Some(db) => {
            write_quoted(&mut w, db.as_str());
            push_char(&mut w, '.');
        },
        None => {},
    }
    let mut n = String::new();
    n.append("__alter_table_");
    n.append(target.name.name.as_str());
    write_quoted(&mut w, n.as_str());
    assert(w@ =~= working_name(*request));
    w
}

fn copy_statement(to: &str, cols: &str, from: &str) -> (r: String)
    ensures
        r@ == seq!['I', 'N', 'S', 'E', 'R', 'T', ' ', 'I', 'N', 'T', 'O', ' '] + to@ + seq![' ', '(']
            + cols@ + seq![')', ' ', 'S', 'E', 'L', 'E', 'C', 'T', ' '] + cols@ + seq![
            ' ',
            'F',
            'R',
            'O',
            'M',
            ' ',
        ] + from@,
{
    proof {
        reveal_strlit("INSERT INTO ");
        reveal_strlit(" (");
        reveal_strlit(") SELECT ");
        reveal_strlit(" FROM ");
    }
    let mut insert = String::new();
    insert.append("INSERT INTO ");
    insert.append(to);
    insert.append(" (");
    insert.append(cols);
    insert.append(") SELECT ");
    insert.append(cols);
    insert.append(" FROM ");
    insert.append(from);
    insert
}

fn drop_statement(name: &str) -> (r: String)
    ensures
        r@ == drop_sql(name@),
{
    proof {
        reveal_strlit("DROP TABLE ");
    }
    let mut s = String::new();
    s.append("DROP TABLE ");
    s.append(name);
    s
}

fn rename_statement(from: &str, to: &str) -> (r: String)
    ensures
        r@ == rename_sql(from@, to@),
{
    proof {
        reveal_strlit("ALTER TABLE ");
        reveal_strlit(" RENAME TO ");
    }
    let mut s = String::new();
    s.append("ALTER TABLE ");
    s.append(from);
    s.append(" RENAME TO ");
    s.append(to);
    s
}

fn pragma_statement(on: bool) -> (r: String)
    ensures
        r@ == pragma_fk(on),
{
    proof {
        reveal_strlit("PRAGMA foreign_keys = OFF");
        reveal_strlit("PRAGMA foreign_keys = ON");
        assert("PRAGMA foreign_keys = OFF"@ =~= pragma_fk(false));
        assert("PRAGMA foreign_keys = ON"@ =~= pragma_fk(true));
    }
    if on {
        "PRAGMA foreign_keys = ON".to_owned()
    } else {
        "PRAGMA foreign_keys = OFF".to_owned()
    }
}

/// The statements of the alteration, in order.
pub fn build_statements(request: &AlterTableRequest) -> (r: Vec<String>)
    ensures
        strings_view(r@) == plan_statements(*request),
{
    let source = &request.source_schema;
    let target = &request.target_schema;
    let is_table_rename = !target.name.equals(&source.name);
    let source_name = source.name.escaped_string();
    let target_name = target.name.escaped_string();
    let working = working_table_name(request);
    let copy = shared_column_names(&source.columns, &target.columns);
    let cols = join_names(&copy);
    let ghost w = working@;
    let ghost src = source_name@;
    let mut statements: Vec<String> = Vec::new();
    statements.push(pragma_statement(false));
    statements.push(target.create_table_statement_as(working.as_str()));
    statements.push(copy_statement(working.as_str(), cols.as_str(), source_name.as_str()));
    statements.push(drop_statement(source_name.as_str()));
    let ghost head = seq![
        pragma_fk(false),
        create_table_sql(*target, w),
        copy_sql(w, copy_columns(*request), src),
        drop_sql(src),
    ];
    assert(strings_view(statements@) =~= head);
    if !is_table_rename {
        statements.push(rename_statement(working.as_str(), target_name.as_str()));
    }
    let ghost mid = strings_view(statements@);
    statements.push(pragma_statement(true));
    proof {
        assert(strings_view(statements@) =~= mid.push(pragma_fk(true)));
        assert(strings_view(statements@) =~= plan_statements(*request));
    }
    statements
}

/// Plans the alteration of `request.source_schema` into `request.target_schema`.
/// `source_is_table` says whether the source name resolves to a table of the live
/// schema; in demo mode internal tables are off limits.
pub fn alter_table_plan(request: &AlterTableRequest, source_is_table: bool, demo_mode: bool) -> (r:
    Result<AlterTablePlan, AlterTableError>)
    ensures
        demo_mode && request.source_schema.name.name@.len() > 0
            && request.source_schema.name.name@[0] == '_' ==> r == Err::<
            AlterTablePlan,
            AlterTableError,
        >(AlterTableError::DisallowedInDemo),
        !(demo_mode && request.source_schema.name.name@.len() > 0
            && request.source_schema.name.name@[0] == '_') ==> {
            if opt_str_view(request.source_schema.name.database_schema) != opt_str_view(
                request.target_schema.name.database_schema,
            ) {
                r == Err::<AlterTablePlan, AlterTableError>(AlterTableError::CrossDatabase)
            } else if !source_is_table {
                r == Err::<AlterTablePlan, AlterTableError>(AlterTableError::NotATable)
            } else {
                r is Ok && strings_view(r->Ok_0.statements@) == plan_statements(*request)
                    && r->Ok_0.is_table_rename == is_rename(*request) && r->Ok_0.rename_config == (
                is_rename(*request) && is_main(opt_str_view(request.source_schema.name.database_schema)))
                    && r->Ok_0.migration_name@ == seq![
                    'a',
                    'l',
                    't',
                    'e',
                    'r',
                    '_',
                    't',
                    'a',
                    'b',
                    'l',
                    'e',
                    '_',
                ] + request.source_schema.name.name@
            }
        },
{
    let source = &request.source_schema;
    let target = &request.target_schema;
    if demo_mode && starts_with_underscore(source.name.name.as_str()) {
        return Err(AlterTableError::DisallowedInDemo);
    }
    let same_db = match (&source.name.database_schema, &target.name.database_schema) {
        (Some(a), Some(b)) => *a == *b,
        (None, None) => true,
        _ => false,
    };
    if !same_db {
        return Err(AlterTableError::CrossDatabase);
    }
    if !source_is_table {
        return Err(AlterTableError::NotATable);
    }
    let is_table_rename = !target.name.equals(&source.name);
    let statements = build_statements(request);
    proof {
        reveal_strlit("alter_table_");
        reveal_strlit("main");
    }
    let in_main = match &source.name.database_schema {
        None => true,
        Some(db) => str_eq(db.as_str(), "main"),
    };
    let mut migration_name = String::new();
    migration_name.append("alter_table_");
    migration_name.append(source.name.name.as_str());
    proof {
        assert("main"@ =~= seq!['m', 'a', 'i', 'n']);
    }
    Ok(
        AlterTablePlan {
            statements,
            migration_name,
            is_table_rename,
            rename_config: is_table_rename && in_main,
        },
    )
}

/// The first `k` statements, each ended by `;` and a line break.
pub open spec fn script_text(statements: Seq<Seq<char>>, k: int) -> Seq<char>
    decreases k,
{
    if k <= 0 {
        seq![]
    } else {
        script_text(statements, k - 1) + statements[k - 1] + seq![';', '\n']
    }
}

/// The text of the migration that records `statements`, to be replayed verbatim.
pub fn migration_script(statements: &Vec<String>) -> (r: String)
    ensures
        r@ == script_text(strings_view(statements@), statements@.len() as int),
{
    let ghost xs = strings_view(statements@);
    let mut s = String::new();
    let mut i: usize = 0;
    while i < statements.len()
        invariant
            i <= statements@.len(),
            xs == strings_view(statements@),
            s@ == script_text(xs, i as int),
        decreases statements@.len() - i,
    {
        s.append(statements[i].as_str());
        push_char(&mut s, ';');
        push_char(&mut s, '\n');
        assert(xs[i as int] == statements@[i as int]@);
        assert(s@ =~= script_text(xs, i as int + 1));
        i = i + 1;
    }
    s
}

/// Points every configured table name that is `from` at `to` instead.
pub fn rename_table_references(names: &mut Vec<Option<String>>, from: &str, to: &str)
    ensures
        final(names)@.len() == old(names)@.len(),
        forall|i: int|
            0 <= i < old(names)@.len() ==> match #[trigger] old(names)@[i] {
                Some(n) => if n@ == from@ {
                    final(names)@[i] matches Some(m) && m@ == to@
                } else {
                    final(names)@[i] == old(names)@[i]
                },
                None => final(names)@[i] is None,
            },
{
    let mut i: usize = 0;
    while i < names.len()
        invariant
            i <= names@.len(),
            names@.len() == old(names)@.len(),
            forall|j: int| i <= j < names@.len() ==> names@[j] == old(names)@[j],
            forall|j: int|
                0 <= j < i ==> match #[trigger] old(names)@[j] {
                    Some(n) => if n@ == from@ {
                        names@[j] matches Some(m) && m@ == to@
                    } else {
                        names@[j] == old(names)@[j]
                    },
                    None => names@[j] is None,
                },
        decreases names@.len() - i,
    {
        let hit = match &names[i] {
            Some(n) => str_eq(n.as_str(), from),
            None => false,
        };
        if hit {
            names.set(i, Some(to.to_owned()));
        }
        i = i + 1;
    }
}

proof fn lemma_column_index_some(cols: Seq<Column>, i: int)
    requires
        0 <= i < cols.len(),
    ensures
        has_column(cols, cols[i].name@),
{
    assert(exists|j: int| 0 <= j < cols.len() && (#[trigger] cols[j]).name@ == cols[i].name@);
}

proof fn lemma_shared_prefix(source: Seq<Column>, target: Seq<Column>, k: int)
    requires
        0 <= k <= target.len(),
        k <= source.len(),
        forall|i: int| 0 <= i < k ==> #[trigger] target[i] == source[i],
    ensures
        shared_columns(source, target, k) == column_names(source.subrange(0, k)),
    decreases k,
{
    lemma_shared_step(source, target, 0);
    if k > 0 {
        lemma_shared_step(source, target, k - 1);
        lemma_shared_prefix(source, target, k - 1);
        assert(target[k - 1] == source[k - 1]);
        lemma_column_index_some(source, k - 1);
        assert(column_names(source.subrange(0, k)) =~= column_names(source.subrange(0, k - 1)).push(
            source[k - 1].name@,
        ));
    } else {
        assert(column_names(source.subrange(0, 0)) =~= Seq::<Seq<char>>::empty());
    }
}

proof fn lemma_shared_skips_new(source: Seq<Column>, target: Seq<Column>, k: int)
    requires
        source.len() <= k <= target.len(),
        forall|i: int|
            source.len() <= i < target.len() ==> !has_column(source, (#[trigger] target[i]).name@),
    ensures
        shared_columns(source, target, k) == shared_columns(source, target, source.len() as int),
    decreases k,
{
    if k > source.len() {
        lemma_shared_skips_new(source, target, k - 1);
        lemma_shared_step(source, target, k - 1);
    }
}

/// Altering a table into the shape it already has copies every column and moves the
/// copy back under the same name: the table keeps all its rows and values.
pub proof fn lemma_alter_same_shape(req: AlterTableRequest)
    requires
        req.target_schema.name.same(req.source_schema.name),
        req.target_schema.columns@ == req.source_schema.columns@,
    ensures
        !is_rename(req),
        copy_columns(req) == column_names(req.source_schema.columns@),
        plan_statements(req).len() == 6,
        plan_statements(req)[2] == copy_sql(
            working_name(req),
            column_names(req.source_schema.columns@),
            escaped_name(req.source_schema.name),
        ),
        plan_statements(req)[3] == drop_sql(escaped_name(req.source_schema.name)),
        plan_statements(req)[4] == rename_sql(working_name(req), escaped_name(req.source_schema.name)),
{
    let src = req.source_schema.columns@;
    lemma_shared_prefix(src, req.target_schema.columns@, src.len() as int);
    assert(src.subrange(0, src.len() as int) =~= src);
    assert(escaped_name(req.target_schema.name) == escaped_name(req.source_schema.name));
}

/// Renaming a table creates it under the new name, copies the shared columns there and
/// drops the old table, with no step that moves it back: the old name no longer
/// resolves, and the rows live on under the new one.
pub proof fn lemma_alter_rename(req: AlterTableRequest)
    requires
        is_rename(req),
    ensures
        plan_statements(req).len() == 5,
        plan_statements(req)[1] == create_table_sql(
            req.target_schema,
            escaped_name(req.target_schema.name),
        ),
        plan_statements(req)[2] == copy_sql(
            escaped_name(req.target_schema.name),
            copy_columns(req),
            escaped_name(req.source_schema.name),
        ),
        plan_statements(req)[3] == drop_sql(escaped_name(req.source_schema.name)),
        plan_statements(req)[4] == pragma_fk(true),
{
}

/// Adding columns keeps every existing column: all of them are copied, and the new ones
/// are left to their declared defaults.
pub proof fn lemma_alter_add_columns(req: AlterTableRequest, added: Seq<Column>)
    requires
        req.target_schema.columns@ == req.source_schema.columns@ + added,
        forall|i: int|
            0 <= i < added.len() ==> !has_column(req.source_schema.columns@, (#[trigger] added[i]).name@),
    ensures
        copy_columns(req) == column_names(req.source_schema.columns@),
        forall|i: int|
            0 <= i < added.len() ==> !copy_columns(req).contains(#[trigger] added[i].name@),
{
    let src = req.source_schema.columns@;
    let tgt = req.target_schema.columns@;
    lemma_shared_prefix(src, tgt, src.len() as int);
    assert forall|i: int| src.len() <= i < tgt.len() implies !has_column(
        src,
        (#[trigger] tgt[i]).name@,
    ) by {
        assert(tgt[i] == added[i - src.len()]);
    }
    lemma_shared_skips_new(src, tgt, tgt.len() as int);
    assert(src.subrange(0, src.len() as int) =~= src);
    assert forall|i: int| 0 <= i < added.len() implies !copy_columns(req).contains(
        #[trigger] added[i].name@,
    ) by {
        let n = added[i].name@;
        if column_names(src).contains(n) {
            let k = choose|k: int| 0 <= k < column_names(src).len() && column_names(src)[k] == n;
            assert(src[k].name@ == n);
            lemma_column_index_some(src, k);
        }
    }
}

} // verus!
