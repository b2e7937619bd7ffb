//! The schema metadata cache: metadata of every table and view, replaced as a whole
//! when the schema changes, so that readers always see one complete snapshot.
use std::sync::Arc;
use vstd::prelude::*;

use crate::metadata::{column_json_meta, is_file_meta, TableMetadata};
use crate::schema::{
    escaped_name, opt_str_view, quoted, str_eq, write_quoted, QualifiedName, Table, ViewSchema,
};
use crate::value::push_char;

verus! {

/// Relies on `Arc::clone`: another handle on the same value.
#[verifier::external_body]
fn share<T>(a: &Arc<T>) -> (r: Arc<T>)
    ensures
        r == *a,
{
    Arc::clone(a)
}

/// A view's schema, with what is derived from it.
#[derive(Debug, Clone)]
pub struct ViewMetadata {
    pub schema: ViewSchema,
}

impl ViewMetadata {
    pub fn new(view: ViewSchema) -> (r: ViewMetadata)
        ensures
            r.schema == view,
    {
        ViewMetadata { schema: view }
    }
}

/// Why the schema could not be read into metadata.
#[derive(Debug, Clone, PartialEq, Eq)]
pub enum SchemaLookupError {
    /// A table of an attached database has file columns: the triggers that track file
    /// deletions cannot reach across databases.
    FileColumnsOnAttachedDatabase(String),
}

/// One complete reading of the schema.
pub struct CacheState {
    pub tables: Vec<Arc<TableMetadata>>,
    pub views: Vec<Arc<ViewMetadata>>,
    /// The table schemas the snapshot was built from.
    pub source_tables: Ghost<Seq<Table>>,
    /// The view schemas the snapshot was built from.
    pub source_views: Ghost<Seq<ViewSchema>>,
}

pub open spec fn is_main_db(db: Option<Seq<char>>) -> bool {
    db is None || db == Some(seq!['m', 'a', 'i', 'n'])
}

/// A table whose file columns could not be tracked: it lives in an attached database.
#[verifier::opaque]
pub open spec fn untrackable(t: Table) -> bool {
    &&& !is_main_db(opt_str_view(t.name.database_schema))
    &&& exists|j: int|
        0 <= j < t.columns@.len() && is_file_meta(column_json_meta((#[trigger] t.columns@[j]).options@))
}

/// Whether some table cannot be taken in.
pub open spec fn any_untrackable(tables: Seq<Table>) -> bool {
    exists|i: int| 0 <= i < tables.len() && untrackable(#[trigger] tables[i])
}

impl CacheState {
    /// The snapshot holds the metadata of exactly the schemas it was built from.
    pub open spec fn complete(&self) -> bool {
        &&& self.tables@.len() == self.source_tables@.len()
        &&& forall|i: int|
            0 <= i < self.tables@.len() ==> (#[trigger] self.tables@[i]).schema
                == self.source_tables@[i] && self.tables@[i].wf()
        &&& self.views@.len() == self.source_views@.len()
        &&& forall|i: int|
            0 <= i < self.views@.len() ==> (#[trigger] self.views@[i]).schema
                == self.source_views@[i]
    }

    /// The first table named `name`.
    pub open spec fn table_named(&self, name: QualifiedName) -> Option<Arc<TableMetadata>> {
        if exists|i: int| 0 <= i < self.tables@.len() && (#[trigger] self.tables@[i]).schema.name.same(name) {
            Some(self.tables@[choose|i: int| 0 <= i < self.tables@.len() && (#[trigger] self.tables@[i]).schema.name.same(name)
                && forall|j: int| 0 <= j < i ==> !(#[trigger] self.tables@[j]).schema.name.same(name)])
        } else {
            None
        }
    }

    /// The first view named `name`.
    pub open spec fn view_named(&self, name: QualifiedName) -> Option<Arc<ViewMetadata>> {
        if exists|i: int| 0 <= i < self.views@.len() && (#[trigger] self.views@[i]).schema.name.same(name) {
            Some(self.views@[choose|i: int| 0 <= i < self.views@.len() && (#[trigger] self.views@[i]).schema.name.same(name)
                && forall|j: int| 0 <= j < i ==> !(#[trigger] self.views@[j]).schema.name.same(name)])
        } else {
            None
        }
    }

    /// Builds the metadata of `tables` and `views`. Tables of attached databases may
    /// not have file columns.
    pub fn build(tables: Vec<Table>, views: Vec<ViewSchema>) -> (r: Result<CacheState, SchemaLookupError>)
        ensures
            r is Ok <==> !any_untrackable(tables@),
            r matches Ok(s) ==> s.complete() && s.source_tables@ == tables@ && s.source_views@
                == views@,
            r matches Err(e) ==> e matches SchemaLookupError::FileColumnsOnAttachedDatabase(n) && exists|i: int|
                0 <= i < tables@.len() && untrackable(#[trigger] tables@[i]) && tables@[i].name.name@ == n@,
    {
        let ghost all_tables = tables@;
        let ghost all_views = views@;
        let mut metas: Vec<Arc<TableMetadata>> = Vec::new();
        let mut rest = tables;
        while rest.len() > 0
            invariant
                all_tables == tables@,
                rest@.len() <= all_tables.len(),
                rest@ == all_tables.subrange(all_tables.len() - rest@.len(), all_tables.len() as int),
                metas@.len() == all_tables.len() - rest@.len(),
                forall|i: int|
                    0 <= i < metas@.len() ==> (#[trigger] metas@[i]).schema == all_tables[i]
                        && metas@[i].wf(),
                forall|i: int| 0 <= i < metas@.len() ==> !untrackable(#[trigger] all_tables[i]),
            decreases rest@.len(),
        {
            let ghost k = all_tables.len() - rest@.len();
            let t = rest.remove(0);
            assert(all_tables[k] == t);
            assert(rest@ =~= all_tables.subrange(all_tables.len() - rest@.len(), all_tables.len() as int));
            let m = match build_table(t) {
                Ok(m) => m,
                Err(e) => {
                    assert(0 <= k < all_tables.len() && untrackable(all_tables[k]));
                    assert(e == SchemaLookupError::FileColumnsOnAttachedDatabase(all_tables[k].name.name));
                    return Err(e);
                },
            };
            metas.push(m);
        }
        proof {
            assert(!any_untrackable(all_tables));
        }
        let mut vmetas: Vec<Arc<ViewMetadata>> = Vec::new();
        let mut vrest = views;
        while vrest.len() > 0
            invariant
                all_views == views@,
                !any_untrackable(all_tables),
                all_tables == tables@,
                vrest@.len() <= all_views.len(),
                vrest@ == all_views.subrange(all_views.len() - vrest@.len(), all_views.len() as int),
                vmetas@.len() == all_views.len() - vrest@.len(),
                forall|i: int| 0 <= i < vmetas@.len() ==> (#[trigger] vmetas@[i]).schema == all_views[i],
            decreases vrest@.len(),
        {
            let ghost k = all_views.len() - vrest@.len();
            let v = vrest.remove(0);
            assert(all_views[k] == v);
            assert(vrest@ =~= all_views.subrange(all_views.len() - vrest@.len(), all_views.len() as int));
            vmetas.push(Arc::new(ViewMetadata::new(v)));
        }
        Ok(
            CacheState {
                tables: metas,
                views: vmetas,
                source_tables: Ghost(all_tables),
                source_views: Ghost(all_views),
            },
        )
    }

    /// The first table named `name`.
    pub fn get_table(&self, name: &QualifiedName) -> (r: Option<Arc<TableMetadata>>)
        ensures
            r == self.table_named(*name),
    {
        let mut i: usize = 0;
        while i < self.tables.len()
            invariant
                i <= self.tables@.len(),
                forall|j: int| 0 <= j < i ==> !(#[trigger] self.tables@[j]).schema.name.same(*name),
            decreases self.tables@.len() - i,
        {
            if self.tables[i].schema.name.equals(name) {
                let ghost k = i as int;
                let ghost c = choose|q: int| 0 <= q < self.tables@.len() && (#[trigger] self.tables@[q]).schema.name.same(*name)
                    && forall|j: int| 0 <= j < q ==> !(#[trigger] self.tables@[j]).schema.name.same(*name);
                assert(0 <= k < self.tables@.len() && self.tables@[k].schema.name.same(*name));
                assert(c == k) by {
                    if c < k {
                    } else if c > k {
                    }
                }
                return Some(share(&self.tables[i]));
            }
            i = i + 1;
        }
        None
    }

    /// The first view named `name`.
    pub fn get_view(&self, name: &QualifiedName) -> (r: Option<Arc<ViewMetadata>>)
        ensures
            r == self.view_named(*name),
    {
        let mut i: usize = 0;
        while i < self.views.len()
            invariant
                i <= self.views@.len(),
                forall|j: int| 0 <= j < i ==> !(#[trigger] self.views@[j]).schema.name.same(*name),
            decreases self.views@.len() - i,
        {
            if self.views[i].schema.name.equals(name) {
                let ghost k = i as int;
                let ghost c = choose|q: int| 0 <= q < self.views@.len() && (#[trigger] self.views@[q]).schema.name.same(*name)
                    && forall|j: int| 0 <= j < q ==> !(#[trigger] self.views@[j]).schema.name.same(*name);
                assert(0 <= k < self.views@.len() && self.views@[k].schema.name.same(*name));
                assert(c == k) by {
                    if c < k {
                    } else if c > k {
                    }
                }
                return Some(share(&self.views[i]));
            }
            i = i + 1;
        }
        None
    }
}

proof fn lemma_file_columns_upto(t: TableMetadata, k: int)
    requires
        0 <= k,
    ensures
        t.file_columns_upto(k).len() == 0 <==> forall|j: int| 0 <= j < k ==> !t.is_file_column(j),
    decreases k,
{
    if k > 0 {
        lemma_file_columns_upto(t, k - 1);
    }
}

/// A table's metadata refuses its triggers exactly when the table cannot be tracked.
proof fn lemma_untrackable(m: TableMetadata)
    requires
        m.wf(),
    ensures
        untrackable(m.schema) <==> {
            &&& !is_main_db(opt_str_view(m.schema.name.database_schema))
            &&& m.file_columns_upto(m.schema.columns@.len() as int).len() > 0
        },
{
    reveal(untrackable);
    let n = m.schema.columns@.len() as int;
    lemma_file_columns_upto(m, n);
    m.lemma_wf_len();
    if m.file_columns_upto(n).len() > 0 {
        let j = choose|j: int| 0 <= j < n && m.is_file_column(j);
        m.lemma_wf_json(j);
        assert(is_file_meta(column_json_meta(m.schema.columns@[j].options@)));
    }
    if exists|j: int|
        0 <= j < n && is_file_meta(column_json_meta((#[trigger] m.schema.columns@[j]).options@)) {
        let j = choose|j: int|
            0 <= j < n && is_file_meta(column_json_meta((#[trigger] m.schema.columns@[j]).options@));
        m.lemma_wf_json(j);
        assert(m.is_file_column(j));
    }
}

fn build_table(t: Table) -> (r: Result<Arc<TableMetadata>, SchemaLookupError>)
    ensures
        r is Ok <==> !untrackable(t),
        r matches Ok(m) ==> m.schema == t && m.wf(),
        r matches Err(e) ==> e == SchemaLookupError::FileColumnsOnAttachedDatabase(t.name.name),
{
    let m = TableMetadata::new(t);
    let installable = file_trigger_statements(&m).is_ok();
    proof {
        lemma_untrackable(m);
    }
    if !installable {
        return Err(SchemaLookupError::FileColumnsOnAttachedDatabase(m.schema.name.name.clone()));
    }
    Ok(Arc::new(m))
}

/// The metadata of every table and view. A rebuild replaces the whole snapshot at once:
/// a reader holds the snapshot it looked in, which stays complete and valid while the
/// cache moves on to the next one.
pub struct SchemaMetadataCache {
    state: Arc<CacheState>,
}

impl SchemaMetadataCache {
    /// The snapshot installed now.
    pub closed spec fn installed(&self) -> CacheState {
        *self.state
    }

    /// The installed snapshot is complete.
    pub open spec fn wf(&self) -> bool {
        self.installed().complete()
    }

    /// Builds the cache from the schemas of all tables and views.
    pub fn new(tables: Vec<Table>, views: Vec<ViewSchema>) -> (r: Result<SchemaMetadataCache, SchemaLookupError>)
        ensures
            r is Ok <==> !any_untrackable(tables@),
            r matches Ok(c) ==> c.wf() && c.installed().source_tables@ == tables@
                && c.installed().source_views@ == views@,
    {
        let state = CacheState::build(tables, views)?;
        Ok(SchemaMetadataCache { state: Arc::new(state) })
    }

    /// A handle on the installed snapshot, which stays as it is across rebuilds.
    pub fn snapshot(&self) -> (r: Arc<CacheState>)
        ensures
            *r == self.installed(),
    {
        share(&self.state)
    }

    /// The metadata of the table named `name`, read from the installed snapshot.
    pub fn get_table(&self, name: &QualifiedName) -> (r: Option<Arc<TableMetadata>>)
        ensures
            r == self.installed().table_named(*name),
    {
        self.state.get_table(name)
    }

    /// The metadata of the view named `name`, read from the installed snapshot.
    pub fn get_view(&self, name: &QualifiedName) -> (r: Option<Arc<ViewMetadata>>)
        ensures
            r == self.installed().view_named(*name),
    {
        self.state.get_view(name)
    }

    /// Rebuilds the cache from the current schemas and swaps the new snapshot in whole.
    /// Where the schemas cannot be taken in, the cache keeps its previous snapshot.
    pub fn invalidate_all(&mut self, tables: Vec<Table>, views: Vec<ViewSchema>) -> (r: Result<(), SchemaLookupError>)
        requires
            old(self).wf(),
        ensures
            final(self).wf(),
            r is Ok <==> !any_untrackable(tables@),
            r is Ok ==> final(self).installed().source_tables@ == tables@
                && final(self).installed().source_views@ == views@,
            r is Err ==> final(self).installed() == old(self).installed(),
    {
        let next = CacheState::build(tables, views)?;
        self.state = Arc::new(next);
        Ok(())
    }
}

/// `"<db>"."__<table>__<column>__<kind>"`: the name of a file-deletion trigger.
pub open spec fn trigger_name(db: Seq<char>, table: Seq<char>, col: Seq<char>, update: bool) -> Seq<char> {
    quoted(db) + seq!['.'] + quoted(
        "__"@ + table + "__"@ + col + if update {
            "__update_trigger"@
        } else {
            "__delete_trigger"@
        },
    )
}

/// What a file-deletion trigger records: the table, the row, the column and the old
/// descriptor, in the deletion ledger.
pub open spec fn ledger_insert(table: Seq<char>, col: Seq<char>) -> Seq<char> {
    " BEGIN INSERT INTO _file_deletions (table_name, record_rowid, column_name, json) VALUES ('"@ + table + "', OLD._rowid_, '"@ + col + "', OLD."@ + quoted(col) + "); END"@
}

/// The statements that (re)install the triggers of one file column: after an update
/// that replaces a descriptor, and after a delete of a row that has one, the old
/// descriptor is recorded for deletion.
pub open spec fn column_trigger_sql(db: Seq<char>, table: Seq<char>, escaped: Seq<char>, col: Seq<char>) -> Seq<Seq<char>> {
    seq![
        "DROP TRIGGER IF EXISTS "@ + trigger_name(db, table, col, true),
        "CREATE TRIGGER IF NOT EXISTS "@ + trigger_name(db, table, col, true) + " AFTER UPDATE ON "@ + escaped + " WHEN OLD."@
            + quoted(col) + " IS NOT NULL"@ + " AND OLD."@ + quoted(col) + " != NEW."@ + quoted(col)
            + ledger_insert(escaped, col),
        "DROP TRIGGER IF EXISTS "@ + trigger_name(db, table, col, false),
        "CREATE TRIGGER IF NOT EXISTS "@ + trigger_name(db, table, col, false) + " AFTER DELETE ON "@ + escaped + " WHEN OLD."@
            + quoted(col) + " IS NOT NULL"@ + ledger_insert(escaped, col),
    ]
}

/// The trigger statements of the first `k` file columns of `t`.
pub open spec fn triggers_upto(t: TableMetadata, db: Seq<char>, idxs: Seq<int>, k: int) -> Seq<Seq<char>>
    decreases k,
{
    if k <= 0 {
        seq![]
    } else {
        triggers_upto(t, db, idxs, k - 1) + column_trigger_sql(
            db,
            t.schema.name.name@,
            escaped_name(t.schema.name),
            t.schema.columns@[idxs[k - 1]].name@,
        )
    }
}

fn trigger_name_exec(db: &str, table: &str, col: &str, update: bool) -> (r: String)
    ensures
        r@ == trigger_name(db@, table@, col@, update),
{
    proof {
        reveal_strlit("__");
        reveal_strlit("__update_trigger");
        reveal_strlit("__delete_trigger");
    }
    let mut inner = String::new();
    inner.append("__");
    inner.append(table);
    inner.append("__");
    inner.append(col);
    if update {
        inner.append("__update_trigger");
    } else {
        inner.append("__delete_trigger");
    }
    let mut s = String::new();
    write_quoted(&mut s, db);
    push_char(&mut s, '.');
    write_quoted(&mut s, inner.as_str());
    assert(s@ =~= trigger_name(db@, table@, col@, update));
    s
}

fn ledger_insert_exec(out: &mut String, table: &str, col: &str)
    ensures
        final(out)@ == old(out)@ + ledger_insert(table@, col@),
{
    proof {
        reveal_strlit(" BEGIN INSERT INTO _file_deletions (table_name, record_rowid, column_name, json) VALUES ('");
        reveal_strlit("', OLD._rowid_, '");
        reveal_strlit("', OLD.");
        reveal_strlit("); END");
    }
    let ghost start = out@;
    out.append(" BEGIN INSERT INTO _file_deletions (table_name, record_rowid, column_name, json) VALUES ('");
    out.append(table);
    out.append("', OLD._rowid_, '");
    out.append(col);
    out.append("', OLD.");
    write_quoted(out, col);
    out.append("); END");
    assert(out@ =~= start + ledger_insert(table@, col@));
}

fn column_triggers(db: &str, table: &str, escaped: &str, col: &str) -> (r: Vec<String>)
    ensures
        r@.map_values(|s: String| s@) == column_trigger_sql(db@, table@, escaped@, col@),
{
    proof {
        reveal_strlit("DROP TRIGGER IF EXISTS ");
        reveal_strlit("CREATE TRIGGER IF NOT EXISTS ");
        reveal_strlit(" AFTER UPDATE ON ");
        reveal_strlit(" AFTER DELETE ON ");
        reveal_strlit(" WHEN OLD.");
        reveal_strlit(" IS NOT NULL");
        reveal_strlit(" AND OLD.");
        reveal_strlit(" != NEW.");
    }
    let upd = trigger_name_exec(db, table, col, true);
    let del = trigger_name_exec(db, table, col, false);
    let mut drop_upd = String::new();
    drop_upd.append("DROP TRIGGER IF EXISTS ");
    drop_upd.append(upd.as_str());
    let mut create_upd = String::new();
    create_upd.append("CREATE TRIGGER IF NOT EXISTS ");
    create_upd.append(upd.as_str());
    create_upd.append(" AFTER UPDATE ON ");
    create_upd.append(escaped);
    create_upd.append(" WHEN OLD.");
    write_quoted(&mut create_upd, col);
    create_upd.append(" IS NOT NULL");
    create_upd.append(" AND OLD.");
    write_quoted(&mut create_upd, col);
    create_upd.append(" != NEW.");
    write_quoted(&mut create_upd, col);
    ledger_insert_exec(&mut create_upd, escaped, col);
    let mut drop_del = String::new();
    drop_del.append("DROP TRIGGER IF EXISTS ");
    drop_del.append(del.as_str());
    let mut create_del = String::new();
    create_del.append("CREATE TRIGGER IF NOT EXISTS ");
    create_del.append(del.as_str());
    create_del.append(" AFTER DELETE ON ");
    create_del.append(escaped);
    create_del.append(" WHEN OLD.");
    write_quoted(&mut create_del, col);
    create_del.append(" IS NOT NULL");
    ledger_insert_exec(&mut create_del, escaped, col);
    let ghost parts = column_trigger_sql(db@, table@, escaped@, col@);
    assert(drop_upd@ =~= parts[0]);
    assert(create_upd@ =~= parts[1]);
    assert(drop_del@ =~= parts[2]);
    assert(create_del@ =~= parts[3]);
    let mut r: Vec<String> = Vec::new();
    r.push(drop_upd);
    r.push(create_upd);
    r.push(drop_del);
    r.push(create_del);
    assert(r@.map_values(|s: String| s@) =~= parts);
    r
}

/// The statements that install a table's file-deletion triggers, in column order; none
/// for a table without file columns. A table of an attached database with file columns
/// is refused: its triggers could not reach the deletion ledger.
pub fn file_trigger_statements(metadata: &TableMetadata) -> (r: Result<Vec<String>, ()>)
    requires
        metadata.wf(),
    ensures
        ({
            let idxs = metadata.file_columns_upto(metadata.schema.columns@.len() as int);
            let db = match metadata.schema.name.database_schema {
                Some(d) => d@,
                None => "main"@,
            };
            if idxs.len() == 0 {
                r matches Ok(v) && v@.len() == 0
            } else if !is_main_db(opt_str_view(metadata.schema.name.database_schema)) {
                r is Err
            } else {
                r matches Ok(v) && v@.map_values(|s: String| s@) == triggers_upto(*metadata, db, idxs, idxs.len() as int)
            }
        }),
{
    proof {
        reveal_strlit("main");
        assert("main"@ =~= seq!['m', 'a', 'i', 'n']);
    }
    let idxs = metadata.file_column_indexes();
    let ghost is = metadata.file_columns_upto(metadata.schema.columns@.len() as int);
    assert(idxs@.len() == is.len());
    if idxs.len() == 0 {
        return Ok(Vec::new());
    }
    let db: &str = match &metadata.schema.name.database_schema {
        None => "main",
        Some(db) => db.as_str(),
    };
    if !str_eq(db, "main") {
        return Err(());
    }
    let escaped = metadata.schema.name.escaped_string();
    let mut out: Vec<String> = Vec::new();
    let mut k: usize = 0;
    while k < idxs.len()
        invariant
            k <= idxs@.len(),
            idxs@.len() == is.len(),
            is == metadata.file_columns_upto(metadata.schema.columns@.len() as int),
            idxs@.map_values(|x: usize| x as int) == is,
            forall|j: int| 0 <= j < idxs@.len() ==> (#[trigger] idxs@[j]) < metadata.schema.columns@.len(),
            escaped@ == escaped_name(metadata.schema.name),
            out@.map_values(|s: String| s@) == triggers_upto(*metadata, db@, is, k as int),
        decreases idxs@.len() - k,
    {
        let ghost before = out@;
        assert(is[k as int] == idxs@[k as int] as int);
        let col = metadata.schema.columns[idxs[k]].name.as_str();
        let mut more = column_triggers(db, metadata.schema.name.name.as_str(), escaped.as_str(), col);
        out.append(&mut more);
        assert(out@.map_values(|s: String| s@) =~= triggers_upto(*metadata, db@, is, k as int + 1));
        k = k + 1;
    }
    Ok(out)
}

} // verus!
