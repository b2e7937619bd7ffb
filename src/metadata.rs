//! Metadata derived from a table's schema: its record key, the columns that hold
//! schema-checked JSON and the columns that hold file descriptors.
use vstd::prelude::*;

use crate::schema::{column_index, find_column, ColumnDataType, ColumnOption, Table};

verus! {

/// The JSON schema a column's values must satisfy.
#[derive(Debug, Clone)]
pub enum JsonColumnMetadata {
    /// A schema registered under this name.
    SchemaName(String),
    /// A schema given inline, as its JSON text.
    Pattern(String),
}

pub enum JsonMeta {
    SchemaName(Seq<char>),
    Pattern(Seq<char>),
}

impl View for JsonColumnMetadata {
    type V = JsonMeta;

    open spec fn view(&self) -> JsonMeta {
        match self {
            JsonColumnMetadata::SchemaName(n) => JsonMeta::SchemaName(n@),
            JsonColumnMetadata::Pattern(p) => JsonMeta::Pattern(p@),
        }
    }
}

pub open spec fn opt_meta_view(m: Option<JsonColumnMetadata>) -> Option<JsonMeta> {
    match m {
        Some(j) => Some(j@),
        None => None,
    }
}

#[derive(Debug, Clone)]
pub struct ColumnMetadata {
    pub json: Option<JsonColumnMetadata>,
}

/// The name of the schema of a single file descriptor column.
pub open spec fn file_upload_name() -> Seq<char> {
    seq!['s', 't', 'd', '.', 'F', 'i', 'l', 'e', 'U', 'p', 'l', 'o', 'a', 'd']
}

/// The name of the schema of a file descriptor list column.
pub open spec fn file_uploads_name() -> Seq<char> {
    file_upload_name().push('s')
}

pub open spec fn check_fn_prefix() -> Seq<char> {
    seq!['j', 's', 'o', 'n', 's', 'c', 'h', 'e', 'm', 'a', '(', '\'']
}

pub open spec fn check_matches_prefix() -> Seq<char> {
    seq![
        'j', 's', 'o', 'n', 's', 'c', 'h', 'e', 'm', 'a', '_', 'm', 'a', 't', 'c', 'h', 'e', 's', '(', '\'',
    ]
}

/// The position of the first `'` in `s` at or after `k`.
pub open spec fn next_quote(s: Seq<char>, k: int) -> Option<int> {
    if exists|j: int| k <= j < s.len() && s[j] == '\'' {
        Some(choose|j: int| k <= j < s.len() && s[j] == '\'' && forall|m: int| k <= m < j ==> s[m] != '\'')
    } else {
        None
    }
}

/// The first quoted argument of `s` after the prefix `p`, if `s` starts with `p`.
pub open spec fn quoted_argument(s: Seq<char>, p: Seq<char>) -> Option<Seq<char>> {
    if p.len() <= s.len() && s.subrange(0, p.len() as int) == p {
        match next_quote(s, p.len() as int) {
            Some(j) => Some(s.subrange(p.len() as int, j)),
            None => None,
        }
    } else {
        None
    }
}

/// The schema that a `CHECK` expression holds a column's JSON to:
/// `jsonschema('<name>', ...)` or `jsonschema_matches('<schema>', ...)`.
pub open spec fn check_json_meta(check: Seq<char>) -> Option<JsonMeta> {
    match quoted_argument(check, check_fn_prefix()) {
        Some(n) => Some(JsonMeta::SchemaName(n)),
        None => match quoted_argument(check, check_matches_prefix()) {
            Some(p) => Some(JsonMeta::Pattern(p)),
            None => None,
        },
    }
}

/// The JSON schema of the first `k` options that name one.
pub open spec fn options_json_meta(opts: Seq<ColumnOption>, k: int) -> Option<JsonMeta>
    decreases k,
{
    if k <= 0 || k > opts.len() {
        None
    } else {
        match options_json_meta(opts, k - 1) {
            Some(m) => Some(m),
            None => match opts[k - 1] {
                ColumnOption::Check(c) => check_json_meta(c@),
                _ => None,
            },
        }
    }
}

pub open spec fn column_json_meta(opts: Seq<ColumnOption>) -> Option<JsonMeta> {
    options_json_meta(opts, opts.len() as int)
}

pub open spec fn is_file_meta(m: Option<JsonMeta>) -> bool {
    m == Some(JsonMeta::SchemaName(file_upload_name())) || m == Some(
        JsonMeta::SchemaName(file_uploads_name()),
    )
}

pub open spec fn has_primary_key(opts: Seq<ColumnOption>) -> bool {
    exists|i: int| 0 <= i < opts.len() && (#[trigger] opts[i]) == (ColumnOption::Unique { is_primary: true })
}

/// A column that can key records: a single-column primary key of type `INTEGER` or
/// `BLOB`.
pub open spec fn is_record_key(t: Table, i: int) -> bool {
    &&& 0 <= i < t.columns@.len()
    &&& has_primary_key(t.columns@[i].options@)
    &&& (t.columns@[i].data_type == ColumnDataType::Integer || t.columns@[i].data_type
        == ColumnDataType::Blob)
}

/// The first column that can key records.
pub open spec fn record_key(t: Table) -> Option<int> {
    if exists|i: int| is_record_key(t, i) {
        Some(choose|i: int| is_record_key(t, i) && forall|j: int| 0 <= j < i ==> !is_record_key(t, j))
    } else {
        None
    }
}

/// A table's schema with what is derived from it.
#[derive(Debug, Clone)]
pub struct TableMetadata {
    pub schema: Table,
    /// One entry per column, in column order.
    pub column_metadata: Vec<ColumnMetadata>,
    /// The column that keys records, if the table has one.
    pub record_pk_column: Option<usize>,
}

impl TableMetadata {
    /// The derived fields agree with the schema.
    #[verifier::opaque]
    pub open spec fn wf(&self) -> bool {
        &&& self.column_metadata@.len() == self.schema.columns@.len()
        &&& forall|i: int|
            0 <= i < self.column_metadata@.len() ==> opt_meta_view(
                (#[trigger] self.column_metadata@[i]).json,
            ) == column_json_meta(self.schema.columns@[i].options@)
        &&& match self.record_pk_column {
            Some(i) => record_key(self.schema) == Some(i as int) && is_record_key(self.schema, i as int),
            None => record_key(self.schema) is None,
        }
    }

    /// One metadata entry per column.
    pub proof fn lemma_wf_len(&self)
        requires
            self.wf(),
        ensures
            self.column_metadata@.len() == self.schema.columns@.len(),
    {
        reveal(TableMetadata::wf);
    }

    /// The JSON schema of column `i` is the one its constraints name.
    pub proof fn lemma_wf_json(&self, i: int)
        requires
            self.wf(),
            0 <= i < self.schema.columns@.len(),
        ensures
            self.json_meta(i) == column_json_meta(self.schema.columns@[i].options@),
    {
        reveal(TableMetadata::wf);
    }

    /// The record key is the first column that can key records.
    pub proof fn lemma_wf_key(&self)
        requires
            self.wf(),
        ensures
            self.record_pk_column matches Some(i) ==> record_key(self.schema) == Some(i as int)
                && i < self.schema.columns@.len() && is_record_key(self.schema, i as int),
            self.record_pk_column is None ==> record_key(self.schema) is None,
    {
        reveal(TableMetadata::wf);
    }

    /// The positions of the file columns among the first `k` columns, in order.
    pub open spec fn file_columns_upto(&self, k: int) -> Seq<int>
        decreases k,
    {
        if k <= 0 {
            seq![]
        } else if self.is_file_column(k - 1) {
            self.file_columns_upto(k - 1).push(k - 1)
        } else {
            self.file_columns_upto(k - 1)
        }
    }

    pub open spec fn json_meta(&self, i: int) -> Option<JsonMeta> {
        opt_meta_view(self.column_metadata@[i].json)
    }

    /// Whether column `i` holds file descriptors.
    pub open spec fn is_file_column(&self, i: int) -> bool {
        is_file_meta(self.json_meta(i))
    }

    /// Derives the metadata of `table`.
    pub fn new(table: Table) -> (r: TableMetadata)
        ensures
            r.wf(),
            r.schema == table,
    {
        let mut metas: Vec<ColumnMetadata> = Vec::new();
        let mut i: usize = 0;
        while i < table.columns.len()
            invariant
                i <= table.columns@.len(),
                metas@.len() == i,
                forall|j: int|
                    0 <= j < i ==> opt_meta_view((#[trigger] metas@[j]).json) == column_json_meta(
                        table.columns@[j].options@,
                    ),
            decreases table.columns@.len() - i,
        {
            let json = json_metadata_of_options(&table.columns[i].options);
            metas.push(ColumnMetadata { json });
            i = i + 1;
        }
        let pk = find_record_key(&table);
        let r = TableMetadata { schema: table, column_metadata: metas, record_pk_column: pk };
        assert(r.wf()) by {
            reveal(TableMetadata::wf);
        }
        r
    }

    /// The position of the column named `name`.
    pub fn column_by_name(&self, name: &str) -> (r: Option<usize>)
        ensures
            r matches Some(i) ==> column_index(self.schema.columns@, name@) == Some(i as int) && i
                < self.schema.columns@.len(),
            r is None ==> column_index(self.schema.columns@, name@) is None,
    {
        find_column(&self.schema.columns, name)
    }

    /// The positions of the columns that hold file descriptors, in column order.
    pub fn file_column_indexes(&self) -> (r: Vec<usize>)
        requires
            self.wf(),
        ensures
            r@.map_values(|x: usize| x as int) == self.file_columns_upto(self.schema.columns@.len() as int),
            forall|k: int| 0 <= k < r@.len() ==> self.is_file_column(#[trigger] r@[k] as int)
                && r@[k] < self.schema.columns@.len(),
            forall|i: int|
                0 <= i < self.schema.columns@.len() && self.is_file_column(i) ==> r@.contains(
                    i as usize,
                ),
            forall|a: int, b: int| 0 <= a < b < r@.len() ==> r@[a] < r@[b],
    {
        proof {
            self.lemma_wf_len();
        }
        let mut r: Vec<usize> = Vec::new();
        let mut i: usize = 0;
        while i < self.column_metadata.len()
            invariant
                i <= self.column_metadata@.len(),
                self.column_metadata@.len() == self.schema.columns@.len(),
                forall|k: int| 0 <= k < r@.len() ==> self.is_file_column(#[trigger] r@[k] as int)
                    && r@[k] < i,
                forall|j: int| 0 <= j < i && self.is_file_column(j) ==> r@.contains(j as usize),
                forall|a: int, b: int| 0 <= a < b < r@.len() ==> r@[a] < r@[b],
                r@.map_values(|x: usize| x as int) == self.file_columns_upto(i as int),
            decreases self.column_metadata@.len() - i,
        {
            let ghost old_r = r@;
            if is_file_json(&self.column_metadata[i].json) {
                r.push(i);
                assert(r@.map_values(|x: usize| x as int) =~= old_r.map_values(|x: usize| x as int).push(
                    i as int,
                ));
                assert(r@ == old_r.push(i));
                assert(r@[r@.len() - 1] == i);
                assert forall|j: int| 0 <= j < i + 1 && self.is_file_column(j) implies r@.contains(
                    j as usize,
                ) by {
                    if j < i {
                        assert(old_r.contains(j as usize));
                        let k = choose|k: int| 0 <= k < old_r.len() && old_r[k] == j as usize;
                        assert(r@[k] == j as usize);
                    }
                }
            }
            i = i + 1;
        }
        r
    }
}

/// Whether `m` names one of the file descriptor schemas.
pub fn is_file_json(m: &Option<JsonColumnMetadata>) -> (r: bool)
    ensures
        r == is_file_meta(opt_meta_view(*m)),
{
    proof {
        reveal_strlit("std.FileUpload");
        reveal_strlit("std.FileUploads");
        assert("std.FileUpload"@ =~= file_upload_name());
        assert("std.FileUploads"@ =~= file_uploads_name());
    }
    match m {
        Some(JsonColumnMetadata::SchemaName(n)) => crate::schema::str_eq(
            n.as_str(),
            "std.FileUpload",
        ) || crate::schema::str_eq(n.as_str(), "std.FileUploads"),
        _ => false,
    }
}

fn find_record_key(t: &Table) -> (r: Option<usize>)
    ensures
        r matches Some(i) ==> record_key(*t) == Some(i as int) && is_record_key(*t, i as int),
        r is None ==> record_key(*t) is None,
{
    let mut i: usize = 0;
    while i < t.columns.len()
        invariant
            i <= t.columns@.len(),
            forall|j: int| 0 <= j < i ==> !is_record_key(*t, j),
        decreases t.columns@.len() - i,
    {
        let c = &t.columns[i];
        let typed = c.data_type == ColumnDataType::Integer || c.data_type == ColumnDataType::Blob;
        if typed && is_primary_key(&c.options) {
            assert(is_record_key(*t, i as int));
            let ghost w = choose|m: int| is_record_key(*t, m) && forall|j: int| 0 <= j < m ==> !is_record_key(*t, j);
            assert(w == i as int) by {
                if w < i {
                } else if w > i {
                }
            }
            return Some(i);
        }
        i = i + 1;
    }
    None
}

fn is_primary_key(opts: &Vec<ColumnOption>) -> (r: bool)
    ensures
        r == has_primary_key(opts@),
{
    let mut i: usize = 0;
    while i < opts.len()
        invariant
            i <= opts@.len(),
            forall|j: int| 0 <= j < i ==> opts@[j] != (ColumnOption::Unique { is_primary: true }),
        decreases opts@.len() - i,
    {
        if let ColumnOption::Unique { is_primary } = &opts[i] {
            if *is_primary {
                return true;
            }
        }
        i = i + 1;
    }
    false
}

fn json_metadata_of_options(opts: &Vec<ColumnOption>) -> (r: Option<JsonColumnMetadata>)
    ensures
        opt_meta_view(r) == column_json_meta(opts@),
{
    let mut i: usize = 0;
    while i < opts.len()
        invariant
            i <= opts@.len(),
            options_json_meta(opts@, i as int) is None,
        decreases opts@.len() - i,
    {
        if let ColumnOption::Check(c) = &opts[i] {
            let m = json_metadata_of_check(c.as_str());
            if m.is_some() {
                proof {
                    lemma_options_json_meta_found(opts@, i as int + 1);
                }
                return m;
            }
        }
        i = i + 1;
    }
    None
}

proof fn lemma_options_json_meta_found(opts: Seq<ColumnOption>, k: int)
    requires
        1 <= k <= opts.len(),
        options_json_meta(opts, k) is Some,
    ensures
        options_json_meta(opts, opts.len() as int) == options_json_meta(opts, k),
    decreases opts.len() - k,
{
    if k < opts.len() {
        lemma_options_json_meta_found(opts, k + 1);
    }
}

/// The JSON schema a `CHECK` expression names, if any.
pub fn json_metadata_of_check(check: &str) -> (r: Option<JsonColumnMetadata>)
    ensures
        opt_meta_view(r) == check_json_meta(check@),
{
    proof {
        reveal_strlit("jsonschema('");
        reveal_strlit("jsonschema_matches('");
        assert("jsonschema('"@ =~= check_fn_prefix());
        assert("jsonschema_matches('"@ =~= check_matches_prefix());
    }
    match quoted_argument_exec(check, "jsonschema('") {
        Some(n) => Some(JsonColumnMetadata::SchemaName(n)),
        None => match quoted_argument_exec(check, "jsonschema_matches('") {
            Some(p) => Some(JsonColumnMetadata::Pattern(p)),
            None => None,
        },
    }
}

fn quoted_argument_exec(s: &str, p: &str) -> (r: Option<String>)
    ensures
        r matches Some(a) ==> quoted_argument(s@, p@) == Some(a@),
        r is None ==> quoted_argument(s@, p@) is None,
{
    let n = s.unicode_len();
    let m = p.unicode_len();
    if m > n {
        return None;
    }
    let mut i: usize = 0;
    while i < m
        invariant
            n == s@.len(),
            m == p@.len(),
            m <= n,
            i <= m,
            forall|j: int| 0 <= j < i ==> s@[j] == p@[j],
        decreases m - i,
    {
        if s.get_char(i) != p.get_char(i) {
            assert(s@.subrange(0, m as int)[i as int] != p@[i as int]);
            return None;
        }
        i = i + 1;
    }
    assert(s@.subrange(0, m as int) =~= p@);
    let mut j: usize = m;
    let mut arg = String::new();
    while j < n
        invariant
            n == s@.len(),
            m <= j <= n,
            forall|k: int| m <= k < j ==> s@[k] != '\'',
            arg@ == s@.subrange(m as int, j as int),
            m == p@.len(),
            s@.subrange(0, m as int) == p@,
        decreases n - j,
    {
        let c = s.get_char(j);
        if c == '\'' {
            let ghost w = choose|q: int| m <= q < s@.len() && s@[q] == '\'' && forall|k: int| m <= k < q ==> s@[k] != '\'';
            assert(m <= j < s@.len() && s@[j as int] == '\'');
            assert(w == j as int) by {
                if w < j {
                } else if w > j {
                }
            }
            return Some(arg);
        }
        crate::value::push_char(&mut arg, c);
        assert(arg@ =~= s@.subrange(m as int, j as int + 1));
        j = j + 1;
    }
    None
}

} // verus!
