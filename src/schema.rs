//! Tables, views and columns as the schema catalogue describes them.
use vstd::prelude::*;

use crate::value::push_char;

verus! {

/// A table or view name, with the attached database it lives in, if named.
#[derive(Debug, Clone)]
pub struct QualifiedName {
    pub name: String,
    pub database_schema: Option<String>,
}

/// The declared type of a column: the strict storage types, the JSON types and the
/// type names that map onto an affinity.
#[derive(Debug, Clone, Copy, PartialEq, Eq, Structural)]
pub enum ColumnDataType {
    Null,
    Any,
    Blob,
    Text,
    Integer,
    Real,
    Numeric,
    JSON,
    JSONB,
    Int,
    TinyInt,
    SmallInt,
    MediumInt,
    BigInt,
    UnignedBigInt,
    Int2,
    Int4,
    Int8,
    Character,
    Varchar,
    VaryingCharacter,
    NChar,
    NativeCharacter,
    NVarChar,
    Clob,
    Double,
    DoublePrecision,
    Float,
    Boolean,
    Decimal,
    Date,
    DateTime,
}

/// How a string value is read for a column of a given type.
pub enum Affinity {
    Null,
    Text,
    Blob,
    Integer,
    Real,
    /// JSON stored in its binary form: the string's bytes.
    JsonBlob,
}

pub open spec fn affinity(t: ColumnDataType) -> Affinity {
    match t {
        ColumnDataType::Null => Affinity::Null,
        ColumnDataType::Any | ColumnDataType::Text | ColumnDataType::JSON
        | ColumnDataType::Character | ColumnDataType::Varchar
        | ColumnDataType::VaryingCharacter | ColumnDataType::NChar
        | ColumnDataType::NativeCharacter | ColumnDataType::NVarChar
        | ColumnDataType::Clob => Affinity::Text,
        ColumnDataType::Blob => Affinity::Blob,
        ColumnDataType::JSONB => Affinity::JsonBlob,
        ColumnDataType::Real | ColumnDataType::Double | ColumnDataType::DoublePrecision
        | ColumnDataType::Float => Affinity::Real,
        _ => Affinity::Integer,
    }
}

/// The type's name in a column definition.
pub open spec fn declared_type_text(t: ColumnDataType) -> Seq<char> {
    match t {
        ColumnDataType::Null => seq![],
        ColumnDataType::Any => seq!['A', 'N', 'Y'],
        ColumnDataType::Blob => seq!['B', 'L', 'O', 'B'],
        ColumnDataType::Text => seq!['T', 'E', 'X', 'T'],
        ColumnDataType::Integer => seq!['I', 'N', 'T', 'E', 'G', 'E', 'R'],
        ColumnDataType::Real => seq!['R', 'E', 'A', 'L'],
        ColumnDataType::Numeric => seq!['N', 'U', 'M', 'E', 'R', 'I', 'C'],
        ColumnDataType::JSON => seq!['J', 'S', 'O', 'N'],
        ColumnDataType::JSONB => seq!['J', 'S', 'O', 'N', 'B'],
        ColumnDataType::Int => seq!['I', 'N', 'T'],
        ColumnDataType::TinyInt => seq!['T', 'I', 'N', 'Y', 'I', 'N', 'T'],
        ColumnDataType::SmallInt => seq!['S', 'M', 'A', 'L', 'L', 'I', 'N', 'T'],
        ColumnDataType::MediumInt => seq!['M', 'E', 'D', 'I', 'U', 'M', 'I', 'N', 'T'],
        ColumnDataType::BigInt => seq!['B', 'I', 'G', 'I', 'N', 'T'],
        ColumnDataType::UnignedBigInt => seq!['U', 'N', 'S', 'I', 'G', 'N', 'E', 'D', ' ', 'B', 'I', 'G', ' ', 'I', 'N', 'T'],
        ColumnDataType::Int2 => seq!['I', 'N', 'T', '2'],
        ColumnDataType::Int4 => seq!['I', 'N', 'T', '4'],
        ColumnDataType::Int8 => seq!['I', 'N', 'T', '8'],
        ColumnDataType::Character => seq!['C', 'H', 'A', 'R', 'A', 'C', 'T', 'E', 'R'],
        ColumnDataType::Varchar => seq!['V', 'A', 'R', 'C', 'H', 'A', 'R'],
        ColumnDataType::VaryingCharacter => seq!['V', 'A', 'R', 'Y', 'I', 'N', 'G', ' ', 'C', 'H', 'A', 'R', 'A', 'C', 'T', 'E', 'R'],
        ColumnDataType::NChar => seq!['N', 'C', 'H', 'A', 'R'],
        ColumnDataType::NativeCharacter => seq!['N', 'A', 'T', 'I', 'V', 'E', ' ', 'C', 'H', 'A', 'R', 'A', 'C', 'T', 'E', 'R'],
        ColumnDataType::NVarChar => seq!['N', 'V', 'A', 'R', 'C', 'H', 'A', 'R'],
        ColumnDataType::Clob => seq!['C', 'L', 'O', 'B'],
        ColumnDataType::Double => seq!['D', 'O', 'U', 'B', 'L', 'E'],
        ColumnDataType::DoublePrecision => seq!['D', 'O', 'U', 'B', 'L', 'E', ' ', 'P', 'R', 'E', 'C', 'I', 'S', 'I', 'O', 'N'],
        ColumnDataType::Float => seq!['F', 'L', 'O', 'A', 'T'],
        ColumnDataType::Boolean => seq!['B', 'O', 'O', 'L', 'E', 'A', 'N'],
        ColumnDataType::Decimal => seq!['D', 'E', 'C', 'I', 'M', 'A', 'L'],
        ColumnDataType::Date => seq!['D', 'A', 'T', 'E'],
        ColumnDataType::DateTime => seq!['D', 'A', 'T', 'E', 'T', 'I', 'M', 'E'],
    }
}

impl ColumnDataType {
    /// The type's name in a column definition.
    pub fn as_str(&self) -> (r: &'static str)
        ensures
            r@ == declared_type_text(*self),
    {
        proof {
            reveal_strlit("");
            reveal_strlit("ANY");
            reveal_strlit("BLOB");
            reveal_strlit("TEXT");
            reveal_strlit("INTEGER");
            reveal_strlit("REAL");
            reveal_strlit("NUMERIC");
            reveal_strlit("JSON");
            reveal_strlit("JSONB");
            reveal_strlit("INT");
            reveal_strlit("TINYINT");
            reveal_strlit("SMALLINT");
            reveal_strlit("MEDIUMINT");
            reveal_strlit("BIGINT");
            reveal_strlit("UNSIGNED BIG INT");
            reveal_strlit("INT2");
            reveal_strlit("INT4");
            reveal_strlit("INT8");
            reveal_strlit("CHARACTER");
            reveal_strlit("VARCHAR");
            reveal_strlit("VARYING CHARACTER");
            reveal_strlit("NCHAR");
            reveal_strlit("NATIVE CHARACTER");
            reveal_strlit("NVARCHAR");
            reveal_strlit("CLOB");
            reveal_strlit("DOUBLE");
            reveal_strlit("DOUBLE PRECISION");
            reveal_strlit("FLOAT");
            reveal_strlit("BOOLEAN");
            reveal_strlit("DECIMAL");
            reveal_strlit("DATE");
            reveal_strlit("DATETIME");
        }
        let r = match self {
            ColumnDataType::Null => "",
            ColumnDataType::Any => "ANY",
            ColumnDataType::Blob => "BLOB",
            ColumnDataType::Text => "TEXT",
            ColumnDataType::Integer => "INTEGER",
            ColumnDataType::Real => "REAL",
            ColumnDataType::Numeric => "NUMERIC",
            ColumnDataType::JSON => "JSON",
            ColumnDataType::JSONB => "JSONB",
            ColumnDataType::Int => "INT",
            ColumnDataType::TinyInt => "TINYINT",
            ColumnDataType::SmallInt => "SMALLINT",
            ColumnDataType::MediumInt => "MEDIUMINT",
            ColumnDataType::BigInt => "BIGINT",
            ColumnDataType::UnignedBigInt => "UNSIGNED BIG INT",
            ColumnDataType::Int2 => "INT2",
            ColumnDataType::Int4 => "INT4",
            ColumnDataType::Int8 => "INT8",
            ColumnDataType::Character => "CHARACTER",
            ColumnDataType::Varchar => "VARCHAR",
            ColumnDataType::VaryingCharacter => "VARYING CHARACTER",
            ColumnDataType::NChar => "NCHAR",
            ColumnDataType::NativeCharacter => "NATIVE CHARACTER",
            ColumnDataType::NVarChar => "NVARCHAR",
            ColumnDataType::Clob => "CLOB",
            ColumnDataType::Double => "DOUBLE",
            ColumnDataType::DoublePrecision => "DOUBLE PRECISION",
            ColumnDataType::Float => "FLOAT",
            ColumnDataType::Boolean => "BOOLEAN",
            ColumnDataType::Decimal => "DECIMAL",
            ColumnDataType::Date => "DATE",
            ColumnDataType::DateTime => "DATETIME",
        };
        assert(r@ =~= declared_type_text(*self));
        r
    }
}

/// A column constraint.
#[derive(Debug, Clone)]
pub enum ColumnOption {
    Null,
    NotNull,
    /// `DEFAULT <expr>`, the expression as written.
    Default(String),
    /// `UNIQUE`, or `PRIMARY KEY` where `is_primary`.
    Unique { is_primary: bool },
    /// `REFERENCES <foreign_table>(<referred_columns>)`.
    ForeignKey { foreign_table: String, referred_columns: Vec<String> },
    /// `CHECK(<expr>)`, the expression as written.
    Check(String),
}

#[derive(Debug, Clone)]
pub struct Column {
    pub name: String,
    pub data_type: ColumnDataType,
    pub options: Vec<ColumnOption>,
}

#[derive(Debug, Clone)]
pub struct Table {
    pub name: QualifiedName,
    pub columns: Vec<Column>,
    pub strict: bool,
    pub temporary: bool,
}

#[derive(Debug, Clone)]
pub struct ViewSchema {
    pub name: QualifiedName,
    /// The columns of the view's result, where they could be derived.
    pub columns: Option<Vec<Column>>,
    /// The tables the view reads from.
    pub tables: Vec<QualifiedName>,
    pub temporary: bool,
}

pub open spec fn opt_str_view(o: Option<String>) -> Option<Seq<char>> {
    match o {
        Some(s) => Some(s@),
        None => None,
    }
}

/// The position of the first column named `name`, if any.
pub open spec fn column_index(cols: Seq<Column>, name: Seq<char>) -> Option<int> {
    if exists|i: int| 0 <= i < cols.len() && (#[trigger] cols[i]).name@ == name {
        Some(choose|i: int| 0 <= i < cols.len() && (#[trigger] cols[i]).name@ == name && forall|j: int|
            0 <= j < i ==> (#[trigger] cols[j]).name@ != name)
    } else {
        None
    }
}

/// Whether some column is named `name`.
pub open spec fn has_column(cols: Seq<Column>, name: Seq<char>) -> bool {
    exists|i: int| 0 <= i < cols.len() && (#[trigger] cols[i]).name@ == name
}

pub open spec fn quoted(s: Seq<char>) -> Seq<char> {
    seq!['"'] + s + seq!['"']
}

/// `"db"."name"`, or `"name"` where no database is named.
pub open spec fn escaped_name(q: QualifiedName) -> Seq<char> {
    match q.database_schema {
        Some(db) => quoted(db@) + seq!['.'] + quoted(q.name@),
        None => quoted(q.name@),
    }
}

impl QualifiedName {
    pub open spec fn same(self, o: QualifiedName) -> bool {
        self.name@ == o.name@ && opt_str_view(self.database_schema) == opt_str_view(
            o.database_schema,
        )
    }

    /// Whether two names denote the same table.
    pub fn equals(&self, o: &QualifiedName) -> (r: bool)
        ensures
            r == self.same(*o),
    {
        if self.name != o.name {
            return false;
        }
        match (&self.database_schema, &o.database_schema) {
            (Some(a), Some(b)) => *a == *b,
            (None, None) => true,
            _ => false,
        }
    }

    /// The name quoted for use in a statement, with its database if named.
    pub fn escaped_string(&self) -> (r: String)
        ensures
            r@ == escaped_name(*self),
    {
        let mut s = String::new();
        match &self.database_schema {
            Some(db) => {
                s.append("\"");
                s.append(db.as_str());
                s.append("\".");
            },
            None => {},
        }
        s.append("\"");
        s.append(self.name.as_str());
        s.append("\"");
        proof {
            reveal_strlit("\"");
            reveal_strlit("\".");
            assert(s@ =~= escaped_name(*self));
        }
        s
    }
}

/// Finds the column named `name`.
pub fn find_column(cols: &Vec<Column>, name: &str) -> (r: Option<usize>)
    ensures
        r matches Some(i) ==> column_index(cols@, name@) == Some(i as int) && i < cols@.len()
            && has_column(cols@, name@),
        r is None ==> column_index(cols@, name@) is None && !has_column(cols@, name@),
{
    let mut i: usize = 0;
    while i < cols.len()
        invariant
            i <= cols@.len(),
            forall|j: int| 0 <= j < i ==> (#[trigger] cols@[j]).name@ != name@,
        decreases cols.len() - i,
    {
        if str_eq(cols[i].name.as_str(), name) {
            let ghost k = i as int;
            assert(0 <= k < cols@.len() && cols@[k].name@ == name@);
            let ghost c = choose|m: int| 0 <= m < cols@.len() && (#[trigger] cols@[m]).name@ == name@ && forall|j: int|
                0 <= j < m ==> (#[trigger] cols@[j]).name@ != name@;
            assert(forall|j: int| 0 <= j < k ==> (#[trigger] cols@[j]).name@ != name@);
            assert(c == k) by {
                if c < k {
                } else if c > k {
                }
            }
            return Some(i);
        }
        i = i + 1;
    }
    None
}

/// Character-wise equality of two strings.
pub fn str_eq(a: &str, b: &str) -> (r: bool)
    ensures
        r == (a@ == b@),
{
    let n = a.unicode_len();
    if n != b.unicode_len() {
        return false;
    }
    let mut i: usize = 0;
    while i < n
        invariant
            n == a@.len(),
            n == b@.len(),
            i <= n,
            forall|j: int| 0 <= j < i ==> a@[j] == b@[j],
        decreases n - i,
    {
        if a.get_char(i) != b.get_char(i) {
            return false;
        }
        i = i + 1;
    }
    assert(a@ =~= b@);
    true
}

pub open spec fn comma() -> Seq<char> {
    seq![',', ' ']
}

/// The first `k` names, each quoted, separated by `, `.
pub open spec fn quoted_list(names: Seq<Seq<char>>, k: int) -> Seq<char>
    decreases k,
{
    if k <= 0 {
        seq![]
    } else if k == 1 {
        quoted(names[0])
    } else {
        quoted_list(names, k - 1) + comma() + quoted(names[k - 1])
    }
}

/// The first `k` items separated by `, `.
pub open spec fn plain_list(items: Seq<Seq<char>>, k: int) -> Seq<char>
    decreases k,
{
    if k <= 0 {
        seq![]
    } else if k == 1 {
        items[0]
    } else {
        plain_list(items, k - 1) + comma() + items[k - 1]
    }
}

pub open spec fn string_seqs(v: Seq<String>) -> Seq<Seq<char>> {
    v.map_values(|s: String| s@)
}

/// Appends `s` in double quotes.
pub(crate) fn write_quoted(out: &mut String, s: &str)
    ensures
        final(out)@ == old(out)@ + quoted(s@),
{
    push_char(out, '"');
    out.append(s);
    push_char(out, '"');
    assert(out@ =~= old(out)@ + quoted(s@));
}

pub(crate) fn write_comma(out: &mut String)
    ensures
        final(out)@ == old(out)@ + comma(),
{
    push_char(out, ',');
    push_char(out, ' ');
    assert(out@ =~= old(out)@ + comma());
}


pub open spec fn option_text(o: ColumnOption) -> Seq<char> {
    match o {
        ColumnOption::Null => seq!['N', 'U', 'L', 'L'],
        ColumnOption::NotNull => seq!['N', 'O', 'T', ' ', 'N', 'U', 'L', 'L'],
        ColumnOption::Default(e) => seq!['D', 'E', 'F', 'A', 'U', 'L', 'T', ' '] + e@,
        ColumnOption::Unique { is_primary } => if is_primary {
            seq!['P', 'R', 'I', 'M', 'A', 'R', 'Y', ' ', 'K', 'E', 'Y']
        } else {
            seq!['U', 'N', 'I', 'Q', 'U', 'E']
        },
        ColumnOption::ForeignKey { foreign_table, referred_columns } => seq![
            'R',
            'E',
            'F',
            'E',
            'R',
            'E',
            'N',
            'C',
            'E',
            'S',
            ' ',
        ] + quoted(foreign_table@) + if referred_columns@.len() == 0 {
            seq![]
        } else {
            seq!['('] + quoted_list(string_seqs(referred_columns@), referred_columns@.len() as int)
                + seq![')']
        },
        ColumnOption::Check(e) => seq!['C', 'H', 'E', 'C', 'K', '('] + e@ + seq![')'],
    }
}

/// The first `k` constraints, each after a space.
pub open spec fn options_text(opts: Seq<ColumnOption>, k: int) -> Seq<char>
    decreases k,
{
    if k <= 0 {
        seq![]
    } else {
        options_text(opts, k - 1) + seq![' '] + option_text(opts[k - 1])
    }
}

/// `"<name>" <TYPE> <constraints>`.
pub open spec fn column_def(c: Column) -> Seq<char> {
    quoted(c.name@) + (if declared_type_text(c.data_type).len() == 0 {
        seq![]
    } else {
        seq![' '] + declared_type_text(c.data_type)
    }) + options_text(c.options@, c.options@.len() as int)
}

pub open spec fn column_defs(cols: Seq<Column>, k: int) -> Seq<char>
    decreases k,
{
    if k <= 0 {
        seq![]
    } else if k == 1 {
        column_def(cols[0])
    } else {
        column_defs(cols, k - 1) + comma() + column_def(cols[k - 1])
    }
}

/// `CREATE [TEMPORARY] TABLE <name> (<column definitions>)[ STRICT]`.
#[verifier::opaque]
pub open spec fn create_table_sql(t: Table, name: Seq<char>) -> Seq<char> {
    seq!['C', 'R', 'E', 'A', 'T', 'E', ' '] + (if t.temporary {
        seq!['T', 'E', 'M', 'P', 'O', 'R', 'A', 'R', 'Y', ' ']
    } else {
        seq![]
    }) + seq!['T', 'A', 'B', 'L', 'E', ' '] + name + seq![' ', '('] + column_defs(
        t.columns@,
        t.columns@.len() as int,
    ) + seq![')'] + if t.strict {
        seq![' ', 'S', 'T', 'R', 'I', 'C', 'T']
    } else {
        seq![]
    }
}

fn write_option(out: &mut String, o: &ColumnOption)
    ensures
        final(out)@ == old(out)@ + option_text(*o),
{
    proof {
        reveal_strlit("NULL");
        reveal_strlit("NOT NULL");
        reveal_strlit("DEFAULT ");
        reveal_strlit("PRIMARY KEY");
        reveal_strlit("UNIQUE");
        reveal_strlit("REFERENCES ");
        reveal_strlit("CHECK(");
    }
    let ghost start = out@;
    match o {
        ColumnOption::Null => out.append("NULL"),
        ColumnOption::NotNull => out.append("NOT NULL"),
        ColumnOption::Default(e) => {
            out.append("DEFAULT ");
            out.append(e.as_str());
        },
        ColumnOption::Unique { is_primary } => {
            if *is_primary {
                out.append("PRIMARY KEY");
            } else {
                out.append("UNIQUE");
            }
        },
        ColumnOption::ForeignKey { foreign_table, referred_columns } => {
            out.append("REFERENCES ");
            write_quoted(out, foreign_table.as_str());
            if referred_columns.len() > 0 {
                let ghost mid = out@;
                push_char(out, '(');
                let ghost names = string_seqs(referred_columns@);
                let mut i: usize = 0;
                while i < referred_columns.len()
                    invariant
                        i <= referred_columns@.len(),
                        names == string_seqs(referred_columns@),
                        out@ == mid + seq!['('] + quoted_list(names, i as int),
                    decreases referred_columns@.len() - i,
                {
                    if i > 0 {
                        write_comma(out);
                    }
                    write_quoted(out, referred_columns[i].as_str());
                    assert(names[i as int] == referred_columns@[i as int]@);
                    assert(out@ =~= mid + seq!['('] + quoted_list(names, i as int + 1));
                    i = i + 1;
                }
                push_char(out, ')');
            }
        },
        ColumnOption::Check(e) => {
            out.append("CHECK(");
            out.append(e.as_str());
            push_char(out, ')');
        },
    }
    assert(out@ =~= start + option_text(*o));
}

fn write_column_def(out: &mut String, c: &Column)
    ensures
        final(out)@ == old(out)@ + column_def(*c),
{
    let ghost start = out@;
    write_quoted(out, c.name.as_str());
    let t = c.data_type.as_str();
    if t.unicode_len() > 0 {
        push_char(out, ' ');
        out.append(t);
    }
    let ghost head = out@;
    let mut i: usize = 0;
    while i < c.options.len()
        invariant
            i <= c.options@.len(),
            out@ == head + options_text(c.options@, i as int),
        decreases c.options@.len() - i,
    {
        push_char(out, ' ');
        write_option(out, &c.options[i]);
        assert(out@ =~= head + options_text(c.options@, i as int + 1));
        i = i + 1;
    }
    assert(out@ =~= start + column_def(*c));
}

impl Table {
    /// The statement that creates this table under `name`, a quoted name.
    pub fn create_table_statement_as(&self, name: &str) -> (r: String)
        ensures
            r@ == create_table_sql(*self, name@),
    {
        proof {
            reveal_strlit("CREATE ");
            reveal_strlit("TEMPORARY ");
            reveal_strlit("TABLE ");
            reveal_strlit(" (");
            reveal_strlit(" STRICT");
        }
        let mut s = String::new();
        s.append("CREATE ");
        if self.temporary {
            s.append("TEMPORARY ");
        }
        s.append("TABLE ");
        s.append(name);
        s.append(" (");
        let ghost head = s@;
        let mut i: usize = 0;
        while i < self.columns.len()
            invariant
                i <= self.columns@.len(),
                s@ == head + column_defs(self.columns@, i as int),
            decreases self.columns@.len() - i,
        {
            if i > 0 {
                write_comma(&mut s);
            }
            write_column_def(&mut s, &self.columns[i]);
            assert(s@ =~= head + column_defs(self.columns@, i as int + 1));
            i = i + 1;
        }
        push_char(&mut s, ')');
        if self.strict {
            s.append(" STRICT");
        }
        assert(s@ =~= create_table_sql(*self, name@)) by {
            reveal(create_table_sql);
        }
        s
    }

    /// The statement that creates this table.
    pub fn create_table_statement(&self) -> (r: String)
        ensures
            r@ == create_table_sql(*self, escaped_name(self.name)),
    {
        let name = self.name.escaped_string();
        self.create_table_statement_as(name.as_str())
    }
}

} // verus!
