//! Typed SQL parameters from a loosely typed JSON row, with file payloads split out.
use vstd::prelude::*;

use base64::Engine;

use crate::jsonschema::{meta_accepts, validate, JsonSchemaError, SchemaRegistry};
use crate::metadata::{
    ColumnMetadata, opt_meta_view, file_upload_name, file_uploads_name, JsonColumnMetadata, JsonMeta, TableMetadata,
};
use crate::schema::{affinity, column_index, str_eq, Affinity, Column, ColumnDataType};
use crate::files::{
    opt_view, InputView,
    uploads_prefix_text, write_upload, file_input_from_json, input_of, upload_text, upload_to_json, uploads_text, FileUpload, FileUploadInput,
};
use crate::value::{
    is_float_literal, is_float_literal_exec, json_text, parse_i64, parsed_i64, push_char,
    to_json_text, JsonNumber, JsonValue, SqlVal, SqlValue,
};

verus! {

/// The bytes that URL-safe, padded base64 text decodes to, if it is such text.
pub uninterp spec fn base64_url_decoded(s: Seq<char>) -> Option<Seq<u8>>;

/// The sixteen bytes of the UUID that `s` spells, if it spells one.
pub uninterp spec fn uuid_bytes(s: Seq<char>) -> Option<Seq<u8>>;

/// Relies on `base64`'s `URL_SAFE` engine `decode`: the decoded bytes, or `None` where
/// the text is no padded URL-safe base64.
#[verifier::external_body]
pub(crate) fn decode_base64_url(s: &str) -> (r: Option<Vec<u8>>)
    ensures
        r matches Some(b) ==> base64_url_decoded(s@) == Some(b@),
        r is None ==> base64_url_decoded(s@) is None,
{
    base64::engine::general_purpose::URL_SAFE.decode(s).ok()
}

/// Relies on `uuid::Uuid::parse_str`: the UUID's sixteen bytes, or `None` where `s`
/// spells no UUID.
#[verifier::external_body]
fn parse_uuid(s: &str) -> (r: Option<Vec<u8>>)
    ensures
        r matches Some(b) ==> uuid_bytes(s@) == Some(b@) && b@.len() == 16,
        r is None ==> uuid_bytes(s@) is None,
{
    uuid::Uuid::parse_str(s).ok().map(|u| u.as_bytes().to_vec())
}

/// What kind of value was refused.
#[derive(Debug, Clone, Copy, PartialEq, Eq, Structural)]
pub enum ValueKind {
    Object,
    Array,
    /// A number that is no integer in 0..=255 where a byte was expected.
    NonByteNumber,
}

/// Problems with a column that a file was uploaded for.
#[derive(Debug, Clone, Copy, PartialEq, Eq, Structural)]
pub enum ColumnError {
    /// A multipart upload without a field name.
    MissingName,
    /// The column holds no schema-checked JSON.
    ExpectedJsonColumn,
    /// More than one file for a single-file column.
    Collision,
    /// The column's schema is not a file schema.
    MismatchingSchema,
}

/// Why a file descriptor in a JSON row could not be read.
#[derive(Debug, Clone, Copy, PartialEq, Eq, Structural)]
pub enum FileInputError {
    /// The descriptor is not a JSON object.
    NotAnObject,
    /// The descriptor has no `data` member.
    MissingData,
    /// `name`, `filename` or `content_type` is not a string.
    NotAString,
}

/// Why a JSON row could not be turned into parameters.
#[derive(Debug, Clone, PartialEq, Eq)]
pub enum ParamsError {
    /// A row that is no JSON object.
    NotAnObject,
    Column(ColumnError),
    UnexpectedType(ValueKind),
    /// Text that is no base64, where bytes were expected.
    Decode,
    /// A JSON object for the named column, which cannot hold one.
    NestedObject(String),
    /// A JSON array for the named column, which cannot hold one.
    NestedArray(String),
    /// An array with an element other than a number, where bytes were expected.
    InhomogenousArray,
    ParseInt,
    ParseFloat,
    JsonValidation(JsonSchemaError),
    FileInput(FileInputError),
}

impl ParamsError {
    /// An equal error.
    pub fn duplicate(&self) -> (r: ParamsError)
        ensures
            r == *self,
    {
        match self {
            ParamsError::NotAnObject => ParamsError::NotAnObject,
            ParamsError::Column(c) => ParamsError::Column(*c),
            ParamsError::UnexpectedType(k) => ParamsError::UnexpectedType(*k),
            ParamsError::Decode => ParamsError::Decode,
            ParamsError::NestedObject(s) => ParamsError::NestedObject(s.clone()),
            ParamsError::NestedArray(s) => ParamsError::NestedArray(s.clone()),
            ParamsError::InhomogenousArray => ParamsError::InhomogenousArray,
            ParamsError::ParseInt => ParamsError::ParseInt,
            ParamsError::ParseFloat => ParamsError::ParseFloat,
            ParamsError::JsonValidation(e) => ParamsError::JsonValidation(*e),
            ParamsError::FileInput(e) => ParamsError::FileInput(*e),
        }
    }
}

/// The byte that an element of a byte array stands for.
pub open spec fn byte_of(v: JsonValue) -> Result<u8, ParamsError> {
    match v {
        JsonValue::Number(JsonNumber::Int(i)) => if 0 <= i <= 255 {
            Ok(i as u8)
        } else {
            Err(ParamsError::UnexpectedType(ValueKind::NonByteNumber))
        },
        JsonValue::Number(_) => Err(ParamsError::UnexpectedType(ValueKind::NonByteNumber)),
        _ => Err(ParamsError::InhomogenousArray),
    }
}

/// The bytes of the first `k` elements, or the first element's error.
pub open spec fn blob_prefix(arr: Seq<JsonValue>, k: int) -> Result<Seq<u8>, ParamsError>
    decreases k,
{
    if k <= 0 {
        Ok(seq![])
    } else {
        match blob_prefix(arr, k - 1) {
            Err(e) => Err(e),
            Ok(b) => match byte_of(arr[k - 1]) {
                Ok(x) => Ok(b.push(x)),
                Err(e) => Err(e),
            },
        }
    }
}

/// The bytes an array of numbers stands for: each element an integer in 0..=255.
pub open spec fn blob_of(arr: Seq<JsonValue>) -> Result<Seq<u8>, ParamsError> {
    blob_prefix(arr, arr.len() as int)
}

/// Converts an array of byte values to a blob.
pub fn try_json_array_to_blob(arr: &Vec<JsonValue>) -> (r: Result<Vec<u8>, ParamsError>)
    ensures
        match r {
            Ok(b) => blob_of(arr@) == Ok::<Seq<u8>, ParamsError>(b@),
            Err(e) => blob_of(arr@) == Err::<Seq<u8>, ParamsError>(e),
        },
{
    let mut bytes: Vec<u8> = Vec::new();
    let mut i: usize = 0;
    while i < arr.len()
        invariant
            i <= arr@.len(),
            blob_prefix(arr@, i as int) == Ok::<Seq<u8>, ParamsError>(bytes@),
        decreases arr@.len() - i,
    {
        match &arr[i] {
            JsonValue::Number(JsonNumber::Int(n)) => {
                if 0 <= *n && *n <= 255 {
                    bytes.push(*n as u8);
                } else {
                    proof {
                        lemma_blob_error_sticks(arr@, i as int + 1);
                    }
                    return Err(ParamsError::UnexpectedType(ValueKind::NonByteNumber));
                }
            },
            JsonValue::Number(_) => {
                proof {
                    lemma_blob_error_sticks(arr@, i as int + 1);
                }
                return Err(ParamsError::UnexpectedType(ValueKind::NonByteNumber));
            },
            _ => {
                proof {
                    lemma_blob_error_sticks(arr@, i as int + 1);
                }
                return Err(ParamsError::InhomogenousArray);
            },
        }
        i = i + 1;
    }
    Ok(bytes)
}

proof fn lemma_blob_error_sticks(arr: Seq<JsonValue>, k: int)
    requires
        0 <= k <= arr.len(),
        blob_prefix(arr, k) is Err,
    ensures
        blob_prefix(arr, arr.len() as int) == blob_prefix(arr, k),
    decreases arr.len() - k,
{
    if k < arr.len() {
        lemma_blob_error_sticks(arr, k + 1);
    }
}

/// The value a JSON string stands for in a column of type `t`.
pub open spec fn string_param(t: ColumnDataType, s: Seq<char>) -> Result<SqlVal, ParamsError> {
    match affinity(t) {
        Affinity::Null => Ok(SqlVal::Null),
        Affinity::Text => Ok(SqlVal::Text(s)),
        Affinity::JsonBlob => Ok(SqlVal::Blob(vstd::utf8::encode_utf8(s))),
        Affinity::Integer => match parsed_i64(s) {
            Some(i) => Ok(SqlVal::Integer(i)),
            None => Err(ParamsError::ParseInt),
        },
        Affinity::Real => if is_float_literal(s) {
            Ok(SqlVal::Real(s))
        } else {
            Err(ParamsError::ParseFloat)
        },
        Affinity::Blob => if vstd::utf8::encode_utf8(s).len() == 36 && uuid_bytes(s) is Some {
            Ok(SqlVal::Blob(uuid_bytes(s)->Some_0))
        } else {
            match base64_url_decoded(s) {
                Some(b) => Ok(SqlVal::Blob(b)),
                None => Err(ParamsError::Decode),
            }
        },
    }
}

pub open spec fn result_view(r: Result<SqlValue, ParamsError>) -> Result<SqlVal, ParamsError> {
    match r {
        Ok(v) => Ok(v@),
        Err(e) => Err(e),
    }
}

/// The bytes of `s` in UTF-8.
fn utf8_bytes(s: &str) -> (r: Vec<u8>)
    ensures
        r@ == vstd::utf8::encode_utf8(s@),
{
    let b = s.as_bytes();
    let mut v: Vec<u8> = Vec::new();
    let mut i: usize = 0;
    while i < b.len()
        invariant
            b@ == vstd::utf8::encode_utf8(s@),
            i <= b@.len(),
            v@ == b@.subrange(0, i as int),
        decreases b@.len() - i,
    {
        v.push(b[i]);
        i = i + 1;
        assert(v@ =~= b@.subrange(0, i as int));
    }
    assert(v@ =~= b@);
    v
}

/// Reads a JSON string as a value of a column of type `data_type`: text stays text,
/// numbers are parsed, and bytes are decoded from a UUID or from URL-safe base64.
pub fn json_string_to_value(data_type: ColumnDataType, value: String) -> (r: Result<
    SqlValue,
    ParamsError,
>)
    ensures
        result_view(r) == string_param(data_type, value@),
{
    match data_type {
        ColumnDataType::Null => Ok(SqlValue::Null),
        ColumnDataType::Any | ColumnDataType::Text | ColumnDataType::JSON
        | ColumnDataType::Character | ColumnDataType::Varchar
        | ColumnDataType::VaryingCharacter | ColumnDataType::NChar
        | ColumnDataType::NativeCharacter | ColumnDataType::NVarChar
        | ColumnDataType::Clob => Ok(SqlValue::Text(value)),
        ColumnDataType::JSONB => Ok(SqlValue::Blob(utf8_bytes(value.as_str()))),
        ColumnDataType::Blob => {
            if value.as_str().as_bytes().len() == 36 {
                if let Some(b) = parse_uuid(value.as_str()) {
                    return Ok(SqlValue::Blob(b));
                }
            }
            match decode_base64_url(value.as_str()) {
                Some(b) => Ok(SqlValue::Blob(b)),
                None => Err(ParamsError::Decode),
            }
        },
        ColumnDataType::Real | ColumnDataType::Double | ColumnDataType::DoublePrecision
        | ColumnDataType::Float => {
            if is_float_literal_exec(value.as_str()) {
                Ok(SqlValue::Real(value))
            } else {
                Err(ParamsError::ParseFloat)
            }
        },
        _ => match parse_i64(value.as_str()) {
            Some(i) => Ok(SqlValue::Integer(i)),
            None => Err(ParamsError::ParseInt),
        },
    }
}

/// The value a JSON scalar (or byte array) stands for in a column of type `t`.
pub open spec fn simple_param(t: ColumnDataType, v: JsonValue) -> Result<SqlVal, ParamsError> {
    match v {
        JsonValue::Object(_) => Err(ParamsError::UnexpectedType(ValueKind::Object)),
        JsonValue::Array(arr) => if t != ColumnDataType::Blob {
            Err(ParamsError::UnexpectedType(ValueKind::Array))
        } else {
            match blob_of(arr@) {
                Ok(b) => Ok(SqlVal::Blob(b)),
                Err(e) => Err(e),
            }
        },
        JsonValue::Null => Ok(SqlVal::Null),
        JsonValue::Bool(b) => Ok(SqlVal::Integer(if b { 1 } else { 0 })),
        JsonValue::String(s) => string_param(t, s@),
        JsonValue::Number(JsonNumber::Int(i)) => Ok(SqlVal::Integer(i as int)),
        JsonValue::Number(JsonNumber::UInt(u)) => Ok(SqlVal::Integer((u as i64) as int)),
        JsonValue::Number(JsonNumber::Float(f)) => Ok(SqlVal::Real(f@)),
    }
}

/// Converts a JSON value to the parameter for a column of type `col_type`, without
/// looking into nested JSON: objects are refused, arrays only become blobs.
pub fn simple_json_value_to_param(col_type: ColumnDataType, value: JsonValue) -> (r: Result<
    SqlValue,
    ParamsError,
>)
    ensures
        result_view(r) == simple_param(col_type, value),
{
    match value {
        JsonValue::Object(_) => Err(ParamsError::UnexpectedType(ValueKind::Object)),
        JsonValue::Array(arr) => {
            if col_type != ColumnDataType::Blob {
                return Err(ParamsError::UnexpectedType(ValueKind::Array));
            }
            match try_json_array_to_blob(&arr) {
                Ok(b) => Ok(SqlValue::Blob(b)),
                Err(e) => Err(e),
            }
        },
        JsonValue::Null => Ok(SqlValue::Null),
        JsonValue::Bool(b) => Ok(SqlValue::Integer(if b { 1 } else { 0 })),
        JsonValue::String(s) => json_string_to_value(col_type, s),
        JsonValue::Number(JsonNumber::Int(i)) => Ok(SqlValue::Integer(i)),
        JsonValue::Number(JsonNumber::UInt(u)) => Ok(SqlValue::Integer(u as i64)),
        JsonValue::Number(JsonNumber::Float(f)) => Ok(SqlValue::Real(f)),
    }
}

/// What converting one member of a JSON row comes to.
pub enum Conv {
    /// A parameter value.
    Plain(SqlVal),
    /// File descriptors: the files are split out and their stored descriptors become
    /// the parameter.
    Files,
    Failed(ParamsError),
}

/// The first error among the file descriptors of a list, if any.
pub open spec fn inputs_error(arr: Seq<JsonValue>, k: int) -> Option<ParamsError>
    decreases k,
{
    if k <= 0 {
        None
    } else {
        match inputs_error(arr, k - 1) {
            Some(e) => Some(e),
            None => match input_of(arr[k - 1]) {
                Ok(_) => None,
                Err(e) => Some(e),
            },
        }
    }
}

/// A schema-checked JSON value, stored as its text.
pub open spec fn checked_json(
    reg: Map<Seq<char>, Seq<char>>,
    m: JsonMeta,
    v: JsonValue,
) -> Conv {
    match meta_accepts(reg, m, json_text(v)) {
        Ok(_) => Conv::Plain(SqlVal::Text(json_text(v))),
        Err(e) => Conv::Failed(ParamsError::JsonValidation(e)),
    }
}

/// How a JSON value is converted for column `col`, whose JSON schema is `meta`:
/// objects only for text columns with a schema (a file descriptor where the schema is
/// the file schema), arrays as bytes for blob columns or for text columns with a schema
/// (a list of file descriptors where that is the schema), anything else as a scalar.
pub open spec fn convert(
    col: Column,
    meta: Option<JsonMeta>,
    reg: Map<Seq<char>, Seq<char>>,
    v: JsonValue,
) -> Conv {
    match v {
        JsonValue::Object(_) => if col.data_type != ColumnDataType::Text || meta is None {
            Conv::Failed(ParamsError::NestedObject(col.name))
        } else if meta == Some(JsonMeta::SchemaName(file_upload_name())) {
            match input_of(v) {
                Ok(_) => Conv::Files,
                Err(e) => Conv::Failed(e),
            }
        } else {
            checked_json(reg, meta->Some_0, v)
        },
        JsonValue::Array(arr) => if col.data_type == ColumnDataType::Blob {
            match blob_of(arr@) {
                Ok(b) => Conv::Plain(SqlVal::Blob(b)),
                Err(e) => Conv::Failed(e),
            }
        } else if col.data_type == ColumnDataType::Text && meta is Some {
            if meta == Some(JsonMeta::SchemaName(file_uploads_name())) {
                match inputs_error(arr@, arr@.len() as int) {
                    None => Conv::Files,
                    Some(e) => Conv::Failed(e),
                }
            } else {
                checked_json(reg, meta->Some_0, v)
            }
        } else {
            Conv::Failed(ParamsError::NestedArray(col.name))
        },
        _ => match simple_param(col.data_type, v) {
            Ok(x) => Conv::Plain(x),
            Err(e) => Conv::Failed(e),
        },
    }
}

/// A file and the descriptor it is stored under.
pub type FileContents = Vec<(FileUpload, Vec<u8>)>;

pub open spec fn descriptors(fs: Seq<(FileUpload, Vec<u8>)>) -> Seq<FileUpload> {
    fs.map_values(|p: (FileUpload, Vec<u8>)| p.0)
}

/// The files split out of a file-bearing value, and the parameter that stores their
/// descriptors: one descriptor for an object, a list for an array.
pub open spec fn files_stored(v: JsonValue, param: SqlVal, fs: Seq<(FileUpload, Vec<u8>)>) -> bool {
    match v {
        JsonValue::Object(_) => fs.len() == 1 && param == SqlVal::Text(upload_text(fs[0].0))
            && stored_as(fs[0], input_of(v)->Ok_0),
        JsonValue::Array(arr) => fs.len() == arr@.len() && param == SqlVal::Text(
            uploads_text(descriptors(fs)),
        ) && forall|i: int| 0 <= i < fs.len() ==> stored_as(#[trigger] fs[i], input_of(arr@[i])->Ok_0),
        _ => false,
    }
}

/// A file split out of a descriptor: its bytes, and a stored descriptor that keeps the
/// descriptor's file name and content type, the content type also as its mime type.
pub open spec fn stored_as(f: (FileUpload, Vec<u8>), input: InputView) -> bool {
    &&& f.1@ == input.data
    &&& opt_view(f.0.filename) == input.filename
    &&& opt_view(f.0.content_type) == input.content_type
    &&& opt_view(f.0.mime_type) == input.content_type
}

/// What a conversion result says, as a [`Conv`].
pub open spec fn extracted(
    v: JsonValue,
    r: Result<(SqlValue, Option<FileContents>), ParamsError>,
    c: Conv,
) -> bool {
    match c {
        Conv::Plain(x) => r is Ok && r->Ok_0.0@ == x && r->Ok_0.1 is None,
        Conv::Files => r is Ok && r->Ok_0.1 is Some && files_stored(v, r->Ok_0.0@, r->Ok_0.1->Some_0@),
        Conv::Failed(e) => r == Err::<(SqlValue, Option<FileContents>), ParamsError>(e),
    }
}

fn single_file(v: &JsonValue) -> (r: Result<(SqlValue, Option<FileContents>), ParamsError>)
    requires
        v is Object,
    ensures
        extracted(
            *v,
            r,
            match input_of(*v) {
                Ok(_) => Conv::Files,
                Err(e) => Conv::Failed(e),
            },
        ),
{
    let input = file_input_from_json(v)?;
    let ghost data = input.data@;
    let (_name, metadata, content) = input.consume();
    let text = upload_to_json(&metadata);
    let mut files: FileContents = Vec::new();
    files.push((metadata, content));
    Ok((SqlValue::Text(text), Some(files)))
}

#[verifier::spinoff_prover]
fn file_list(arr: &Vec<JsonValue>) -> (r: Result<(SqlValue, Option<FileContents>), ParamsError>)
    ensures
        extracted(
            JsonValue::Array(*arr),
            r,
            match inputs_error(arr@, arr@.len() as int) {
                None => Conv::Files,
                Some(e) => Conv::Failed(e),
            },
        ),
{
    let mut text = String::new();
    push_char(&mut text, '[');
    let mut files: FileContents = Vec::new();
    let mut i: usize = 0;
    while i < arr.len()
        invariant
            i <= arr@.len(),
            inputs_error(arr@, i as int) is None,
            files@.len() == i,
            text@ == seq!['['] + uploads_prefix_text(descriptors(files@), i as int),
            forall|k: int| 0 <= k < i ==> stored_as(#[trigger] files@[k], input_of(arr@[k])->Ok_0),
        decreases arr@.len() - i,
    {
        let input = match file_input_from_json(&arr[i]) {
            Ok(f) => f,
            Err(e) => {
                proof {
                    lemma_inputs_error_sticks(arr@, i as int + 1);
                }
                return Err(e);
            },
        };
        let (_name, metadata, content) = input.consume();
        if i > 0 {
            push_char(&mut text, ',');
        }
        write_upload(&mut text, &metadata);
        let ghost before = files@;
        files.push((metadata, content));
        proof {
            let d = descriptors(files@);
            assert(d =~= descriptors(before).push(files@[i as int].0));
            lemma_uploads_prefix_extend(descriptors(before), files@[i as int].0);
            assert(text@ =~= seq!['['] + uploads_prefix_text(d, i as int + 1));
        }
        i = i + 1;
    }
    push_char(&mut text, ']');
    proof {
        assert(descriptors(files@).len() == files@.len());
        assert(text@ =~= uploads_text(descriptors(files@)));
    }
    Ok((SqlValue::Text(text), Some(files)))
}

proof fn lemma_uploads_prefix_extend(fs: Seq<FileUpload>, f: FileUpload)
    ensures
        uploads_prefix_text(fs.push(f), fs.len() as int + 1) == if fs.len() == 0 {
            upload_text(f)
        } else {
            uploads_prefix_text(fs, fs.len() as int) + seq![','] + upload_text(f)
        },
{
    lemma_uploads_prefix_same(fs, fs.push(f), fs.len() as int);
}

proof fn lemma_uploads_prefix_same(a: Seq<FileUpload>, b: Seq<FileUpload>, k: int)
    requires
        0 <= k <= a.len(),
        k <= b.len(),
        forall|i: int| 0 <= i < k ==> a[i] == b[i],
    ensures
        uploads_prefix_text(a, k) == uploads_prefix_text(b, k),
    decreases k,
{
    if k > 1 {
        lemma_uploads_prefix_same(a, b, k - 1);
    }
}

proof fn lemma_inputs_error_sticks(arr: Seq<JsonValue>, k: int)
    requires
        0 <= k <= arr.len(),
        inputs_error(arr, k) is Some,
    ensures
        inputs_error(arr, arr.len() as int) == inputs_error(arr, k),
    decreases arr.len() - k,
{
    if k < arr.len() {
        lemma_inputs_error_sticks(arr, k + 1);
    }
}

fn names_schema(meta: &JsonColumnMetadata, name: &str) -> (r: bool)
    ensures
        r == (meta@ == JsonMeta::SchemaName(name@)),
{
    match meta {
        JsonColumnMetadata::SchemaName(n) => str_eq(n.as_str(), name),
        JsonColumnMetadata::Pattern(_) => false,
    }
}

fn check_json(registry: &SchemaRegistry, meta: &JsonColumnMetadata, value: &JsonValue) -> (r:
    Result<(SqlValue, Option<FileContents>), ParamsError>)
    requires
        registry.wf(),
    ensures
        extracted(*value, r, checked_json(registry.view(), meta@, *value)),
{
    let text = to_json_text(value);
    match validate(registry, meta, text.as_str()) {
        Ok(()) => Ok((SqlValue::Text(text), None)),
        Err(e) => Err(ParamsError::JsonValidation(e)),
    }
}

fn extract_object(
    col: &Column,
    col_meta: &ColumnMetadata,
    registry: &SchemaRegistry,
    value: &JsonValue,
) -> (r: Result<(SqlValue, Option<FileContents>), ParamsError>)
    requires
        registry.wf(),
        value is Object,
    ensures
        extracted(*value, r, convert(*col, opt_meta_view(col_meta.json), registry.view(), *value)),
{
    proof {
        reveal_strlit("std.FileUpload");
        assert("std.FileUpload"@ =~= file_upload_name());
    }
    if col.data_type != ColumnDataType::Text {
        return Err(ParamsError::NestedObject(col.name.clone()));
    }
    match &col_meta.json {
        None => Err(ParamsError::NestedObject(col.name.clone())),
        Some(meta) => {
            if names_schema(meta, "std.FileUpload") {
                single_file(value)
            } else {
                check_json(registry, meta, value)
            }
        },
    }
}

fn extract_array(
    col: &Column,
    col_meta: &ColumnMetadata,
    registry: &SchemaRegistry,
    value: &JsonValue,
) -> (r: Result<(SqlValue, Option<FileContents>), ParamsError>)
    requires
        registry.wf(),
        value is Array,
    ensures
        extracted(*value, r, convert(*col, opt_meta_view(col_meta.json), registry.view(), *value)),
{
    proof {
        reveal_strlit("std.FileUploads");
        assert("std.FileUploads"@ =~= file_uploads_name());
    }
    let arr = match value {
        JsonValue::Array(arr) => arr,
        _ => {
            return Err(ParamsError::NotAnObject);
        },
    };
    if col.data_type == ColumnDataType::Blob {
        return match try_json_array_to_blob(arr) {
            Ok(b) => Ok((SqlValue::Blob(b), None)),
            Err(e) => Err(e),
        };
    }
    if col.data_type == ColumnDataType::Text {
        if let Some(meta) = &col_meta.json {
            if names_schema(meta, "std.FileUploads") {
                return file_list(arr);
            } else {
                return check_json(registry, meta, value);
            }
        }
    }
    Err(ParamsError::NestedArray(col.name.clone()))
}

/// Converts the value of one JSON member for column `col`, splitting out the files of
/// file descriptors.
pub fn extract_params_and_files_from_json(
    col: &Column,
    col_meta: &ColumnMetadata,
    registry: &SchemaRegistry,
    value: JsonValue,
) -> (r: Result<(SqlValue, Option<FileContents>), ParamsError>)
    requires
        registry.wf(),
    ensures
        extracted(value, r, convert(*col, opt_meta_view(col_meta.json), registry.view(), value)),
{
    match &value {
        JsonValue::Object(_) => {
            return extract_object(col, col_meta, registry, &value);
        },
        JsonValue::Array(_) => {
            return extract_array(col, col_meta, registry, &value);
        },
        _ => {},
    }
    match simple_json_value_to_param(col.data_type, value) {
        Ok(v) => Ok((v, None)),
        Err(e) => Err(e),
    }
}

/// What a set of parameters holds.
pub struct ParamsView {
    pub table_name: Seq<char>,
    /// The targeted columns, in order.
    pub columns: Seq<Seq<char>>,
    /// The placeholder of each column: its name after a `:`.
    pub placeholders: Seq<Seq<char>>,
    pub values: Seq<SqlVal>,
    /// The columns that hold file descriptors.
    pub file_columns: Seq<Seq<char>>,
    /// The files to store before the row is written.
    pub files: Seq<(FileUpload, Seq<u8>)>,
}

pub open spec fn placeholder(col: Seq<char>) -> Seq<char> {
    seq![':'] + col
}

/// Parameters for a statement on one table: one named value per column, and the files
/// the values refer to.
pub struct Params {
    table_name: String,
    named_params: Vec<(String, SqlValue)>,
    col_names: Vec<String>,
    files: FileContents,
    file_col_names: Vec<String>,
}

pub open spec fn values_of(p: Seq<(String, SqlValue)>) -> Seq<SqlVal> {
    p.map_values(|x: (String, SqlValue)| x.1@)
}

pub open spec fn names_of(p: Seq<(String, SqlValue)>) -> Seq<Seq<char>> {
    p.map_values(|x: (String, SqlValue)| x.0@)
}

pub open spec fn strings_of(v: Seq<String>) -> Seq<Seq<char>> {
    v.map_values(|x: String| x@)
}

pub open spec fn files_of(f: Seq<(FileUpload, Vec<u8>)>) -> Seq<(FileUpload, Seq<u8>)> {
    f.map_values(|x: (FileUpload, Vec<u8>)| (x.0, x.1@))
}

impl View for Params {
    type V = ParamsView;

    closed spec fn view(&self) -> ParamsView {
        ParamsView {
            table_name: self.table_name@,
            columns: strings_of(self.col_names@),
            placeholders: names_of(self.named_params@),
            values: values_of(self.named_params@),
            file_columns: strings_of(self.file_col_names@),
            files: files_of(self.files@),
        }
    }
}

impl Params {
    /// Columns, placeholders and values line up; file columns are among the columns.
    #[verifier::opaque]
    pub open spec fn wf(&self) -> bool {
        &&& self@.placeholders.len() == self@.columns.len()
        &&& self@.values.len() == self@.columns.len()
        &&& forall|i: int|
            0 <= i < self@.columns.len() ==> #[trigger] self@.placeholders[i] == placeholder(
                self@.columns[i],
            )
        &&& forall|i: int|
            0 <= i < self@.file_columns.len() ==> self@.columns.contains(
                #[trigger] self@.file_columns[i],
            )
    }

    /// No parameters for `table_name`.
    pub fn empty(table_name: String) -> (r: Params)
        ensures
            r.wf(),
            r@.table_name == table_name@,
            r@.columns.len() == 0,
            r@.file_columns.len() == 0,
            r@.files.len() == 0,
    {
        let r = Params {
            table_name,
            named_params: Vec::new(),
            col_names: Vec::new(),
            files: Vec::new(),
            file_col_names: Vec::new(),
        };
        proof {
            reveal(Params::wf);
            assert(r@.columns =~= Seq::<Seq<char>>::empty());
            assert(r@.placeholders =~= Seq::<Seq<char>>::empty());
            assert(r@.values =~= Seq::<SqlVal>::empty());
            assert(r@.file_columns =~= Seq::<Seq<char>>::empty());
            assert(r@.files =~= Seq::<(FileUpload, Seq<u8>)>::empty());
        }
        r
    }

    /// `:` followed by `s`.
    pub fn prefix_colon(s: &str) -> (r: String)
        ensures
            r@ == placeholder(s@),
    {
        let mut new = String::new();
        push_char(&mut new, ':');
        new.append(s);
        new
    }

    /// Adds a value for column `col`.
    pub fn push_param(&mut self, col: String, value: SqlValue)
        requires
            old(self).wf(),
        ensures
            final(self).wf(),
            final(self)@ == (ParamsView {
                columns: old(self)@.columns.push(col@),
                placeholders: old(self)@.placeholders.push(placeholder(col@)),
                values: old(self)@.values.push(value@),
                ..old(self)@
            }),
    {
        proof {
            reveal(Params::wf);
        }
        let ph = Self::prefix_colon(col.as_str());
        let ghost v = value@;
        let ghost c = col@;
        self.named_params.push((ph, value));
        self.col_names.push(col);
        proof {
            assert(names_of(self.named_params@) =~= old(self)@.placeholders.push(placeholder(c)));
            assert(values_of(self.named_params@) =~= old(self)@.values.push(v));
            assert(strings_of(self.col_names@) =~= old(self)@.columns.push(c));
            assert forall|i: int| 0 <= i < self@.file_columns.len() implies self@.columns.contains(
                #[trigger] self@.file_columns[i],
            ) by {
                let f = self@.file_columns[i];
                assert(old(self)@.columns.contains(f));
                let k = choose|k: int| 0 <= k < old(self)@.columns.len() && old(self)@.columns[k] == f;
                assert(self@.columns[k] == f);
            }
        }
    }

    /// Marks the last column added as one that holds file descriptors, and adds the
    /// files to store.
    fn mark_files(&mut self, files: FileContents)
        requires
            old(self).wf(),
            old(self)@.columns.len() > 0,
        ensures
            final(self).wf(),
            final(self)@ == (ParamsView {
                file_columns: old(self)@.file_columns.push(old(self)@.columns.last()),
                files: old(self)@.files + files_of(files@),
                ..old(self)@
            }),
    {
        proof {
            reveal(Params::wf);
        }
        let last = self.col_names.len() - 1;
        let name = self.col_names[last].clone();
        let ghost n = name@;
        self.file_col_names.push(name);
        let mut files = files;
        let ghost added = files_of(files@);
        self.files.append(&mut files);
        proof {
            assert(strings_of(self.file_col_names@) =~= old(self)@.file_columns.push(n));
            assert(files_of(self.files@) =~= old(self)@.files + added);
            assert(self@.columns[last as int] == n);
            assert forall|i: int| 0 <= i < self@.file_columns.len() implies self@.columns.contains(
                #[trigger] self@.file_columns[i],
            ) by {
                if i < old(self)@.file_columns.len() {
                    assert(old(self)@.columns.contains(old(self)@.file_columns[i]));
                } else {
                    assert(self@.columns[last as int] == self@.file_columns[i]);
                }
            }
        }
    }

    /// What well-formedness says.
    pub proof fn lemma_wf(&self)
        requires
            self.wf(),
        ensures
            self@.placeholders.len() == self@.columns.len(),
            self@.values.len() == self@.columns.len(),
            forall|i: int|
                0 <= i < self@.columns.len() ==> #[trigger] self@.placeholders[i] == placeholder(
                    self@.columns[i],
                ),
            forall|i: int|
                0 <= i < self@.file_columns.len() ==> self@.columns.contains(
                    #[trigger] self@.file_columns[i],
                ),
    {
        reveal(Params::wf);
    }

    /// The targeted column names, in order.
    pub fn column_names(&self) -> (r: &Vec<String>)
        ensures
            strings_of(r@) == self@.columns,
    {
        &self.col_names
    }

    /// The named values, in column order.
    pub fn named_params(&self) -> (r: &Vec<(String, SqlValue)>)
        ensures
            names_of(r@) == self@.placeholders,
            values_of(r@) == self@.values,
    {
        &self.named_params
    }

    /// The name of the targeted table.
    pub fn table_name(&self) -> (r: &String)
        ensures
            r@ == self@.table_name,
    {
        &self.table_name
    }

    /// The names of the columns that hold file descriptors.
    pub fn file_column_names(&self) -> (r: &Vec<String>)
        ensures
            strings_of(r@) == self@.file_columns,
    {
        &self.file_col_names
    }

    /// Splits the parameters into the named values and the files to store.
    pub fn into_parts(self) -> (r: (Vec<(String, SqlValue)>, FileContents))
        ensures
            names_of(r.0@) == self@.placeholders,
            values_of(r.0@) == self@.values,
            files_of(r.1@) == self@.files,
    {
        (self.named_params, self.files)
    }
}

/// No two members of a JSON object share a key.
pub open spec fn keys_unique(json: Seq<(String, JsonValue)>) -> bool {
    forall|i: int, j: int| 0 <= i < j < json.len() ==> (#[trigger] json[i]).0@ != (#[trigger] json[j]).0@
}

/// The members of a JSON row whose key names a column of `t`, in order.
#[verifier::opaque]
pub open spec fn kept_members(t: TableMetadata, json: Seq<(String, JsonValue)>) -> Seq<
    (String, JsonValue),
>
    decreases json.len(),
{
    if json.len() == 0 {
        seq![]
    } else {
        let r = kept_members(t, json.drop_last());
        if column_index(t.schema.columns@, json.last().0@) is Some {
            r.push(json.last())
        } else {
            r
        }
    }
}

/// How a kept member converts, for the column its key names.
#[verifier::opaque]
pub open spec fn member_conv(
    t: TableMetadata,
    reg: Map<Seq<char>, Seq<char>>,
    m: (String, JsonValue),
) -> Conv {
    let i = column_index(t.schema.columns@, m.0@)->Some_0;
    convert(t.schema.columns@[i], t.json_meta(i), reg, m.1)
}

/// The error of the first member that fails to convert, if any.
#[verifier::opaque]
pub open spec fn members_error(
    t: TableMetadata,
    reg: Map<Seq<char>, Seq<char>>,
    ms: Seq<(String, JsonValue)>,
) -> Option<ParamsError>
    decreases ms.len(),
{
    if ms.len() == 0 {
        None
    } else {
        match members_error(t, reg, ms.drop_last()) {
            Some(e) => Some(e),
            None => match member_conv(t, reg, ms.last()) {
                Conv::Failed(e) => Some(e),
                _ => None,
            },
        }
    }
}

pub open spec fn member_keys(ms: Seq<(String, JsonValue)>) -> Seq<Seq<char>> {
    ms.map_values(|m: (String, JsonValue)| m.0@)
}

/// The parameters hold, first, one value per kept member, converted as `convert` says.
#[verifier::opaque]
pub open spec fn holds_members(
    p: ParamsView,
    t: TableMetadata,
    reg: Map<Seq<char>, Seq<char>>,
    ms: Seq<(String, JsonValue)>,
) -> bool {
    &&& p.columns.len() >= ms.len()
    &&& p.columns.subrange(0, ms.len() as int) == member_keys(ms)
    &&& forall|k: int|
        0 <= k < ms.len() ==> match #[trigger] member_conv(t, reg, ms[k]) {
            Conv::Plain(x) => p.values[k] == x,
            _ => true,
        }
}

/// What a multipart upload does to the set of single-file columns already given a file,
/// and whether it adds a column: uploads for unknown fields are skipped.
#[verifier::opaque]
pub open spec fn upload_step(t: TableMetadata, seen: Seq<Seq<char>>, n: Seq<char>) -> Result<
    (Seq<Seq<char>>, bool),
    ParamsError,
> {
    match column_index(t.schema.columns@, n) {
        None => Ok((seen, false)),
        Some(i) => match t.json_meta(i) {
            Some(JsonMeta::SchemaName(s)) => if s == file_upload_name() {
                if seen.contains(n) {
                    Err(ParamsError::Column(ColumnError::Collision))
                } else {
                    Ok((seen.push(n), true))
                }
            } else if s == file_uploads_name() {
                Ok((seen, true))
            } else {
                Err(ParamsError::Column(ColumnError::MismatchingSchema))
            },
            _ => Err(ParamsError::Column(ColumnError::ExpectedJsonColumn)),
        },
    }
}

/// After the first `k` uploads: the single-file columns given a file and the columns
/// added, or the first error.
#[verifier::opaque]
pub open spec fn uploads_run(t: TableMetadata, names: Seq<Seq<char>>, k: int) -> Result<
    (Seq<Seq<char>>, Seq<Seq<char>>),
    ParamsError,
>
    decreases k,
{
    if k <= 0 {
        Ok((seq![], seq![]))
    } else {
        match uploads_run(t, names, k - 1) {
            Err(e) => Err(e),
            Ok((seen, cols)) => match upload_step(t, seen, names[k - 1]) {
                Err(e) => Err(e),
                Ok((seen2, adds)) => Ok((seen2, if adds { cols.push(names[k - 1]) } else { cols })),
            },
        }
    }
}

pub open spec fn upload_names(fs: Seq<FileUploadInput>) -> Seq<Seq<char>> {
    fs.map_values(|f: FileUploadInput| f.name->Some_0@)
}

/// The outcome of adding multipart uploads: an upload without a field name fails them
/// all; otherwise they are taken in order.
pub open spec fn multipart_outcome(t: TableMetadata, fs: Seq<FileUploadInput>) -> Result<
    Seq<Seq<char>>,
    ParamsError,
> {
    if exists|i: int| 0 <= i < fs.len() && (#[trigger] fs[i]).name is None {
        Err(ParamsError::Column(ColumnError::MissingName))
    } else {
        match uploads_run(t, upload_names(fs), fs.len() as int) {
            Ok((_, cols)) => Ok(cols),
            Err(e) => Err(e),
        }
    }
}

proof fn lemma_uploads_run_step(t: TableMetadata, names: Seq<Seq<char>>, k: int)
    requires
        0 <= k,
    ensures
        uploads_run(t, names, k + 1) == match uploads_run(t, names, k) {
            Err(e) => Err(e),
            Ok((seen, cols)) => match upload_step(t, seen, names[k]) {
                Err(e) => Err(e),
                Ok((seen2, adds)) => Ok((seen2, if adds { cols.push(names[k]) } else { cols })),
            },
        },
{
    reveal_with_fuel(uploads_run, 2);
}

proof fn lemma_uploads_run_error_sticks(t: TableMetadata, names: Seq<Seq<char>>, k: int)
    requires
        0 <= k <= names.len(),
        uploads_run(t, names, k) is Err,
    ensures
        uploads_run(t, names, names.len() as int) == uploads_run(t, names, k),
    decreases names.len() - k,
{
    if k < names.len() {
        lemma_uploads_run_step(t, names, k);
        lemma_uploads_run_error_sticks(t, names, k + 1);
    }
}

fn contains_name(v: &Vec<String>, n: &str) -> (r: bool)
    ensures
        r == strings_of(v@).contains(n@),
{
    let mut i: usize = 0;
    while i < v.len()
        invariant
            i <= v@.len(),
            forall|j: int| 0 <= j < i ==> (#[trigger] v@[j])@ != n@,
        decreases v@.len() - i,
    {
        if str_eq(v[i].as_str(), n) {
            assert(strings_of(v@)[i as int] == n@);
            return true;
        }
        i = i + 1;
    }
    proof {
        if strings_of(v@).contains(n@) {
            let k = choose|k: int| 0 <= k < strings_of(v@).len() && strings_of(v@)[k] == n@;
            assert(v@[k]@ == n@);
        }
    }
    false
}

/// The parameters were extended by what one step adds, and kept what they held.
pub open spec fn extended(before: ParamsView, after: ParamsView, cols: Seq<Seq<char>>) -> bool {
    &&& after.table_name == before.table_name
    &&& after.columns == before.columns + cols
    &&& after.values.len() >= before.values.len()
    &&& after.values.subrange(0, before.values.len() as int) == before.values
}

proof fn lemma_extended_trans(
    a: ParamsView,
    b: ParamsView,
    c: ParamsView,
    x: Seq<Seq<char>>,
    y: Seq<Seq<char>>,
)
    requires
        extended(a, b, x),
        extended(b, c, y),
    ensures
        extended(a, c, x + y),
{
    assert(c.columns =~= a.columns + (x + y));
    assert(c.values.subrange(0, a.values.len() as int) =~= b.values.subrange(
        0,
        a.values.len() as int,
    ));
}

/// The placeholders of some columns.
pub open spec fn placeholders_for(cols: Seq<Seq<char>>) -> Seq<Seq<char>> {
    cols.map_values(|c: Seq<char>| placeholder(c))
}

/// `after` is `before` with columns `cols` added, holding `vals` and file descriptors,
/// and with `files` to store added.
pub open spec fn appended(
    before: ParamsView,
    after: ParamsView,
    cols: Seq<Seq<char>>,
    vals: Seq<SqlVal>,
    files: Seq<(FileUpload, Seq<u8>)>,
) -> bool {
    after == (ParamsView {
        columns: before.columns + cols,
        placeholders: before.placeholders + placeholders_for(cols),
        values: before.values + vals,
        file_columns: before.file_columns + cols,
        files: before.files + files,
        ..before
    })
}

proof fn lemma_appended_extends(
    a: ParamsView,
    b: ParamsView,
    c: Seq<Seq<char>>,
    v: Seq<SqlVal>,
    f: Seq<(FileUpload, Seq<u8>)>,
)
    requires
        appended(a, b, c, v, f),
    ensures
        extended(a, b, c),
{
    assert(b.values.subrange(0, a.values.len() as int) =~= a.values);
}

proof fn lemma_appended_trans(
    a: ParamsView,
    b: ParamsView,
    c: ParamsView,
    c1: Seq<Seq<char>>,
    v1: Seq<SqlVal>,
    f1: Seq<(FileUpload, Seq<u8>)>,
    c2: Seq<Seq<char>>,
    v2: Seq<SqlVal>,
    f2: Seq<(FileUpload, Seq<u8>)>,
)
    requires
        appended(a, b, c1, v1, f1),
        appended(b, c, c2, v2, f2),
    ensures
        appended(a, c, c1 + c2, v1 + v2, f1 + f2),
{
    assert(placeholders_for(c1 + c2) =~= placeholders_for(c1) + placeholders_for(c2));
    assert(c.columns =~= a.columns + (c1 + c2));
    assert(c.placeholders =~= a.placeholders + placeholders_for(c1 + c2));
    assert(c.values =~= a.values + (v1 + v2));
    assert(c.file_columns =~= a.file_columns + (c1 + c2));
    assert(c.files =~= a.files + (f1 + f2));
}

/// What the multipart uploads add, given what the first `nf.len()` uploads were split
/// into (`nf`): each upload for a file column adds that column, holding its
/// descriptor's text, and its file to store; an upload for a field that names no column
/// adds nothing.
pub open spec fn uploads_added(t: TableMetadata, names: Seq<Seq<char>>, nf: Seq<(FileUpload, Vec<u8>)>) -> (
    Seq<Seq<char>>,
    Seq<SqlVal>,
    Seq<(FileUpload, Seq<u8>)>,
)
    decreases nf.len(),
{
    if nf.len() == 0 {
        (seq![], seq![], seq![])
    } else {
        let k = nf.len() - 1;
        let prev = uploads_added(t, names, nf.drop_last());
        let adds = match uploads_run(t, names, k) {
            Ok((seen, _)) => match upload_step(t, seen, names[k]) {
                Ok((_, a)) => a,
                Err(_) => false,
            },
            Err(_) => false,
        };
        if adds {
            (
                prev.0.push(names[k]),
                prev.1.push(SqlVal::Text(upload_text(nf[k].0))),
                prev.2.push((nf[k].0, nf[k].1@)),
            )
        } else {
            prev
        }
    }
}

/// A multipart upload split out: its bytes, and a descriptor that keeps its file name
/// and content type, the content type also as its mime type.
pub open spec fn upload_kept(f: (FileUpload, Vec<u8>), input: FileUploadInput) -> bool {
    &&& f.1@ == input.data@
    &&& opt_view(f.0.filename) == opt_view(input.filename)
    &&& opt_view(f.0.content_type) == opt_view(input.content_type)
    &&& opt_view(f.0.mime_type) == opt_view(input.content_type)
}

/// What the multipart uploads `fs` did to the parameters: each upload was split into a
/// descriptor and its bytes (`nf`), and each one for a file column added that column
/// (`cols`), holding its descriptor's text, and its file to store, in order. Uploads for
/// fields that name no column are dropped, files and all.
pub open spec fn multipart_stored(
    t: TableMetadata,
    fs: Seq<FileUploadInput>,
    nf: Seq<(FileUpload, Vec<u8>)>,
    cols: Seq<Seq<char>>,
    before: ParamsView,
    after: ParamsView,
) -> bool {
    &&& nf.len() == fs.len()
    &&& forall|k: int| 0 <= k < nf.len() ==> upload_kept(#[trigger] nf[k], fs[k])
    &&& uploads_added(t, upload_names(fs), nf).0 == cols
    &&& appended(
        before,
        after,
        cols,
        uploads_added(t, upload_names(fs), nf).1,
        uploads_added(t, upload_names(fs), nf).2,
    )
}

fn clone_opt(o: &Option<String>) -> (r: Option<String>)
    ensures
        opt_view(r) == opt_view(*o),
{
    match o {
        Some(s) => Some(s.clone()),
        None => None,
    }
}

fn clone_bytes(v: &Vec<u8>) -> (r: Vec<u8>)
    ensures
        r@ == v@,
{
    let mut r: Vec<u8> = Vec::new();
    let mut i: usize = 0;
    while i < v.len()
        invariant
            i <= v@.len(),
            r@ == v@.subrange(0, i as int),
        decreases v@.len() - i,
    {
        r.push(v[i]);
        i = i + 1;
        assert(r@ =~= v@.subrange(0, i as int));
    }
    assert(v@.subrange(0, v@.len() as int) =~= v@);
    r
}

impl Params {
    /// Adds the descriptor of one multipart upload for field `field_name`.
    fn add_upload(
        &mut self,
        metadata: &TableMetadata,
        seen: &mut Vec<String>,
        field_name: String,
        upload: &FileUpload,
    ) -> (r: Result<bool, ParamsError>)
        requires
            old(self).wf(),
            metadata.wf(),
        ensures
            match upload_step(*metadata, strings_of(old(seen)@), field_name@) {
                Err(e) => r == Err::<bool, ParamsError>(e),
                Ok((seen2, adds)) => r == Ok::<bool, ParamsError>(adds) && strings_of(final(seen)@) == seen2
                    && final(self).wf() && if adds {
                    appended(
                        old(self)@,
                        final(self)@,
                        seq![field_name@],
                        seq![SqlVal::Text(upload_text(*upload))],
                        seq![],
                    )
                } else {
                    final(self)@ == old(self)@
                },
            },
    {
        proof {
            reveal(upload_step);
            reveal_strlit("std.FileUpload");
            reveal_strlit("std.FileUploads");
            assert("std.FileUpload"@ =~= file_upload_name());
            assert("std.FileUploads"@ =~= file_uploads_name());
        }
        let idx = match metadata.column_by_name(field_name.as_str()) {
            None => {
                return Ok(false);
            },
            Some(idx) => idx,
        };
        proof {
            metadata.lemma_wf_len();
        }
        let single = match &metadata.column_metadata[idx].json {
            Some(JsonColumnMetadata::SchemaName(s)) => {
                if str_eq(s.as_str(), "std.FileUpload") {
                    true
                } else if str_eq(s.as_str(), "std.FileUploads") {
                    false
                } else {
                    return Err(ParamsError::Column(ColumnError::MismatchingSchema));
                }
            },
            _ => {
                return Err(ParamsError::Column(ColumnError::ExpectedJsonColumn));
            },
        };
        if single {
            if contains_name(seen, field_name.as_str()) {
                return Err(ParamsError::Column(ColumnError::Collision));
            }
            let ghost old_seen = seen@;
            seen.push(field_name.clone());
            proof {
                assert(strings_of(seen@) =~= strings_of(old_seen).push(field_name@));
                assert(strings_of(seen@) =~= strings_of(old_seen).push(field_name@));
            }
        }
        let ghost before = self@;
        let ghost n = field_name@;
        let text = upload_to_json(upload);
        self.push_param(field_name, SqlValue::Text(text));
        self.mark_files(Vec::new());
        proof {
            assert(placeholders_for(seq![n]) =~= seq![placeholder(n)]);
            assert(self@.columns =~= before.columns + seq![n]);
            assert(self@.placeholders =~= before.placeholders + placeholders_for(seq![n]));
            assert(self@.values =~= before.values + seq![SqlVal::Text(upload_text(*upload))]);
            assert(self@.file_columns =~= before.file_columns + seq![n]);
            assert(self@.files =~= before.files + Seq::<(FileUpload, Seq<u8>)>::empty());
        }
        Ok(true)
    }

    /// Adds the files of a multipart upload, each to the column its field names.
    fn append_multipart_files(&mut self, metadata: &TableMetadata, multipart_files: Vec<
        FileUploadInput,
    >) -> (r: Result<(), ParamsError>)
        requires
            old(self).wf(),
            metadata.wf(),
        ensures
            multipart_outcome(*metadata, multipart_files@) matches Ok(cols) ==> r is Ok
                && final(self).wf() && exists|nf: Seq<(FileUpload, Vec<u8>)>|
                multipart_stored(*metadata, multipart_files@, nf, cols, old(self)@, final(self)@),
            multipart_outcome(*metadata, multipart_files@) matches Err(e) ==> r == Err::<
                (),
                ParamsError,
            >(e),
    {
        let mut i: usize = 0;
        while i < multipart_files.len()
            invariant
                i <= multipart_files@.len(),
                forall|j: int| 0 <= j < i ==> (#[trigger] multipart_files@[j]).name is Some,
            decreases multipart_files@.len() - i,
        {
            if multipart_files[i].name.is_none() {
                assert(0 <= i < multipart_files@.len() && multipart_files@[i as int].name is None);
                return Err(ParamsError::Column(ColumnError::MissingName));
            }
            i = i + 1;
        }
        let ghost all = multipart_files@;
        let ghost names = upload_names(all);
        let ghost start = self@;
        let mut seen: Vec<String> = Vec::new();
        let mut added: FileContents = Vec::new();
        proof {
            reveal_with_fuel(uploads_run, 1);
            assert(strings_of(seen@) =~= Seq::<Seq<char>>::empty());
            assert(self@.columns =~= start.columns + Seq::<Seq<char>>::empty());
            assert(self@.values.subrange(0, start.values.len() as int) =~= start.values);
        }
        let ghost mut cols: Seq<Seq<char>> = seq![];
        let ghost mut vals: Seq<SqlVal> = seq![];
        let ghost mut nf: Seq<(FileUpload, Vec<u8>)> = seq![];
        proof {
            assert(appended(start, self@, cols, vals, seq![])) by {
                assert(placeholders_for(cols) =~= Seq::<Seq<char>>::empty());
                assert(self@.columns =~= start.columns + cols);
                assert(self@.placeholders =~= start.placeholders + placeholders_for(cols));
                assert(self@.values =~= start.values + vals);
                assert(self@.file_columns =~= start.file_columns + cols);
                assert(self@.files =~= start.files + Seq::<(FileUpload, Seq<u8>)>::empty());
            }
            assert(files_of(added@) =~= Seq::<(FileUpload, Seq<u8>)>::empty());
        }
        let mut i: usize = 0;
        while i < multipart_files.len()
            invariant
                self.wf(),
                metadata.wf(),
                all == multipart_files@,
                i <= all.len(),
                forall|j: int| 0 <= j < all.len() ==> (#[trigger] all[j]).name is Some,
                names == upload_names(all),
                uploads_run(*metadata, names, i as int) == Ok::<
                    (Seq<Seq<char>>, Seq<Seq<char>>),
                    ParamsError,
                >((strings_of(seen@), cols)),
                nf.len() == i,
                forall|k: int| 0 <= k < i ==> upload_kept(#[trigger] nf[k], all[k]),
                uploads_added(*metadata, names, nf) == (cols, vals, files_of(added@)),
                appended(start, self@, cols, vals, seq![]),
            decreases all.len() - i,
        {
            let ghost before = self@;
            let ghost before_added = added@;
            let ghost n = all[i as int].name->Some_0@;
            assert(names[i as int] == n);
            let file = &multipart_files[i];
            let input = FileUploadInput {
                name: None,
                filename: clone_opt(&file.filename),
                content_type: clone_opt(&file.content_type),
                data: clone_bytes(&file.data),
            };
            let (_, upload, content) = input.consume();
            let field_name = match &file.name {
                Some(n) => n.clone(),
                None => {
                    return Err(ParamsError::Column(ColumnError::MissingName));
                },
            };
            let ghost pair = (upload, content);
            let res = self.add_upload(metadata, &mut seen, field_name, &upload);
            proof {
                lemma_uploads_run_step(*metadata, names, i as int);
            }
            let adds = match res {
                Err(e) => {
                    proof {
                        lemma_uploads_run_error_sticks(*metadata, names, i + 1);
                    }
                    return Err(e);
                },
                Ok(adds) => adds,
            };
            if adds {
                added.push((upload, content));
            }
            proof {
                let nf2 = nf.push(pair);
                assert(nf2.drop_last() =~= nf);
                assert(nf2[i as int] == pair);
                assert forall|k: int| 0 <= k < i + 1 implies upload_kept(#[trigger] nf2[k], all[k]) by {
                    if k < i {
                        assert(nf2[k] == nf[k]);
                    }
                }
                if adds {
                    let d = pair.0;
                    lemma_appended_trans(start, before, self@, cols, vals, seq![], seq![n], seq![SqlVal::Text(upload_text(d))], seq![]);
                    cols = cols + seq![n];
                    vals = vals + seq![SqlVal::Text(upload_text(d))];
                    assert(cols =~= uploads_run(*metadata, names, i as int)->Ok_0.1.push(n));
                    assert(files_of(added@) =~= files_of(before_added).push((d, pair.1@)));
                    assert(uploads_added(*metadata, names, nf2) == (cols, vals, files_of(added@))) by {
                        assert(cols =~= uploads_added(*metadata, names, nf).0.push(n));
                        assert(vals =~= uploads_added(*metadata, names, nf).1.push(SqlVal::Text(upload_text(d))));
                    }
                    assert(appended(start, self@, cols, vals, Seq::<(FileUpload, Seq<u8>)>::empty()) ) by {
                        assert(Seq::<(FileUpload, Seq<u8>)>::empty() + Seq::<(FileUpload, Seq<u8>)>::empty() =~= Seq::<(FileUpload, Seq<u8>)>::empty());
                    }
                } else {
                    assert(cols =~= uploads_run(*metadata, names, i as int)->Ok_0.1);
                }
                nf = nf2;
            }
            i = i + 1;
        }
        proof {
            assert(!exists|i: int| 0 <= i < all.len() && (#[trigger] all[i]).name is None);
        }
        let ghost mid = self@;
        let ghost kept = files_of(added@);
        proof {
            reveal(Params::wf);
            assert(mid.placeholders.len() == mid.columns.len());
        }
        self.files.append(&mut added);
        proof {
            assert(self@.placeholders == mid.placeholders && self@.file_columns == mid.file_columns);
            assert(self@.columns == mid.columns && self@.values == mid.values);
            assert(self@.files =~= mid.files + kept);
            assert(self@.files =~= start.files + kept);
            assert(appended(start, self@, cols, vals, kept));
            assert(uploads_run(*metadata, names, all.len() as int)->Ok_0.1 == cols);
            assert(multipart_stored(*metadata, all, nf, cols, start, self@));
            assert(start == old(self)@);
            assert(all == multipart_files@);
        }
        assert(self.wf()) by {
            reveal(Params::wf);
        }
        proof {
            let c2 = multipart_outcome(*metadata, multipart_files@)->Ok_0;
            assert(c2 == cols);
            assert(multipart_stored(*metadata, multipart_files@, nf, c2, old(self)@, self@));
        }
        Ok(())
    }
}

proof fn lemma_members_error_step(
    t: TableMetadata,
    reg: Map<Seq<char>, Seq<char>>,
    ms: Seq<(String, JsonValue)>,
    m: (String, JsonValue),
)
    ensures
        members_error(t, reg, seq![]) is None,
        members_error(t, reg, ms.push(m)) == match members_error(t, reg, ms) {
            Some(e) => Some(e),
            None => match member_conv(t, reg, m) {
                Conv::Failed(e) => Some(e),
                _ => None,
            },
        },
{
    reveal_with_fuel(members_error, 2);
    assert(ms.push(m).drop_last() =~= ms);
}

proof fn lemma_member_conv(t: TableMetadata, reg: Map<Seq<char>, Seq<char>>, m: (String, JsonValue), i: int)
    requires
        column_index(t.schema.columns@, m.0@) == Some(i),
    ensures
        member_conv(t, reg, m) == convert(t.schema.columns@[i], t.json_meta(i), reg, m.1),
{
    reveal(member_conv);
}

proof fn lemma_holds_empty(p: ParamsView, t: TableMetadata, reg: Map<Seq<char>, Seq<char>>)
    ensures
        holds_members(p, t, reg, seq![]),
{
    reveal(holds_members);
    assert(p.columns.subrange(0, 0) =~= member_keys(seq![]));
}

proof fn lemma_holds_push(
    a: ParamsView,
    b: ParamsView,
    t: TableMetadata,
    reg: Map<Seq<char>, Seq<char>>,
    ks: Seq<(String, JsonValue)>,
    m: (String, JsonValue),
    v: SqlVal,
)
    requires
        holds_members(a, t, reg, ks),
        a.columns == member_keys(ks),
        a.values.len() == a.columns.len(),
        b.columns == a.columns.push(m.0@),
        b.values == a.values.push(v),
        member_conv(t, reg, m) matches Conv::Plain(x) ==> v == x,
    ensures
        holds_members(b, t, reg, ks.push(m)),
        b.columns == member_keys(ks.push(m)),
{
    reveal(holds_members);
    let ks2 = ks.push(m);
    assert(b.columns =~= member_keys(ks2));
    assert(b.columns.subrange(0, ks2.len() as int) =~= b.columns);
    assert forall|j: int| 0 <= j < ks2.len() implies match #[trigger] member_conv(t, reg, ks2[j]) {
        Conv::Plain(x) => b.values[j] == x,
        _ => true,
    } by {
        if j < ks.len() {
            assert(ks2[j] == ks[j]);
            assert(b.values[j] == a.values[j]);
            assert(match member_conv(t, reg, ks[j]) {
                Conv::Plain(x) => a.values[j] == x,
                _ => true,
            });
        }
    }
}

proof fn lemma_holds_extended(
    a: ParamsView,
    b: ParamsView,
    t: TableMetadata,
    reg: Map<Seq<char>, Seq<char>>,
    ks: Seq<(String, JsonValue)>,
    cols: Seq<Seq<char>>,
)
    requires
        holds_members(a, t, reg, ks),
        a.values.len() == a.columns.len(),
        extended(a, b, cols),
    ensures
        holds_members(b, t, reg, ks),
{
    reveal(holds_members);
    assert(b.columns.subrange(0, ks.len() as int) =~= a.columns.subrange(0, ks.len() as int));
    assert forall|j: int| 0 <= j < ks.len() implies match #[trigger] member_conv(t, reg, ks[j]) {
        Conv::Plain(x) => b.values[j] == x,
        _ => true,
    } by {
        assert(b.values[j] == b.values.subrange(0, a.values.len() as int)[j]);
    }
}

proof fn lemma_kept_extend(t: TableMetadata, all: Seq<(String, JsonValue)>, k: int)
    requires
        0 <= k < all.len(),
    ensures
        kept_members(t, all.subrange(0, k + 1)) == if column_index(t.schema.columns@, all[k].0@) is Some {
            kept_members(t, all.subrange(0, k)).push(all[k])
        } else {
            kept_members(t, all.subrange(0, k))
        },
{
    reveal_with_fuel(kept_members, 2);
    assert(all.subrange(0, k + 1).drop_last() =~= all.subrange(0, k));
}

/// The members kept from a prefix of a row are a prefix of those kept from the row.
proof fn lemma_kept_prefix(t: TableMetadata, all: Seq<(String, JsonValue)>, k: int)
    requires
        0 <= k <= all.len(),
    ensures
        kept_members(t, all.subrange(0, k)).len() <= kept_members(t, all).len(),
        kept_members(t, all).subrange(0, kept_members(t, all.subrange(0, k)).len() as int)
            == kept_members(t, all.subrange(0, k)),
    decreases all.len() - k,
{
    if k == all.len() {
        assert(all.subrange(0, k) =~= all);
        assert(kept_members(t, all).subrange(0, kept_members(t, all).len() as int) =~= kept_members(
            t,
            all,
        ));
    } else {
        lemma_kept_prefix(t, all, k + 1);
        lemma_kept_extend(t, all, k);
        let a = kept_members(t, all.subrange(0, k));
        let b = kept_members(t, all.subrange(0, k + 1));
        let c = kept_members(t, all);
        assert(c.subrange(0, a.len() as int) =~= c.subrange(0, b.len() as int).subrange(
            0,
            a.len() as int,
        ));
        assert(b.subrange(0, a.len() as int) =~= a);
    }
}

/// An error in a prefix of the members is the error of all of them.
proof fn lemma_members_error_prefix(
    t: TableMetadata,
    reg: Map<Seq<char>, Seq<char>>,
    a: Seq<(String, JsonValue)>,
    b: Seq<(String, JsonValue)>,
)
    requires
        a.len() <= b.len(),
        b.subrange(0, a.len() as int) == a,
        members_error(t, reg, a) is Some,
    ensures
        members_error(t, reg, b) == members_error(t, reg, a),
    decreases b.len(),
{
    if b.len() > a.len() {
        assert(b.drop_last().subrange(0, a.len() as int) =~= b.subrange(0, a.len() as int));
        lemma_members_error_prefix(t, reg, a, b.drop_last());
        lemma_members_error_step(t, reg, b.drop_last(), b.last());
        assert(b.drop_last().push(b.last()) =~= b);
    } else {
        assert(b =~= a);
    }
}

/// The files split out of one member.
pub type FileContentsView = Seq<(FileUpload, Vec<u8>)>;

/// What adding a member that converted as `c` did: its column, placeholder and value
/// were added; for file descriptors, the column is marked a file column and the files
/// `fs` are added to those to store.
pub open spec fn member_added(
    before: ParamsView,
    after: ParamsView,
    key: Seq<char>,
    v: JsonValue,
    c: Conv,
    fs: FileContentsView,
) -> bool {
    &&& after.table_name == before.table_name
    &&& after.columns == before.columns.push(key)
    &&& after.placeholders == before.placeholders.push(placeholder(key))
    &&& after.values.len() == before.values.len() + 1
    &&& after.values.drop_last() == before.values
    &&& match c {
        Conv::Plain(x) => after.values.last() == x && fs.len() == 0 && after.file_columns
            == before.file_columns && after.files == before.files,
        Conv::Files => files_stored(v, after.values.last(), fs) && after.file_columns
            == before.file_columns.push(key) && after.files == before.files + files_of(fs),
        Conv::Failed(_) => false,
    }
}

/// The keys of the members that carry file descriptors, in order.
pub open spec fn file_keys(
    t: TableMetadata,
    reg: Map<Seq<char>, Seq<char>>,
    ks: Seq<(String, JsonValue)>,
) -> Seq<Seq<char>>
    decreases ks.len(),
{
    if ks.len() == 0 {
        seq![]
    } else if member_conv(t, reg, ks.last()) is Files {
        file_keys(t, reg, ks.drop_last()).push(ks.last().0@)
    } else {
        file_keys(t, reg, ks.drop_last())
    }
}

/// The files of all members, in order.
pub open spec fn flat_files(mf: Seq<FileContentsView>) -> Seq<(FileUpload, Seq<u8>)>
    decreases mf.len(),
{
    if mf.len() == 0 {
        seq![]
    } else {
        flat_files(mf.drop_last()) + files_of(mf.last())
    }
}

/// `mf[k]` are the files member `k` was split into: its value stores their descriptors.
#[verifier::opaque]
pub open spec fn member_files(
    p: ParamsView,
    t: TableMetadata,
    reg: Map<Seq<char>, Seq<char>>,
    ks: Seq<(String, JsonValue)>,
    mf: Seq<FileContentsView>,
) -> bool {
    &&& mf.len() == ks.len()
    &&& p.values.len() >= ks.len()
    &&& forall|k: int|
        0 <= k < ks.len() ==> if member_conv(t, reg, #[trigger] ks[k]) is Files {
            files_stored(ks[k].1, p.values[k], mf[k])
        } else {
            mf[k].len() == 0
        }
}

/// The file columns and files of parameters built from the kept members `ks` and the
/// multipart uploads `fs`: the members' file columns, then the uploads' columns (`cols`);
/// the members' files, then the files of the uploads for file columns, split out as
/// `nf` says.
pub open spec fn row_files(
    p: ParamsView,
    t: TableMetadata,
    reg: Map<Seq<char>, Seq<char>>,
    ks: Seq<(String, JsonValue)>,
    mf: Seq<FileContentsView>,
    fs: Option<Seq<FileUploadInput>>,
    nf: Seq<(FileUpload, Vec<u8>)>,
    cols: Seq<Seq<char>>,
) -> bool {
    &&& member_files(p, t, reg, ks, mf)
    &&& p.file_columns == file_keys(t, reg, ks) + cols
    &&& match fs {
        None => nf.len() == 0 && p.files == flat_files(mf),
        Some(fs) => nf.len() == fs.len() && (forall|k: int|
            0 <= k < nf.len() ==> upload_kept(#[trigger] nf[k], fs[k]))
            && uploads_added(t, upload_names(fs), nf).1 == p.values.subrange(
            ks.len() as int,
            p.values.len() as int,
        ) && p.files == flat_files(mf) + uploads_added(t, upload_names(fs), nf).2,
    }
}

/// Some split of the files into the members' and the uploads' meets `row_files`.
#[verifier::opaque]
pub open spec fn files_accounted(
    p: ParamsView,
    t: TableMetadata,
    reg: Map<Seq<char>, Seq<char>>,
    ks: Seq<(String, JsonValue)>,
    fs: Option<Seq<FileUploadInput>>,
    cols: Seq<Seq<char>>,
) -> bool {
    exists|mf: Seq<FileContentsView>, nf: Seq<(FileUpload, Vec<u8>)>|
        row_files(p, t, reg, ks, mf, fs, nf, cols)
}

proof fn lemma_member_files_push(
    a: ParamsView,
    b: ParamsView,
    t: TableMetadata,
    reg: Map<Seq<char>, Seq<char>>,
    ks: Seq<(String, JsonValue)>,
    mf: Seq<FileContentsView>,
    m: (String, JsonValue),
    fs: FileContentsView,
)
    requires
        member_files(a, t, reg, ks, mf),
        a.values.len() == ks.len(),
        member_added(a, b, m.0@, m.1, member_conv(t, reg, m), fs),
    ensures
        member_files(b, t, reg, ks.push(m), mf.push(fs)),
        file_keys(t, reg, ks.push(m)) == if member_conv(t, reg, m) is Files {
            file_keys(t, reg, ks).push(m.0@)
        } else {
            file_keys(t, reg, ks)
        },
        flat_files(mf.push(fs)) == flat_files(mf) + files_of(fs),
{
    reveal(member_files);
    let ks2 = ks.push(m);
    let mf2 = mf.push(fs);
    assert(ks2.drop_last() =~= ks);
    assert(mf2.drop_last() =~= mf);
    assert forall|k: int| 0 <= k < ks2.len() implies if member_conv(t, reg, #[trigger] ks2[k]) is Files {
        files_stored(ks2[k].1, b.values[k], mf2[k])
    } else {
        mf2[k].len() == 0
    } by {
        if k < ks.len() {
            assert(ks2[k] == ks[k]);
            assert(b.values[k] == a.values[k]);
            assert(mf2[k] == mf[k]);
        } else {
            assert(b.values[k] == b.values.last());
        }
    }
}

proof fn lemma_member_files_keep(
    a: ParamsView,
    b: ParamsView,
    t: TableMetadata,
    reg: Map<Seq<char>, Seq<char>>,
    ks: Seq<(String, JsonValue)>,
    mf: Seq<FileContentsView>,
)
    requires
        member_files(a, t, reg, ks, mf),
        b.values.len() >= a.values.len(),
        b.values.subrange(0, a.values.len() as int) == a.values,
    ensures
        member_files(b, t, reg, ks, mf),
{
    reveal(member_files);
    assert forall|k: int| 0 <= k < ks.len() implies if member_conv(t, reg, #[trigger] ks[k]) is Files {
        files_stored(ks[k].1, b.values[k], mf[k])
    } else {
        mf[k].len() == 0
    } by {
        assert(b.values[k] == b.values.subrange(0, a.values.len() as int)[k]);
    }
}

impl Params {
    /// Adds the parameter for one member of a JSON row; a member whose key names no
    /// column is dropped.
    fn add_member(
        &mut self,
        metadata: &TableMetadata,
        registry: &SchemaRegistry,
        key: String,
        value: JsonValue,
    ) -> (r: Result<(), ParamsError>)
        requires
            old(self).wf(),
            metadata.wf(),
            registry.wf(),
        ensures
            column_index(metadata.schema.columns@, key@) is None ==> r is Ok && final(self)@
                == old(self)@ && final(self).wf(),
            column_index(metadata.schema.columns@, key@) is Some ==> match member_conv(
                *metadata,
                registry.view(),
                (key, value),
            ) {
                Conv::Failed(e) => r == Err::<(), ParamsError>(e),
                c => r is Ok && final(self).wf() && exists|fs: FileContentsView|
                    member_added(old(self)@, final(self)@, key@, value, c, fs),
            },
    {
        let ghost m = (key, value);
        let idx = match metadata.column_by_name(key.as_str()) {
            None => {
                return Ok(());
            },
            Some(idx) => idx,
        };
        proof {
            metadata.lemma_wf_len();
            lemma_member_conv(*metadata, registry.view(), m, idx as int);
        }
        let res = extract_params_and_files_from_json(
            &metadata.schema.columns[idx],
            &metadata.column_metadata[idx],
            registry,
            value,
        );
        let (param, files) = res?;
        let ghost before = self@;
        let ghost k = key@;
        proof {
            self.lemma_wf();
        }
        self.push_param(key, param);
        let ghost pushed = self@;
        match files {
            Some(files) => {
                let ghost fs = files@;
                self.mark_files(files);
                assert(self@.values.drop_last() =~= before.values);
                assert(member_added(before, self@, k, m.1, member_conv(*metadata, registry.view(), m), fs));
            },
            None => {
                assert(self@.values.drop_last() =~= before.values);
                assert(member_added(before, self@, k, m.1, member_conv(*metadata, registry.view(), m), seq![]));
            },
        }
        Ok(())
    }

    /// Converts a JSON row into parameters for `metadata`'s table, splitting out files.
    /// Members whose key names no column are dropped. Files of a multipart upload, when
    /// given, are added after the row's members.
    pub fn from(
        metadata: &TableMetadata,
        registry: &SchemaRegistry,
        json: Vec<(String, JsonValue)>,
        multipart_files: Option<Vec<FileUploadInput>>,
    ) -> (r: Result<Params, ParamsError>)
        requires
            metadata.wf(),
            registry.wf(),
            keys_unique(json@),
        ensures
            params_outcome(r, *metadata, registry.view(), json@, opt_files(multipart_files)),
    {
        let mut params = Params::empty(metadata.schema.name.name.clone());
        let ghost all = json@;
        let ghost reg = registry.view();
        let ghost mut ks: Seq<(String, JsonValue)> = seq![];
        let mut rest = json;
        let ghost mut mf: Seq<FileContentsView> = seq![];
        proof {
            assert(all.subrange(0, 0) =~= Seq::<(String, JsonValue)>::empty());
            reveal_with_fuel(kept_members, 1);
            reveal_with_fuel(members_error, 1);
            lemma_holds_empty(params@, *metadata, reg);
            assert(params@.columns =~= member_keys(ks));
            assert(member_files(params@, *metadata, reg, ks, mf)) by {
                reveal(member_files);
            }
            assert(params@.file_columns =~= file_keys(*metadata, reg, ks));
            assert(params@.files =~= flat_files(mf));
            params.lemma_wf();
        }
        while rest.len() > 0
            invariant
                metadata.wf(),
                registry.wf(),
                reg == registry.view(),
                all == json@,
                rest@.len() <= all.len(),
                rest@ == all.subrange(all.len() - rest@.len(), all.len() as int),
                ks == kept_members(*metadata, all.subrange(0, all.len() - rest@.len())),
                members_error(*metadata, reg, ks) is None,
                params.wf(),
                params@.table_name == metadata.schema.name.name@,
                params@.columns == member_keys(ks),
                holds_members(params@, *metadata, reg, ks),
                params@.values.len() == ks.len(),
                member_files(params@, *metadata, reg, ks, mf),
                params@.file_columns == file_keys(*metadata, reg, ks),
                params@.files == flat_files(mf),
            decreases rest@.len(),
        {
            let ghost k = all.len() - rest@.len();
            let (key, value) = rest.remove(0);
            let ghost m = (key, value);
            proof {
                assert(all[k] == m);
                assert(rest@ =~= all.subrange(all.len() - rest@.len(), all.len() as int));
                lemma_kept_extend(*metadata, all, k);
                lemma_members_error_step(*metadata, reg, ks, m);
                params.lemma_wf();
            }
            let ghost before = params@;
            let known = metadata.column_by_name(key.as_str()).is_some();
            let res = params.add_member(metadata, registry, key, value);
            if known {
                let ghost ks2 = ks.push(m);
                match res {
                    Err(e) => {
                        proof {
                            assert(member_conv(*metadata, reg, m) == Conv::Failed(e));
                            assert(members_error(*metadata, reg, ks2) == Some(e));
                            assert(ks2 == kept_members(*metadata, all.subrange(0, k + 1)));
                            lemma_kept_prefix(*metadata, all, k + 1);
                            lemma_members_error_prefix(*metadata, reg, ks2, kept_members(*metadata, all));
                            assert(members_error(*metadata, reg, kept_members(*metadata, all)) == Some(e));
                            assert(all == json@);
                            assert(reg == registry.view());
                        }
                        return Err(e);
                    },
                    Ok(()) => {
                        proof {
                            let v = params@.values.last();
                            assert(params@.values =~= before.values.push(v));
                            lemma_holds_push(before, params@, *metadata, reg, ks, m, v);
                            let fs = choose|fs: FileContentsView|
                                member_added(before, params@, m.0@, m.1, member_conv(*metadata, reg, m), fs);
                            lemma_member_files_push(before, params@, *metadata, reg, ks, mf, m, fs);
                            ks = ks2;
                            mf = mf.push(fs);
                            params.lemma_wf();
                        }
                    },
                }
            }
        }
        proof {
            assert(all.subrange(0, all.len() as int) =~= all);
        }
        match multipart_files {
            None => {
                proof {
                    assert(params@.columns =~= member_keys(ks) + Seq::<Seq<char>>::empty());
                    assert(params@.file_columns =~= file_keys(*metadata, reg, ks) + Seq::<Seq<char>>::empty());
                    let nf: Seq<(FileUpload, Vec<u8>)> = seq![];
                    assert(params@.files == flat_files(mf));
                    assert(row_files(params@, *metadata, reg, ks, mf, None, nf, seq![]));
                    assert(ks == kept_members(*metadata, json@));
                    assert(opt_files(multipart_files) is None);
                    assert(row_files(params@, *metadata, registry.view(), kept_members(*metadata, json@), mf, opt_files(multipart_files), nf, seq![]));
                    assert(exists|mf2: Seq<FileContentsView>, nf2: Seq<(FileUpload, Vec<u8>)>| row_files(params@, *metadata, registry.view(), kept_members(*metadata, json@), mf2, opt_files(multipart_files), nf2, seq![]));
                }
                let r = Ok(params);
                proof {
                    let ks0 = kept_members(*metadata, json@);
                    assert(members_error(*metadata, registry.view(), ks0) is None);
                    assert(r->Ok_0.wf());
                    assert(r->Ok_0@.columns == member_keys(ks0) + Seq::<Seq<char>>::empty());
                    assert(holds_members(r->Ok_0@, *metadata, registry.view(), ks0));
                    assert(exists|mf2: Seq<FileContentsView>, nf2: Seq<(FileUpload, Vec<u8>)>| row_files(r->Ok_0@, *metadata, registry.view(), ks0, mf2, opt_files(multipart_files), nf2, seq![]));
                    assert(files_accounted(r->Ok_0@, *metadata, registry.view(), ks0, opt_files(multipart_files), seq![])) by {
                        reveal(files_accounted);
                    }
                }
                assert(params_outcome(r, *metadata, registry.view(), json@, opt_files(multipart_files)));
                r
            },
            Some(fs) => {
                let ghost before = params@;
                proof {
                    params.lemma_wf();
                }
                match params.append_multipart_files(metadata, fs) {
                    Err(e) => Err(e),
                    Ok(()) => {
                        proof {
                            let cols = multipart_outcome(*metadata, fs@)->Ok_0;
                            let nf = choose|nf: Seq<(FileUpload, Vec<u8>)>| multipart_stored(*metadata, fs@, nf, cols, before, params@);
                            lemma_appended_extends(before, params@, cols, uploads_added(*metadata, upload_names(fs@), nf).1, uploads_added(*metadata, upload_names(fs@), nf).2);
                            lemma_holds_extended(before, params@, *metadata, reg, ks, cols);
                            let vals = uploads_added(*metadata, upload_names(fs@), nf).1;
                            assert(params@.values.subrange(0, before.values.len() as int) =~= before.values);
                            lemma_member_files_keep(before, params@, *metadata, reg, ks, mf);
                            assert(params@.values.subrange(ks.len() as int, params@.values.len() as int) =~= vals);
                            assert(row_files(params@, *metadata, reg, ks, mf, Some(fs@), nf, cols));
                            assert(ks == kept_members(*metadata, json@));
                            assert(row_files(params@, *metadata, registry.view(), kept_members(*metadata, json@), mf, Some(fs@), nf, cols));
                            assert(exists|mf2: Seq<FileContentsView>, nf2: Seq<(FileUpload, Vec<u8>)>| row_files(params@, *metadata, registry.view(), kept_members(*metadata, json@), mf2, Some(fs@), nf2, cols));
                            assert(multipart_outcome(*metadata, fs@) == Ok::<Seq<Seq<char>>, ParamsError>(cols));
                            assert(files_accounted(params@, *metadata, registry.view(), kept_members(*metadata, json@), Some(fs@), cols)) by {
                                reveal(files_accounted);
                            }
                        }
                        let r = Ok(params);
                        assert(params_outcome(r, *metadata, registry.view(), json@, Some(fs@)));
                        r
                    },
                }
            },
        }
    }
}


/// A member whose key names no column is dropped without effect: inserted anywhere in a
/// row, it leaves the kept members, and so the outcome of [`Params::from`], unchanged;
/// in particular it never makes the conversion fail.
pub proof fn lemma_unknown_keys_dropped(
    t: TableMetadata,
    reg: Map<Seq<char>, Seq<char>>,
    json: Seq<(String, JsonValue)>,
    i: int,
    m: (String, JsonValue),
)
    requires
        0 <= i <= json.len(),
        column_index(t.schema.columns@, m.0@) is None,
    ensures
        kept_members(t, json.insert(i, m)) == kept_members(t, json),
        members_error(t, reg, kept_members(t, json.insert(i, m))) == members_error(
            t,
            reg,
            kept_members(t, json),
        ),
    decreases json.len(),
{
    reveal_with_fuel(kept_members, 2);
    let j2 = json.insert(i, m);
    if i == json.len() {
        assert(j2.drop_last() =~= json);
    } else {
        assert(j2.drop_last() =~= json.drop_last().insert(i, m));
        assert(j2.last() == json.last());
        lemma_unknown_keys_dropped(t, reg, json.drop_last(), i, m);
    }
}

/// A scalar member (null, boolean, number or string) of a known column becomes the
/// parameter its column's type makes of it: a numeric string in an integer column is
/// that integer, a boolean is 0 or 1, and so on, as `simple_param` says.
pub proof fn lemma_scalar_member_converts(
    t: TableMetadata,
    reg: Map<Seq<char>, Seq<char>>,
    m: (String, JsonValue),
    i: int,
)
    requires
        column_index(t.schema.columns@, m.0@) == Some(i),
        !(m.1 is Object) && !(m.1 is Array),
    ensures
        member_conv(t, reg, m) == match simple_param(t.schema.columns@[i].data_type, m.1) {
            Ok(x) => Conv::Plain(x),
            Err(e) => Conv::Failed(e),
        },
{
    lemma_member_conv(t, reg, m, i);
}

/// Two rows that differ by a member whose key names no column convert alike: whatever
/// one call of [`Params::from`] may return on the one row, it may return on the other.
pub proof fn lemma_unknown_key_same_outcome(
    t: TableMetadata,
    reg: Map<Seq<char>, Seq<char>>,
    json: Seq<(String, JsonValue)>,
    i: int,
    m: (String, JsonValue),
    files: Option<Seq<FileUploadInput>>,
    p: Result<Params, ParamsError>,
)
    requires
        0 <= i <= json.len(),
        column_index(t.schema.columns@, m.0@) is None,
    ensures
        params_outcome(p, t, reg, json.insert(i, m), files) == params_outcome(p, t, reg, json, files),
{
    lemma_unknown_keys_dropped(t, reg, json, i, m);
}

/// A member that gives a blob column an array of integers in 0..=255 becomes exactly
/// those bytes; an array with any other element makes the whole row fail, before any
/// statement exists.
pub proof fn lemma_blob_member(
    t: TableMetadata,
    reg: Map<Seq<char>, Seq<char>>,
    m: (String, JsonValue),
    i: int,
    bytes: Seq<u8>,
)
    requires
        t.wf(),
        column_index(t.schema.columns@, m.0@) == Some(i),
        t.schema.columns@[i].data_type == ColumnDataType::Blob,
        m.1 is Array,
    ensures
        blob_of(m.1->Array_0@) == Ok::<Seq<u8>, ParamsError>(bytes) ==> member_conv(t, reg, m)
            == Conv::Plain(SqlVal::Blob(bytes)),
        blob_of(m.1->Array_0@) is Err ==> member_conv(t, reg, m) is Failed,
{
    lemma_member_conv(t, reg, m, i);
}

/// A JSON array of integers in 0..=255 is stored as exactly those bytes.
pub proof fn lemma_byte_array_exact(arr: Seq<JsonValue>, bytes: Seq<u8>)
    requires
        arr.len() == bytes.len(),
        forall|i: int|
            0 <= i < arr.len() ==> #[trigger] arr[i] == JsonValue::Number(
                JsonNumber::Int(bytes[i] as i64),
            ),
    ensures
        blob_of(arr) == Ok::<Seq<u8>, ParamsError>(bytes),
{
    lemma_blob_prefix_exact(arr, bytes, arr.len() as int);
    assert(bytes.subrange(0, arr.len() as int) =~= bytes);
}

proof fn lemma_blob_prefix_exact(arr: Seq<JsonValue>, bytes: Seq<u8>, k: int)
    requires
        0 <= k <= arr.len(),
        arr.len() == bytes.len(),
        forall|i: int|
            0 <= i < arr.len() ==> #[trigger] arr[i] == JsonValue::Number(
                JsonNumber::Int(bytes[i] as i64),
            ),
    ensures
        blob_prefix(arr, k) == Ok::<Seq<u8>, ParamsError>(bytes.subrange(0, k)),
    decreases k,
{
    if k > 0 {
        lemma_blob_prefix_exact(arr, bytes, k - 1);
        assert(arr[k - 1] == JsonValue::Number(JsonNumber::Int(bytes[k - 1] as i64)));
        assert(bytes.subrange(0, k - 1).push(bytes[k - 1]) =~= bytes.subrange(0, k));
    } else {
        assert(bytes.subrange(0, 0) =~= Seq::<u8>::empty());
    }
}

/// An array with any element that is no integer in 0..=255 is refused.
pub proof fn lemma_byte_array_rejects(arr: Seq<JsonValue>, i: int)
    requires
        0 <= i < arr.len(),
        byte_of(arr[i]) is Err,
    ensures
        blob_of(arr) is Err,
{
    lemma_blob_err_at(arr, i + 1, i);
    lemma_blob_error_sticks(arr, i + 1);
}

proof fn lemma_blob_err_at(arr: Seq<JsonValue>, k: int, i: int)
    requires
        0 <= i < k <= arr.len(),
        byte_of(arr[i]) is Err,
    ensures
        blob_prefix(arr, k) is Err,
    decreases k,
{
    if k - 1 > i {
        lemma_blob_err_at(arr, k - 1, i);
    }
}

/// What [`Params::from`] comes to on a row, as far as its contract fixes it: the error,
/// or the columns and values of the parameters.
pub open spec fn params_outcome(
    p: Result<Params, ParamsError>,
    metadata: TableMetadata,
    reg: Map<Seq<char>, Seq<char>>,
    json: Seq<(String, JsonValue)>,
    multipart_files: Option<Seq<FileUploadInput>>,
) -> bool {
    let ks = kept_members(metadata, json);
    match members_error(metadata, reg, ks) {
        Some(e) => p == Err::<Params, ParamsError>(e),
        None => {
            let cols = match multipart_files {
                None => Ok(seq![]),
                Some(fs) => multipart_outcome(metadata, fs),
            };
            match cols {
                Err(e) => p == Err::<Params, ParamsError>(e),
                Ok(cols) => p is Ok && p->Ok_0.wf() && p->Ok_0@.table_name
                    == metadata.schema.name.name@ && p->Ok_0@.columns == member_keys(ks) + cols
                    && holds_members(p->Ok_0@, metadata, reg, ks) && files_accounted(
                    p->Ok_0@,
                    metadata,
                    reg,
                    ks,
                    multipart_files,
                    cols,
                ),
            }
        },
    }
}

pub open spec fn opt_files(m: Option<Vec<FileUploadInput>>) -> Option<Seq<FileUploadInput>> {
    match m {
        Some(v) => Some(v@),
        None => None,
    }
}

/// Parameters built from a row only when first asked for, then kept: a request refused
/// before its row is needed never converts it, and one that needs it twice converts it
/// once.
pub struct LazyParams<'a> {
    json_row: Vec<(String, JsonValue)>,
    metadata: &'a TableMetadata,
    registry: &'a SchemaRegistry,
    multipart_files: Option<Vec<FileUploadInput>>,
    params: Option<Result<Params, ParamsError>>,
    row: Ghost<Seq<(String, JsonValue)>>,
    files: Ghost<Option<Seq<FileUploadInput>>>,
}

impl<'a> LazyParams<'a> {
    /// The row the parameters are built from.
    pub closed spec fn row(&self) -> Seq<(String, JsonValue)> {
        self.row@
    }

    /// The multipart uploads the parameters are built from.
    pub closed spec fn files(&self) -> Option<Seq<FileUploadInput>> {
        self.files@
    }

    pub closed spec fn table(&self) -> TableMetadata {
        *self.metadata
    }

    pub closed spec fn schemas(&self) -> Map<Seq<char>, Seq<char>> {
        self.registry.view()
    }

    /// The built parameters, once built.
    pub closed spec fn built(&self) -> Option<Result<Params, ParamsError>> {
        self.params
    }

    pub closed spec fn wf(&self) -> bool {
        &&& self.metadata.wf()
        &&& self.registry.wf()
        &&& keys_unique(self.row@)
        &&& match self.params {
            Some(p) => params_outcome(
                p,
                *self.metadata,
                self.registry.view(),
                self.row@,
                self.files@,
            ),
            None => self.json_row@ == self.row@ && opt_files(self.multipart_files) == self.files@,
        }
    }

    pub fn new(
        metadata: &'a TableMetadata,
        registry: &'a SchemaRegistry,
        json_row: Vec<(String, JsonValue)>,
        multipart_files: Option<Vec<FileUploadInput>>,
    ) -> (r: LazyParams<'a>)
        requires
            metadata.wf(),
            registry.wf(),
            keys_unique(json_row@),
        ensures
            r.wf(),
            r.built() is None,
            r.row() == json_row@,
            r.files() == opt_files(multipart_files),
            r.table() == *metadata,
            r.schemas() == registry.view(),
    {
        let ghost row = json_row@;
        let ghost files = opt_files(multipart_files);
        LazyParams {
            json_row,
            metadata,
            registry,
            multipart_files,
            params: None,
            row: Ghost(row),
            files: Ghost(files),
        }
    }

    /// Builds the parameters, unless they were built before.
    pub fn build(&mut self)
        requires
            old(self).wf(),
        ensures
            final(self).wf(),
            final(self).built() is Some,
            old(self).built() is Some ==> final(self).built() == old(self).built(),
            final(self).row() == old(self).row(),
            final(self).files() == old(self).files(),
            final(self).table() == old(self).table(),
            final(self).schemas() == old(self).schemas(),
    {
        if self.params.is_some() {
            return;
        }
        let mut row: Vec<(String, JsonValue)> = Vec::new();
        let mut files: Option<Vec<FileUploadInput>> = None;
        std::mem::swap(&mut row, &mut self.json_row);
        std::mem::swap(&mut files, &mut self.multipart_files);
        let p = Params::from(self.metadata, self.registry, row, files);
        self.params = Some(p);
    }

    /// The parameters, built on first use; the same result on every later call.
    pub fn params(&mut self) -> (r: Result<&Params, ParamsError>)
        requires
            old(self).wf(),
        ensures
            final(self).wf(),
            final(self).built() is Some,
            old(self).built() is Some ==> final(self).built() == old(self).built(),
            r matches Ok(p) ==> final(self).built() == Some(Ok::<Params, ParamsError>(*p)),
            r matches Err(e) ==> final(self).built() == Some(Err::<Params, ParamsError>(e)),
            params_outcome(
                match r {
                    Ok(p) => Ok(*p),
                    Err(e) => Err(e),
                },
                final(self).table(),
                final(self).schemas(),
                final(self).row(),
                final(self).files(),
            ),
            final(self).row() == old(self).row(),
            final(self).files() == old(self).files(),
            final(self).table() == old(self).table(),
            final(self).schemas() == old(self).schemas(),
    {
        self.build();
        match &self.params {
            Some(Ok(p)) => Ok(p),
            Some(Err(e)) => Err(e.duplicate()),
            None => Err(ParamsError::NotAnObject),
        }
    }

    /// The parameters, built now unless they were built before.
    pub fn consume(self) -> (r: Result<Params, ParamsError>)
        requires
            self.wf(),
        ensures
            params_outcome(r, self.table(), self.schemas(), self.row(), self.files()),
            self.built() matches Some(p) ==> r == p,
    {
        match self.params {
            Some(p) => p,
            None => Params::from(self.metadata, self.registry, self.json_row, self.multipart_files),
        }
    }
}

} // verus!
