//! Files sent with a record: the descriptors requests carry them in, and the JSON
//! descriptors stored in file columns.
use vstd::prelude::*;

use crate::params::{
    base64_url_decoded, blob_of, decode_base64_url, try_json_array_to_blob, FileInputError,
    ParamsError,
};
use crate::schema::str_eq;
use crate::util::generate_random_string;
use crate::value::{push_char, string_literal, write_string_literal, JsonValue};

verus! {

/// A file as a request delivers it.
#[derive(Debug, Clone)]
pub struct FileUploadInput {
    /// The form field, and so the column, the file was sent for.
    pub name: Option<String>,
    pub filename: Option<String>,
    pub content_type: Option<String>,
    pub data: Vec<u8>,
}

/// What a file column stores of a file: where its bytes are, and what they are.
#[derive(Debug, Clone)]
pub struct FileUpload {
    /// The object-store path of the file's bytes.
    pub id: String,
    pub filename: Option<String>,
    pub content_type: Option<String>,
    pub mime_type: Option<String>,
}

pub open spec fn opt_view(o: Option<String>) -> Option<Seq<char>> {
    match o {
        Some(s) => Some(s@),
        None => None,
    }
}

/// The length of the object-store paths given to uploads.
pub const OBJECT_ID_LEN: usize = 32;

impl FileUpload {
    /// The object-store path of the file's bytes.
    pub fn path(&self) -> (r: &str)
        ensures
            r@ == self.id@,
    {
        self.id.as_str()
    }
}

impl FileUploadInput {
    /// Gives the file a fresh object-store path: the form field, the descriptor to
    /// store, and the bytes to write.
    pub fn consume(self) -> (r: (Option<String>, FileUpload, Vec<u8>))
        ensures
            opt_view(r.0) == opt_view(self.name),
            r.1.id@.len() == OBJECT_ID_LEN,
            opt_view(r.1.filename) == opt_view(self.filename),
            opt_view(r.1.content_type) == opt_view(self.content_type),
            opt_view(r.1.mime_type) == opt_view(self.content_type),
            r.2@ == self.data@,
    {
        let id = generate_random_string(OBJECT_ID_LEN);
        let mime_type = self.content_type.clone();
        let upload = FileUpload {
            id,
            filename: self.filename,
            content_type: self.content_type,
            mime_type,
        };
        (self.name, upload, self.data)
    }
}

pub open spec fn field_text(key: Seq<char>, value: Seq<char>) -> Seq<char> {
    string_literal(key) + seq![':'] + value
}

pub open spec fn opt_literal(o: Option<String>) -> Seq<char> {
    match o {
        Some(s) => string_literal(s@),
        None => seq!['n', 'u', 'l', 'l'],
    }
}

/// The stored JSON text of a descriptor:
/// `{"id":…,"filename":…,"content_type":…,"mime_type":…}`, absent parts `null`.
pub open spec fn upload_text(f: FileUpload) -> Seq<char> {
    seq!['{'] + field_text(seq!['i', 'd'], string_literal(f.id@)) + seq![','] + field_text(
        seq!['f', 'i', 'l', 'e', 'n', 'a', 'm', 'e'],
        opt_literal(f.filename),
    ) + seq![','] + field_text(
        seq!['c', 'o', 'n', 't', 'e', 'n', 't', '_', 't', 'y', 'p', 'e'],
        opt_literal(f.content_type),
    ) + seq![','] + field_text(seq!['m', 'i', 'm', 'e', '_', 't', 'y', 'p', 'e'], opt_literal(f.mime_type))
        + seq!['}']
}

/// The first `k` descriptors' texts, separated by commas.
pub open spec fn uploads_prefix_text(fs: Seq<FileUpload>, k: int) -> Seq<char>
    decreases k,
{
    if k <= 0 {
        seq![]
    } else if k == 1 {
        upload_text(fs[0])
    } else {
        uploads_prefix_text(fs, k - 1) + seq![','] + upload_text(fs[k - 1])
    }
}

/// The stored JSON text of a list of descriptors.
pub open spec fn uploads_text(fs: Seq<FileUpload>) -> Seq<char> {
    seq!['['] + uploads_prefix_text(fs, fs.len() as int) + seq![']']
}

fn write_opt(out: &mut String, o: &Option<String>)
    ensures
        final(out)@ == old(out)@ + opt_literal(*o),
{
    match o {
        Some(s) => write_string_literal(out, s.as_str()),
        None => {
            out.append("null");
            proof {
                reveal_strlit("null");
            }
        },
    }
}

fn write_key(out: &mut String, key: &str)
    ensures
        final(out)@ == old(out)@ + string_literal(key@) + seq![':'],
{
    write_string_literal(out, key);
    push_char(out, ':');
    assert(out@ =~= old(out)@ + string_literal(key@) + seq![':']);
}

fn write_opt_field(out: &mut String, key: &str, o: &Option<String>)
    ensures
        final(out)@ == old(out)@ + field_text(key@, opt_literal(*o)),
{
    write_key(out, key);
    write_opt(out, o);
    assert(out@ =~= old(out)@ + field_text(key@, opt_literal(*o)));
}

/// Appends the stored JSON text of `f`.
pub fn write_upload(out: &mut String, f: &FileUpload)
    ensures
        final(out)@ == old(out)@ + upload_text(*f),
{
    let ghost start = out@;
    proof {
        reveal_strlit("id");
        reveal_strlit("filename");
        reveal_strlit("content_type");
        reveal_strlit("mime_type");
        assert("id"@ =~= seq!['i', 'd']);
        assert("filename"@ =~= seq!['f', 'i', 'l', 'e', 'n', 'a', 'm', 'e']);
        assert("content_type"@ =~= seq!['c', 'o', 'n', 't', 'e', 'n', 't', '_', 't', 'y', 'p', 'e']);
        assert("mime_type"@ =~= seq!['m', 'i', 'm', 'e', '_', 't', 'y', 'p', 'e']);
    }
    push_char(out, '{');
    write_key(out, "id");
    write_string_literal(out, f.id.as_str());
    let ghost a = out@;
    assert(a =~= start + seq!['{'] + field_text("id"@, string_literal(f.id@)));
    push_char(out, ',');
    write_opt_field(out, "filename", &f.filename);
    let ghost b = out@;
    assert(b =~= a + seq![','] + field_text("filename"@, opt_literal(f.filename)));
    push_char(out, ',');
    write_opt_field(out, "content_type", &f.content_type);
    let ghost c = out@;
    assert(c =~= b + seq![','] + field_text("content_type"@, opt_literal(f.content_type)));
    push_char(out, ',');
    write_opt_field(out, "mime_type", &f.mime_type);
    push_char(out, '}');
    assert(out@ =~= c + seq![','] + field_text("mime_type"@, opt_literal(f.mime_type)) + seq!['}']);
    assert(out@ =~= start + upload_text(*f));
}

/// The stored JSON text of `f`.
pub fn upload_to_json(f: &FileUpload) -> (r: String)
    ensures
        r@ == upload_text(*f),
{
    let mut s = String::new();
    write_upload(&mut s, f);
    assert(s@ =~= upload_text(*f));
    s
}

/// The stored JSON text of the list `fs`.
pub fn uploads_to_json(fs: &Vec<FileUpload>) -> (r: String)
    ensures
        r@ == uploads_text(fs@),
{
    let mut s = String::new();
    push_char(&mut s, '[');
    let mut i: usize = 0;
    while i < fs.len()
        invariant
            i <= fs@.len(),
            s@ == seq!['['] + uploads_prefix_text(fs@, i as int),
        decreases fs@.len() - i,
    {
        if i > 0 {
            push_char(&mut s, ',');
        }
        write_upload(&mut s, &fs[i]);
        assert(s@ =~= seq!['['] + uploads_prefix_text(fs@, i as int + 1));
        i = i + 1;
    }
    push_char(&mut s, ']');
    s
}

/// The position of the first member named `key`.
pub open spec fn member_index(m: Seq<(String, JsonValue)>, key: Seq<char>) -> Option<int> {
    if exists|i: int| 0 <= i < m.len() && (#[trigger] m[i]).0@ == key {
        Some(choose|i: int| 0 <= i < m.len() && (#[trigger] m[i]).0@ == key && forall|j: int|
            0 <= j < i ==> (#[trigger] m[j]).0@ != key)
    } else {
        None
    }
}

fn find_member(m: &Vec<(String, JsonValue)>, key: &str) -> (r: Option<usize>)
    ensures
        r matches Some(i) ==> member_index(m@, key@) == Some(i as int) && i < m@.len(),
        r is None ==> member_index(m@, key@) is None,
{
    let mut i: usize = 0;
    while i < m.len()
        invariant
            i <= m@.len(),
            forall|j: int| 0 <= j < i ==> (#[trigger] m@[j]).0@ != key@,
        decreases m@.len() - i,
    {
        if str_eq(m[i].0.as_str(), key) {
            let ghost k = i as int;
            let ghost c = choose|q: int| 0 <= q < m@.len() && (#[trigger] m@[q]).0@ == key@ && forall|j: int|
                0 <= j < q ==> (#[trigger] m@[j]).0@ != key@;
            assert(0 <= k < m@.len() && m@[k].0@ == key@);
            assert(c == k) by {
                if c < k {
                } else if c > k {
                }
            }
            return Some(i);
        }
        i = i + 1;
    }
    None
}

/// A string member: absent or `null` is `None`; anything else but a string is refused.
pub open spec fn string_member(m: Seq<(String, JsonValue)>, key: Seq<char>) -> Result<
    Option<Seq<char>>,
    ParamsError,
> {
    match member_index(m, key) {
        None => Ok(None),
        Some(i) => match m[i].1 {
            JsonValue::String(s) => Ok(Some(s@)),
            JsonValue::Null => Ok(None),
            _ => Err(ParamsError::FileInput(FileInputError::NotAString)),
        },
    }
}

/// The `data` member: an array of bytes, or URL-safe base64 text.
pub open spec fn data_member(m: Seq<(String, JsonValue)>) -> Result<Seq<u8>, ParamsError> {
    match member_index(m, seq!['d', 'a', 't', 'a']) {
        None => Err(ParamsError::FileInput(FileInputError::MissingData)),
        Some(i) => match m[i].1 {
            JsonValue::Array(a) => blob_of(a@),
            JsonValue::String(s) => match base64_url_decoded(s@) {
                Some(b) => Ok(b),
                None => Err(ParamsError::Decode),
            },
            _ => Err(ParamsError::FileInput(FileInputError::MissingData)),
        },
    }
}

/// What a file descriptor in a JSON row holds.
pub struct InputView {
    pub name: Option<Seq<char>>,
    pub filename: Option<Seq<char>>,
    pub content_type: Option<Seq<char>>,
    pub data: Seq<u8>,
}

/// Reads a file descriptor: a JSON object with optional `name`, `filename` and
/// `content_type` strings and the file's bytes under `data`.
pub open spec fn input_of(v: JsonValue) -> Result<InputView, ParamsError> {
    match v {
        JsonValue::Object(m) => {
            let name = string_member(m@, seq!['n', 'a', 'm', 'e']);
            let filename = string_member(m@, seq!['f', 'i', 'l', 'e', 'n', 'a', 'm', 'e']);
            let content_type = string_member(
                m@,
                seq!['c', 'o', 'n', 't', 'e', 'n', 't', '_', 't', 'y', 'p', 'e'],
            );
            let data = data_member(m@);
            if name is Err {
                Err(name->Err_0)
            } else if filename is Err {
                Err(filename->Err_0)
            } else if content_type is Err {
                Err(content_type->Err_0)
            } else if data is Err {
                Err(data->Err_0)
            } else {
                Ok(
                    InputView {
                        name: name->Ok_0,
                        filename: filename->Ok_0,
                        content_type: content_type->Ok_0,
                        data: data->Ok_0,
                    },
                )
            }
        },
        _ => Err(ParamsError::FileInput(FileInputError::NotAnObject)),
    }
}

impl FileUploadInput {
    pub open spec fn view_matches(&self, v: InputView) -> bool {
        &&& opt_view(self.name) == v.name
        &&& opt_view(self.filename) == v.filename
        &&& opt_view(self.content_type) == v.content_type
        &&& self.data@ == v.data
    }
}

fn take_string_member(m: &Vec<(String, JsonValue)>, key: &str) -> (r: Result<
    Option<String>,
    ParamsError,
>)
    ensures
        match r {
            Ok(o) => string_member(m@, key@) == Ok::<Option<Seq<char>>, ParamsError>(opt_view(o)),
            Err(e) => string_member(m@, key@) == Err::<Option<Seq<char>>, ParamsError>(e),
        },
{
    match find_member(m, key) {
        None => Ok(None),
        Some(i) => match &m[i].1 {
            JsonValue::String(s) => Ok(Some(s.clone())),
            JsonValue::Null => Ok(None),
            _ => Err(ParamsError::FileInput(FileInputError::NotAString)),
        },
    }
}

fn take_data_member(m: &Vec<(String, JsonValue)>) -> (r: Result<Vec<u8>, ParamsError>)
    ensures
        match r {
            Ok(b) => data_member(m@) == Ok::<Seq<u8>, ParamsError>(b@),
            Err(e) => data_member(m@) == Err::<Seq<u8>, ParamsError>(e),
        },
{
    proof {
        reveal_strlit("data");
        assert("data"@ =~= seq!['d', 'a', 't', 'a']);
    }
    match find_member(m, "data") {
        None => Err(ParamsError::FileInput(FileInputError::MissingData)),
        Some(i) => match &m[i].1 {
            JsonValue::Array(a) => try_json_array_to_blob(a),
            JsonValue::String(s) => match decode_base64_url(s.as_str()) {
                Some(b) => Ok(b),
                None => Err(ParamsError::Decode),
            },
            _ => Err(ParamsError::FileInput(FileInputError::MissingData)),
        },
    }
}

/// Reads a file descriptor from a JSON value.
pub fn file_input_from_json(v: &JsonValue) -> (r: Result<FileUploadInput, ParamsError>)
    ensures
        match r {
            Ok(f) => input_of(*v) is Ok && f.view_matches(input_of(*v)->Ok_0),
            Err(e) => input_of(*v) == Err::<InputView, ParamsError>(e),
        },
{
    proof {
        reveal_strlit("name");
        reveal_strlit("filename");
        reveal_strlit("content_type");
        assert("name"@ =~= seq!['n', 'a', 'm', 'e']);
        assert("filename"@ =~= seq!['f', 'i', 'l', 'e', 'n', 'a', 'm', 'e']);
        assert("content_type"@ =~= seq!['c', 'o', 'n', 't', 'e', 'n', 't', '_', 't', 'y', 'p', 'e']);
    }
    match v {
        JsonValue::Object(m) => {
            let name = take_string_member(m, "name")?;
            let filename = take_string_member(m, "filename")?;
            let content_type = take_string_member(m, "content_type")?;
            let data = take_data_member(m)?;
            Ok(FileUploadInput { name, filename, content_type, data })
        },
        _ => Err(ParamsError::FileInput(FileInputError::NotAnObject)),
    }
}

} // verus!
