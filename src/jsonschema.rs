//! The registry of named JSON schemas, and validation of JSON text against them.
use std::sync::Arc;
use vstd::prelude::*;

use crate::metadata::{JsonColumnMetadata, JsonMeta};
use crate::schema::str_eq;

verus! {

/// A validator compiled by `jsonschema`, shared between its holders.
#[verifier::external_body]
pub struct ValidatorHandle {
    validator: Arc<jsonschema::Validator>,
}

impl ValidatorHandle {
    /// Relies on `Arc::clone`: a second handle on the same validator.
    #[verifier::external_body]
    fn share(&self) -> ValidatorHandle {
        ValidatorHandle { validator: self.validator.clone() }
    }
}

/// A schema compiled by `jsonschema`, ready to check documents against, with the text it
/// was compiled from.
pub struct CompiledSchema {
    handle: ValidatorHandle,
    source: Ghost<Seq<char>>,
}

impl CompiledSchema {
    /// The JSON text of the schema this validator was compiled from.
    pub closed spec fn source(&self) -> Seq<char> {
        self.source@
    }

    /// A second handle on the same compiled schema.
    pub fn share(&self) -> (r: CompiledSchema)
        ensures
            r.source() == self.source(),
    {
        CompiledSchema { handle: self.handle.share(), source: Ghost(self.source@) }
    }
}

/// Whether the JSON text `schema` is a JSON schema that compiles.
pub uninterp spec fn schema_compiles(schema: Seq<char>) -> bool;

/// Whether the JSON text `doc` satisfies the JSON schema whose text is `schema`.
pub uninterp spec fn schema_accepts(schema: Seq<char>, doc: Seq<char>) -> bool;

/// Whether `doc` is JSON text.
pub uninterp spec fn json_parses(doc: Seq<char>) -> bool;

/// Relies on `serde_json::from_str`: whether `doc` parses as a JSON value.
#[verifier::external_body]
fn is_json(doc: &str) -> (r: bool)
    ensures
        r == json_parses(doc@),
{
    serde_json::from_str::<serde_json::Value>(doc).is_ok()
}

/// Relies on `serde_json::from_str` and `jsonschema::validator_for`: the validator
/// compiled from a schema's text, where the text is JSON and a schema.
#[verifier::external_body]
fn compile_validator(schema: &str) -> (r: Option<ValidatorHandle>)
    ensures
        r is Some == schema_compiles(schema@),
{
    let value: serde_json::Value = serde_json::from_str(schema).ok()?;
    let validator = jsonschema::validator_for(&value).ok()?;
    Some(ValidatorHandle { validator: Arc::new(validator) })
}

/// Relies on `serde_json::from_str`, `jsonschema::validator_for` and
/// `Validator::is_valid`: whether the JSON text `doc` satisfies the schema whose JSON
/// text is `schema`. Text that is no JSON, or no schema, satisfies nothing.
#[verifier::external_body]
fn accepts(schema: &str, doc: &str) -> (r: bool)
    ensures
        r == schema_accepts(schema@, doc@),
        r ==> schema_compiles(schema@),
{
    let Ok(schema) = serde_json::from_str::<serde_json::Value>(schema) else {
        return false;
    };
    let Ok(doc) = serde_json::from_str::<serde_json::Value>(doc) else {
        return false;
    };
    jsonschema::validator_for(&schema).map(|v| v.is_valid(&doc)).unwrap_or(false)
}

/// `serde_json::Value`, the document a custom check is given.
#[verifier::external_type_specification]
#[verifier::external_body]
pub struct ExJsonValue(serde_json::Value);

/// A check beyond the schema, supplied by whoever registers it: it is given the parsed
/// document and the extra argument of the engine's check, if any.
#[verifier::external_body]
pub struct CustomValidator {
    check: Arc<dyn Fn(&serde_json::Value, Option<&str>) -> bool + Send + Sync>,
}

impl CustomValidator {
    /// Wraps a check.
    #[verifier::external_body]
    pub fn new<F: Fn(&serde_json::Value, Option<&str>) -> bool + Send + Sync + 'static>(f: F) -> CustomValidator {
        CustomValidator { check: Arc::new(f) }
    }

    /// Relies on `serde_json::from_str` and the registered check: whether the JSON text
    /// `doc` passes it. Text that is no JSON passes nothing.
    #[verifier::external_body]
    fn accepts(&self, doc: &str, extra: Option<&str>) -> bool {
        match serde_json::from_str::<serde_json::Value>(doc) {
            Ok(v) => (self.check)(&v, extra),
            Err(_) => false,
        }
    }
}

/// A registered schema: its JSON text, the validator compiled from it, and a further
/// check, if any.
pub struct SchemaEntry {
    schema: String,
    validator: CompiledSchema,
    custom_validator: Option<CustomValidator>,
}

impl SchemaEntry {
    /// The validator is compiled from the entry's schema text.
    #[verifier::type_invariant]
    spec fn compiled_from_text(&self) -> bool {
        self.validator.source() == self.schema@
    }
}

/// The schema text was no JSON, or no JSON schema.
#[derive(Debug, Clone, Copy, PartialEq, Eq, Structural)]
pub struct InvalidSchema;

impl SchemaEntry {
    pub closed spec fn schema_text(&self) -> Seq<char> {
        self.schema@
    }

    /// Whether the entry has a check beyond its schema.
    pub closed spec fn has_custom(&self) -> bool {
        self.custom_validator is Some
    }

    /// Compiles `schema`, the text of a JSON schema.
    pub fn from(schema: String, custom_validator: Option<CustomValidator>) -> (r: Result<SchemaEntry, InvalidSchema>)
        ensures
            r is Ok == schema_compiles(schema@),
            r matches Ok(e) ==> e.schema_text() == schema@ && e.has_custom() == custom_validator is Some,
    {
        match compile_validator(schema.as_str()) {
            Some(handle) => {
                let validator = CompiledSchema { handle, source: Ghost(schema@) };
                Ok(SchemaEntry { schema, validator, custom_validator })
            },
            None => Err(InvalidSchema),
        }
    }

    /// The schema's JSON text.
    pub fn schema(&self) -> (r: &String)
        ensures
            r@ == self.schema_text(),
    {
        &self.schema
    }
}

/// Named JSON schemas, consulted when column values are checked.
pub struct SchemaRegistry {
    entries: Vec<(String, SchemaEntry)>,
}

pub open spec fn entries_map(e: Seq<(String, SchemaEntry)>) -> Map<Seq<char>, Seq<char>>
    decreases e.len(),
{
    if e.len() == 0 {
        Map::empty()
    } else {
        entries_map(e.drop_last()).insert(e.last().0@, e.last().1.schema_text())
    }
}

/// Which registered names carry a check beyond their schema.
pub open spec fn entries_custom(e: Seq<(String, SchemaEntry)>) -> Map<Seq<char>, bool>
    decreases e.len(),
{
    if e.len() == 0 {
        Map::empty()
    } else {
        entries_custom(e.drop_last()).insert(e.last().0@, e.last().1.has_custom())
    }
}

impl SchemaRegistry {
    /// The schema text registered under each name.
    pub closed spec fn view(&self) -> Map<Seq<char>, Seq<char>> {
        entries_map(self.entries@)
    }

    /// Whether each registered name carries a check beyond its schema.
    pub closed spec fn customs(&self) -> Map<Seq<char>, bool> {
        entries_custom(self.entries@)
    }

    pub closed spec fn wf(&self) -> bool {
        forall|i: int, j: int|
            0 <= i < j < self.entries@.len() ==> (#[trigger] self.entries@[i]).0@ != (
            #[trigger] self.entries@[j]).0@
    }

    pub fn new() -> (r: SchemaRegistry)
        ensures
            r.wf(),
            r.view() == Map::<Seq<char>, Seq<char>>::empty(),
            r.customs() == Map::<Seq<char>, bool>::empty(),
    {
        SchemaRegistry { entries: Vec::new() }
    }

    fn position(&self, name: &str) -> (r: Option<usize>)
        requires
            self.wf(),
        ensures
            r matches Some(i) ==> i < self.entries@.len() && self.entries@[i as int].0@ == name@,
            r is None ==> forall|i: int|
                0 <= i < self.entries@.len() ==> (#[trigger] self.entries@[i]).0@ != name@,
    {
        let mut i: usize = 0;
        while i < self.entries.len()
            invariant
                i <= self.entries@.len(),
                forall|j: int| 0 <= j < i ==> (#[trigger] self.entries@[j]).0@ != name@,
            decreases self.entries@.len() - i,
        {
            if str_eq(self.entries[i].0.as_str(), name) {
                return Some(i);
            }
            i = i + 1;
        }
        None
    }

    /// The schema registered under `name`, if any.
    pub fn lookup(&self, name: &str) -> (r: Option<&SchemaEntry>)
        requires
            self.wf(),
        ensures
            r is Some == self.view().contains_key(name@),
            r matches Some(e) ==> self.view()[name@] == e.schema_text()
                && self.customs().contains_key(name@) && self.customs()[name@] == e.has_custom(),
    {
        match self.position(name) {
            Some(i) => {
                proof {
                    lemma_entries_map_at(self.entries@, i as int);
                    lemma_entries_custom_at(self.entries@, i as int);
                }
                Some(&self.entries[i].1)
            },
            None => {
                proof {
                    lemma_entries_map_absent(self.entries@, name@);
                }
                None
            },
        }
    }

    /// Registers `entry` under `name`, replacing what was registered there.
    pub fn insert(&mut self, name: String, entry: SchemaEntry)
        requires
            old(self).wf(),
        ensures
            final(self).wf(),
            final(self).view() == old(self).view().insert(name@, entry.schema_text()),
            final(self).customs() == old(self).customs().insert(name@, entry.has_custom()),
    {
        match self.position(name.as_str()) {
            Some(i) => {
                let ghost before = self.entries@;
                let _ = self.entries.remove(i);
                proof {
                    lemma_entries_map_remove(before, i as int);
                    lemma_entries_custom_remove(before, i as int);
                }
            },
            None => {
                proof {
                    lemma_entries_map_absent(self.entries@, name@);
                    lemma_entries_custom_absent(self.entries@, name@);
                }
            },
        }
        let ghost mid = self.entries@;
        self.entries.push((name, entry));
        assert(self.entries@.drop_last() =~= mid);
    }

    /// Removes what is registered under `name`.
    pub fn remove(&mut self, name: &str)
        requires
            old(self).wf(),
        ensures
            final(self).wf(),
            final(self).view() == old(self).view().remove(name@),
            final(self).customs() == old(self).customs().remove(name@),
    {
        match self.position(name) {
            Some(i) => {
                let ghost before = self.entries@;
                let _ = self.entries.remove(i);
                proof {
                    lemma_entries_map_remove(before, i as int);
                    lemma_entries_custom_remove(before, i as int);
                }
            },
            None => {
                proof {
                    lemma_entries_map_absent(self.entries@, name@);
                    lemma_entries_custom_absent(self.entries@, name@);
                    assert(self.view() =~= self.view().remove(name@));
                    assert(self.customs() =~= self.customs().remove(name@));
                }
            },
        }
    }

    /// Removes every registered schema.
    pub fn clear(&mut self)
        ensures
            final(self).wf(),
            final(self).view() == Map::<Seq<char>, Seq<char>>::empty(),
            final(self).customs() == Map::<Seq<char>, bool>::empty(),
    {
        self.entries = Vec::new();
    }

    /// The names and schema texts, in registration order.
    pub fn list(&self) -> (r: Vec<(String, String)>)
        requires
            self.wf(),
        ensures
            forall|k: int|
                0 <= k < r@.len() ==> self.view().contains_key((#[trigger] r@[k]).0@)
                    && self.view()[r@[k].0@] == r@[k].1@,
            forall|n: Seq<char>|
                #[trigger] self.view().contains_key(n) ==> exists|k: int|
                    0 <= k < r@.len() && (#[trigger] r@[k]).0@ == n,
    {
        let mut r: Vec<(String, String)> = Vec::new();
        let mut i: usize = 0;
        while i < self.entries.len()
            invariant
                self.wf(),
                i <= self.entries@.len(),
                r@.len() == i,
                forall|k: int|
                    0 <= k < i ==> (#[trigger] r@[k]).0@ == self.entries@[k].0@ && r@[k].1@
                        == self.entries@[k].1.schema_text(),
            decreases self.entries@.len() - i,
        {
            let name = self.entries[i].0.clone();
            let text = self.entries[i].1.schema.clone();
            r.push((name, text));
            i = i + 1;
        }
        proof {
            assert forall|k: int| 0 <= k < r@.len() implies self.view().contains_key(
                (#[trigger] r@[k]).0@,
            ) && self.view()[r@[k].0@] == r@[k].1@ by {
                lemma_entries_map_at(self.entries@, k);
            }
            assert forall|n: Seq<char>| #[trigger] self.view().contains_key(n) implies exists|k: int|
                0 <= k < r@.len() && (#[trigger] r@[k]).0@ == n by {
                if forall|k: int| 0 <= k < r@.len() ==> (#[trigger] r@[k]).0@ != n {
                    assert forall|k: int| 0 <= k < self.entries@.len() implies (
                    #[trigger] self.entries@[k]).0@ != n by {
                        assert(r@[k].0@ != n);
                    }
                    lemma_entries_map_absent(self.entries@, n);
                }
            }
        }
        r
    }
}

proof fn lemma_entries_map_absent(e: Seq<(String, SchemaEntry)>, n: Seq<char>)
    requires
        forall|i: int| 0 <= i < e.len() ==> (#[trigger] e[i]).0@ != n,
    ensures
        !entries_map(e).contains_key(n),
    decreases e.len(),
{
    if e.len() > 0 {
        assert(e.last().0@ != n);
        lemma_entries_map_absent(e.drop_last(), n);
    }
}

proof fn lemma_entries_map_at(e: Seq<(String, SchemaEntry)>, i: int)
    requires
        0 <= i < e.len(),
        forall|a: int, b: int| 0 <= a < b < e.len() ==> (#[trigger] e[a]).0@ != (#[trigger] e[b]).0@,
    ensures
        entries_map(e).contains_key(e[i].0@),
        entries_map(e)[e[i].0@] == e[i].1.schema_text(),
    decreases e.len(),
{
    if i < e.len() - 1 {
        assert(e.drop_last()[i] == e[i]);
        assert(e.last() == e[e.len() - 1]);
        lemma_entries_map_at(e.drop_last(), i);
    }
}

proof fn lemma_entries_map_remove(e: Seq<(String, SchemaEntry)>, i: int)
    requires
        0 <= i < e.len(),
        forall|a: int, b: int| 0 <= a < b < e.len() ==> (#[trigger] e[a]).0@ != (#[trigger] e[b]).0@,
    ensures
        entries_map(e.remove(i)) == entries_map(e).remove(e[i].0@),
        forall|a: int, b: int|
            0 <= a < b < e.remove(i).len() ==> (#[trigger] e.remove(i)[a]).0@ != (
            #[trigger] e.remove(i)[b]).0@,
    decreases e.len(),
{
    let r = e.remove(i);
    assert forall|a: int, b: int| 0 <= a < b < r.len() implies (#[trigger] r[a]).0@ != (
    #[trigger] r[b]).0@ by {
        let a2 = if a < i { a } else { a + 1 };
        let b2 = if b < i { b } else { b + 1 };
        assert(r[a] == e[a2] && r[b] == e[b2]);
    }
    if i == e.len() - 1 {
        assert(r =~= e.drop_last());
        assert forall|k: int| 0 <= k < r.len() implies (#[trigger] r[k]).0@ != e[i].0@ by {
            assert(r[k] == e[k]);
        }
        lemma_entries_map_absent(r, e[i].0@);
        assert(entries_map(r) =~= entries_map(e).remove(e[i].0@));
    } else {
        let d = e.drop_last();
        assert(d.remove(i).push(e.last()) =~= r);
        assert(r.drop_last() =~= d.remove(i));
        assert(d[i] == e[i]);
        lemma_entries_map_remove(d, i);
        assert(e.last().0@ != e[i].0@);
        assert(entries_map(r) =~= entries_map(e).remove(e[i].0@));
    }
}

proof fn lemma_entries_custom_absent(e: Seq<(String, SchemaEntry)>, n: Seq<char>)
    requires
        forall|i: int| 0 <= i < e.len() ==> (#[trigger] e[i]).0@ != n,
    ensures
        !entries_custom(e).contains_key(n),
    decreases e.len(),
{
    if e.len() > 0 {
        assert(e.last().0@ != n);
        lemma_entries_custom_absent(e.drop_last(), n);
    }
}

proof fn lemma_entries_custom_at(e: Seq<(String, SchemaEntry)>, i: int)
    requires
        0 <= i < e.len(),
        forall|a: int, b: int| 0 <= a < b < e.len() ==> (#[trigger] e[a]).0@ != (#[trigger] e[b]).0@,
    ensures
        entries_custom(e).contains_key(e[i].0@),
        entries_custom(e)[e[i].0@] == e[i].1.has_custom(),
    decreases e.len(),
{
    if i < e.len() - 1 {
        assert(e.drop_last()[i] == e[i]);
        assert(e.last() == e[e.len() - 1]);
        lemma_entries_custom_at(e.drop_last(), i);
    }
}

proof fn lemma_entries_custom_remove(e: Seq<(String, SchemaEntry)>, i: int)
    requires
        0 <= i < e.len(),
        forall|a: int, b: int| 0 <= a < b < e.len() ==> (#[trigger] e[a]).0@ != (#[trigger] e[b]).0@,
    ensures
        entries_custom(e.remove(i)) == entries_custom(e).remove(e[i].0@),
        forall|a: int, b: int|
            0 <= a < b < e.remove(i).len() ==> (#[trigger] e.remove(i)[a]).0@ != (
            #[trigger] e.remove(i)[b]).0@,
    decreases e.len(),
{
    let r = e.remove(i);
    assert forall|a: int, b: int| 0 <= a < b < r.len() implies (#[trigger] r[a]).0@ != (
    #[trigger] r[b]).0@ by {
        let a2 = if a < i { a } else { a + 1 };
        let b2 = if b < i { b } else { b + 1 };
        assert(r[a] == e[a2] && r[b] == e[b2]);
    }
    if i == e.len() - 1 {
        assert(r =~= e.drop_last());
        assert forall|k: int| 0 <= k < r.len() implies (#[trigger] r[k]).0@ != e[i].0@ by {
            assert(r[k] == e[k]);
        }
        lemma_entries_custom_absent(r, e[i].0@);
        assert(entries_custom(r) =~= entries_custom(e).remove(e[i].0@));
    } else {
        let d = e.drop_last();
        assert(d.remove(i).push(e.last()) =~= r);
        assert(r.drop_last() =~= d.remove(i));
        assert(d[i] == e[i]);
        lemma_entries_custom_remove(d, i);
        assert(e.last().0@ != e[i].0@);
        assert(entries_custom(r) =~= entries_custom(e).remove(e[i].0@));
    }
}

/// Replaces every registered schema with `schema_entries`.
pub fn set_schemas(registry: &mut SchemaRegistry, schema_entries: Option<Vec<(String, SchemaEntry)>>)
    ensures
        final(registry).wf(),
        schema_entries is None ==> final(registry).view() == Map::<Seq<char>, Seq<char>>::empty(),
        schema_entries matches Some(v) ==> final(registry).view() == entries_map(v@)
            && final(registry).customs() == entries_custom(v@),
        schema_entries is None ==> final(registry).customs() == Map::<Seq<char>, bool>::empty(),
{
    registry.clear();
    if let Some(entries) = schema_entries {
        let ghost all = entries@;
        let mut rest = entries;
        while rest.len() > 0
            invariant
                registry.wf(),
                rest@.len() <= all.len(),
                rest@ == all.subrange(all.len() - rest@.len(), all.len() as int),
                registry.view() == entries_map(all.subrange(0, all.len() - rest@.len())),
                registry.customs() == entries_custom(all.subrange(0, all.len() - rest@.len())),
            decreases rest@.len(),
        {
            let ghost k = all.len() - rest@.len();
            let (name, entry) = rest.remove(0);
            assert(all[k] == (name, entry));
            assert(all.subrange(0, k + 1).drop_last() =~= all.subrange(0, k));
            registry.insert(name, entry);
            assert(rest@ =~= all.subrange(all.len() - rest@.len(), all.len() as int));
        }
        assert(all.subrange(0, all.len() as int) =~= all);
    }
}

/// Registers `entry` under `name`, or removes what is registered there where `entry`
/// is `None`.
pub fn set_schema(registry: &mut SchemaRegistry, name: &str, entry: Option<SchemaEntry>)
    requires
        old(registry).wf(),
    ensures
        final(registry).wf(),
        entry matches Some(e) ==> final(registry).view() == old(registry).view().insert(
            name@,
            e.schema_text(),
        ),
        entry is None ==> final(registry).view() == old(registry).view().remove(name@),
        entry matches Some(e) ==> final(registry).customs() == old(registry).customs().insert(
            name@,
            e.has_custom(),
        ),
        entry is None ==> final(registry).customs() == old(registry).customs().remove(name@),
{
    match entry {
        Some(e) => registry.insert(name.to_owned(), e),
        None => registry.remove(name),
    }
}

/// The text of the schema registered under `name`.
pub fn get_schema(registry: &SchemaRegistry, name: &str) -> (r: Option<String>)
    requires
        registry.wf(),
    ensures
        r is Some == registry.view().contains_key(name@),
        r matches Some(t) ==> t@ == registry.view()[name@],
{
    match registry.lookup(name) {
        Some(e) => Some(e.schema.clone()),
        None => None,
    }
}

/// The compiled validator of the schema registered under `name`.
pub fn get_compiled_schema(registry: &SchemaRegistry, name: &str) -> (r: Option<CompiledSchema>)
    requires
        registry.wf(),
    ensures
        r is Some == registry.view().contains_key(name@),
        r matches Some(c) ==> c.source() == registry.view()[name@],
{
    match registry.lookup(name) {
        Some(e) => {
            proof {
                use_type_invariant(e);
            }
            Some(e.validator.share())
        },
        None => None,
    }
}

/// Every registered name with its schema text.
pub fn get_schemas(registry: &SchemaRegistry) -> (r: Vec<(String, String)>)
    requires
        registry.wf(),
    ensures
        forall|k: int|
            0 <= k < r@.len() ==> registry.view().contains_key((#[trigger] r@[k]).0@)
                && registry.view()[r@[k].0@] == r@[k].1@,
        forall|n: Seq<char>|
            #[trigger] registry.view().contains_key(n) ==> exists|k: int|
                0 <= k < r@.len() && (#[trigger] r@[k]).0@ == n,
{
    registry.list()
}

/// Why a JSON value was refused by its column's schema.
#[derive(Debug, Clone, Copy, PartialEq, Eq, Structural)]
pub enum JsonSchemaError {
    /// No schema is registered under the column's schema name.
    NotFound,
    /// The value does not satisfy the schema.
    Validation,
}

/// Whether the JSON text `doc` satisfies the schema that `meta` designates.
pub open spec fn meta_accepts(
    registry: Map<Seq<char>, Seq<char>>,
    meta: JsonMeta,
    doc: Seq<char>,
) -> Result<(), JsonSchemaError> {
    match meta {
        JsonMeta::SchemaName(n) => if !registry.contains_key(n) {
            Err(JsonSchemaError::NotFound)
        } else if schema_accepts(registry[n], doc) {
            Ok(())
        } else {
            Err(JsonSchemaError::Validation)
        },
        JsonMeta::Pattern(p) => if schema_accepts(p, doc) {
            Ok(())
        } else {
            Err(JsonSchemaError::Validation)
        },
    }
}

/// Checks the JSON text `doc` against the schema that `meta` designates.
pub fn validate(registry: &SchemaRegistry, meta: &JsonColumnMetadata, doc: &str) -> (r: Result<
    (),
    JsonSchemaError,
>)
    requires
        registry.wf(),
    ensures
        r == meta_accepts(registry.view(), meta@, doc@),
{
    match meta {
        JsonColumnMetadata::SchemaName(n) => match registry.lookup(n.as_str()) {
            None => Err(JsonSchemaError::NotFound),
            Some(e) => if accepts(e.schema.as_str(), doc) {
                Ok(())
            } else {
                Err(JsonSchemaError::Validation)
            },
        },
        JsonColumnMetadata::Pattern(p) => if accepts(p.as_str(), doc) {
            Ok(())
        } else {
            Err(JsonSchemaError::Validation)
        },
    }
}

/// Why an engine-side schema check could not give an answer.
#[derive(Debug, Clone, PartialEq, Eq, Structural)]
pub enum SchemaCheckFailure {
    /// No schema is registered under the given name.
    SchemaNotFound,
    /// The given schema text is no JSON schema.
    InvalidSchema,
    /// The checked text is no JSON.
    InvalidJson,
}

/// The engine's named-schema check: `NULL` passes; text that is no JSON is an error;
/// otherwise the text must satisfy the schema registered under `schema_name` and pass
/// the entry's further check, which is given `extra_args`.
pub fn jsonschema_by_name_with_extra_args(
    registry: &SchemaRegistry,
    schema_name: &str,
    contents: Option<&str>,
    extra_args: Option<&str>,
) -> (r: Result<bool, SchemaCheckFailure>)
    requires
        registry.wf(),
    ensures
        contents is None ==> r == Ok::<bool, SchemaCheckFailure>(true),
        contents matches Some(c) ==> {
            if !json_parses(c@) {
                r == Err::<bool, SchemaCheckFailure>(SchemaCheckFailure::InvalidJson)
            } else if !registry.view().contains_key(schema_name@) {
                r == Err::<bool, SchemaCheckFailure>(SchemaCheckFailure::SchemaNotFound)
            } else if !schema_accepts(registry.view()[schema_name@], c@) {
                r == Ok::<bool, SchemaCheckFailure>(false)
            } else if !registry.customs()[schema_name@] {
                r == Ok::<bool, SchemaCheckFailure>(true)
            } else {
                r is Ok
            }
        },
{
    let Some(contents) = contents else {
        return Ok(true);
    };
    if !is_json(contents) {
        return Err(SchemaCheckFailure::InvalidJson);
    }
    match registry.lookup(schema_name) {
        None => Err(SchemaCheckFailure::SchemaNotFound),
        Some(e) => {
            if !accepts(e.schema.as_str(), contents) {
                return Ok(false);
            }
            match &e.custom_validator {
                Some(custom) => Ok(custom.accepts(contents, extra_args)),
                None => Ok(true),
            }
        },
    }
}

/// The engine's named-schema check without extra arguments.
pub fn jsonschema_by_name(registry: &SchemaRegistry, schema_name: &str, contents: Option<&str>) -> (r:
    Result<bool, SchemaCheckFailure>)
    requires
        registry.wf(),
    ensures
        contents is None ==> r == Ok::<bool, SchemaCheckFailure>(true),
        contents matches Some(c) ==> {
            if !json_parses(c@) {
                r == Err::<bool, SchemaCheckFailure>(SchemaCheckFailure::InvalidJson)
            } else if !registry.view().contains_key(schema_name@) {
                r == Err::<bool, SchemaCheckFailure>(SchemaCheckFailure::SchemaNotFound)
            } else if !schema_accepts(registry.view()[schema_name@], c@) {
                r == Ok::<bool, SchemaCheckFailure>(false)
            } else if !registry.customs()[schema_name@] {
                r == Ok::<bool, SchemaCheckFailure>(true)
            } else {
                r is Ok
            }
        },
{
    jsonschema_by_name_with_extra_args(registry, schema_name, contents, None)
}

/// The engine's inline-schema check: `NULL` passes; text that is no JSON is an error;
/// otherwise `pattern` must be a schema and the text must satisfy it.
pub fn jsonschema_matches(pattern: &str, contents: Option<&str>) -> (r: Result<bool, SchemaCheckFailure>)
    ensures
        contents is None ==> r == Ok::<bool, SchemaCheckFailure>(true),
        contents matches Some(c) ==> r == if !json_parses(c@) {
            Err(SchemaCheckFailure::InvalidJson)
        } else if !schema_compiles(pattern@) {
            Err(SchemaCheckFailure::InvalidSchema)
        } else {
            Ok(schema_accepts(pattern@, c@))
        },
{
    let Some(contents) = contents else {
        return Ok(true);
    };
    if !is_json(contents) {
        return Err(SchemaCheckFailure::InvalidJson);
    }
    // A schema that accepts the text compiles; only a refusal needs telling apart from a
    // schema that does not compile.
    if accepts(pattern, contents) {
        return Ok(true);
    }
    if compile_validator(pattern).is_none() {
        return Err(SchemaCheckFailure::InvalidSchema);
    }
    Ok(false)
}

} // verus!
