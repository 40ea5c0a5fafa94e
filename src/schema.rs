//! The registry of document types and the schemas compiled for them.
use vstd::prelude::*;
use crate::error::ForgepointError;
use crate::text::{chars_of, contains, contains_in};

verus! {

/// `jsonschema::JSONSchema`, held opaque: a compiled schema, carried to validation.
#[verifier::external_type_specification]
#[verifier::external_body]
pub struct ExJsonSchema(jsonschema::JSONSchema);

/// A pointer from the registry index to a schema file.
#[derive(Debug, Clone)]
pub struct SchemaRef {
    pub reference: String,
}

/// One document type the registry knows.
#[derive(Debug, Clone)]
pub struct DocumentTypeDefinition {
    pub doc_type: String,
    pub name: String,
    pub description: String,
    pub category: String,
    pub schema: String,
}

/// The registry index: its version, the schema files by type, and the type definitions.
#[derive(Debug, Clone)]
pub struct SchemaRegistry {
    pub schema_version: String,
    pub schemas: Vec<(String, SchemaRef)>,
    pub document_types: Vec<DocumentTypeDefinition>,
}

#[derive(Debug, Clone)]
pub struct TitleRequirement {
    pub required: Option<bool>,
    pub format: Option<String>,
    pub description: Option<String>,
}

#[derive(Debug, Clone)]
pub struct SectionRequirements {
    pub required: Option<Vec<String>>,
    pub optional: Option<Vec<String>>,
    pub description: Option<String>,
}

#[derive(Debug, Clone)]
pub struct AbstractRequirement {
    pub required: Option<bool>,
    pub description: Option<String>,
}

/// What a schema asks of a document's structure besides its attributes; every part may be
/// absent.
#[derive(Debug, Clone)]
pub struct StructuralRequirements {
    pub title: Option<TitleRequirement>,
    pub sections: Option<SectionRequirements>,
    pub abstract_req: Option<AbstractRequirement>,
}

/// A schema file as read: its JSON text and the structural requirements it declares.
pub struct SchemaSource {
    pub text: String,
    pub structural_requirements: StructuralRequirements,
}

/// Whether JSON text may hold a `$ref` keyword. A key decodes to `$ref` only where the
/// text holds `$ref` as written or uses a `\u` escape, since no other escape gives `$`,
/// `r`, `e` or `f`.
pub open spec fn may_hold_reference(text: Seq<char>) -> bool {
    contains(text, "$ref"@) || contains(text, "\\u"@)
}

/// Whether JSON text is a schema this library takes: one without references (the attribute
/// maps it checks are flat, and validation that follows a reference may not return) that
/// compiles.
pub open spec fn schema_accepted(text: Seq<char>) -> bool {
    !may_hold_reference(text) && schema_compiles(text)
}

/// Why a schema with a reference is refused.
pub const REFERENCE_REFUSAL: &'static str = "references ($ref) and \\u escapes are not supported";

/// Whether `text` may hold a `$ref` keyword.
pub fn holds_reference(text: &String) -> (r: bool)
    ensures
        r == may_hold_reference(text@),
{
    let v = chars_of(text.as_str());
    assert(v@.subrange(0, v.len() as int) =~= v@);
    contains_in(&v, 0, v.len(), &chars_of("$ref")) || contains_in(&v, 0, v.len(), &chars_of("\\u"))
}

/// A draft-7 schema without references, compiled from JSON text; its view is that text. It
/// is only made by compiling the text it holds.
pub struct CompiledJsonSchema {
    text: String,
    compiled: jsonschema::JSONSchema,
}

impl CompiledJsonSchema {
    #[verifier::type_invariant]
    spec fn reference_free(&self) -> bool {
        !may_hold_reference(self.text@)
    }
}

impl View for CompiledJsonSchema {
    type V = Seq<char>;

    closed spec fn view(&self) -> Seq<char> {
        self.text@
    }
}

/// A document type with its attribute schema.
pub struct CompiledSchema {
    pub definition: DocumentTypeDefinition,
    pub json_schema: CompiledJsonSchema,
    pub structural_requirements: StructuralRequirements,
}

/// Whether JSON text is a schema that compiles as a draft-7 JSON Schema.
pub uninterp spec fn schema_compiles(text: Seq<char>) -> bool;

/// What a draft-7 schema with JSON text `text` reports on the JSON object of string
/// attributes `attrs` (keys distinct): one (instance path, message) pair per violation.
pub uninterp spec fn schema_findings(
    text: Seq<char>,
    attrs: Seq<(Seq<char>, Seq<char>)>,
) -> Seq<(Seq<char>, Seq<char>)>;

/// Relies on `serde_json::from_str` and `jsonschema::JSONSchema::options()
/// .with_draft(Draft7).compile`: the text is read as JSON and compiled as a draft-7 schema,
/// or the reason it cannot be is kept as text. With the remote and file resolvers off, the
/// outcome depends on the text alone.
#[verifier::external_body]
fn compile_schema(text: &String) -> (r: Result<CompiledJsonSchema, String>)
    requires
        !may_hold_reference(text@),
    ensures
        r is Ok <==> schema_compiles(text@),
        r matches Ok(c) ==> c@ == text@,
{
    let body: serde_json::Value = serde_json::from_str(text).map_err(|e| e.to_string())?;
    let compiled = jsonschema::JSONSchema::options()
        .with_draft(jsonschema::Draft::Draft7)
        .compile(&body)
        .map_err(|e| e.to_string())?;
    Ok(CompiledJsonSchema { text: text.clone(), compiled })
}

/// Relies on `jsonschema::JSONSchema::validate`, on the object built by
/// `serde_json::Value::Object` from the attributes: one (instance path, text) pair per
/// violation it reports, none when the object is valid. A `CompiledJsonSchema` is only
/// made by `compile_schema` from the text it holds. Without references, validation walks
/// the schema's finite tree alongside the instance, so it returns.
#[verifier::external_body]
fn schema_violations(schema: &CompiledJsonSchema, attrs: &Vec<(String, String)>) -> (r: Vec<
    (String, String),
>)
    requires
        !may_hold_reference(schema@),
    ensures
        r.deep_view() == schema_findings(schema@, attrs.deep_view()),
{
    let instance = serde_json::Value::Object(
        attrs.iter().map(|(k, v)| (k.clone(), serde_json::Value::String(v.clone()))).collect(),
    );
    let found: Vec<(String, String)> = match schema.compiled.validate(&instance) {
        Ok(()) => Vec::new(),
        Err(errors) => errors.map(|e| (e.instance_path.to_string(), e.to_string())).collect(),
    };
    found
}

/// The message for a violation at `path` described by `text`.
pub open spec fn violation_message(path: Seq<char>, text: Seq<char>) -> Seq<char> {
    "Validation error at "@ + path + ": "@ + text
}

/// One message per finding.
pub open spec fn violation_messages_of(found: Seq<(Seq<char>, Seq<char>)>) -> Seq<Seq<char>> {
    found.map_values(|f: (Seq<char>, Seq<char>)| violation_message(f.0, f.1))
}

/// The attributes whose key no earlier attribute has, in order.
pub open spec fn first_occurrences(a: Seq<(Seq<char>, Seq<char>)>) -> Seq<(Seq<char>, Seq<char>)>
    decreases a.len(),
{
    if a.len() == 0 {
        Seq::empty()
    } else {
        let before = first_occurrences(a.drop_last());
        if exists|j: int| 0 <= j < a.len() - 1 && (#[trigger] a[j]).0 == a.last().0 {
            before
        } else {
            before.push(a.last())
        }
    }
}

/// The attributes whose key no earlier attribute has, in order.
pub fn first_attributes(attrs: &Vec<(String, String)>) -> (r: Vec<(String, String)>)
    ensures
        r.deep_view() == first_occurrences(attrs.deep_view()),
{
    let ghost a = attrs.deep_view();
    let mut r: Vec<(String, String)> = Vec::new();
    let mut i: usize = 0;
    while i < attrs.len()
        invariant
            i <= attrs.len(),
            a == attrs.deep_view(),
            r.deep_view() == first_occurrences(a.take(i as int)),
        decreases attrs.len() - i,
    {
        let ghost t = a.take(i + 1);
        assert(t.drop_last() =~= a.take(i as int));
        assert(t.last() == a[i as int]);
        let mut seen = false;
        let mut j: usize = 0;
        while j < i
            invariant
                j <= i < attrs.len(),
                a == attrs.deep_view(),
                seen == exists|q: int| 0 <= q < j && (#[trigger] a[q]).0 == a[i as int].0,
            decreases i - j,
        {
            assert(a[j as int].0 == attrs@[j as int].0@ && a[i as int].0 == attrs@[i as int].0@);
            if attrs[j].0 == attrs[i].0 {
                seen = true;
            }
            j = j + 1;
        }
        assert(seen == exists|q: int| 0 <= q < t.len() - 1 && (#[trigger] t[q]).0 == t.last().0)
            by {
            if seen {
                let q = choose|q: int| 0 <= q < j && (#[trigger] a[q]).0 == a[i as int].0;
                assert(t[q] == a[q]);
            }
            if exists|q: int| 0 <= q < t.len() - 1 && (#[trigger] t[q]).0 == t.last().0 {
                let q = choose|q: int| 0 <= q < t.len() - 1 && (#[trigger] t[q]).0 == t.last().0;
                assert(t[q] == a[q]);
            }
        }
        if !seen {
            let ghost before = r.deep_view();
            r.push((attrs[i].0.clone(), attrs[i].1.clone()));
            assert(r.deep_view() =~= before.push(a[i as int]));
        }
        i = i + 1;
    }
    assert(a.take(i as int) =~= a);
    r
}

/// One message per finding.
pub fn violation_messages(found: &Vec<(String, String)>) -> (r: Vec<String>)
    ensures
        strings(r@) == violation_messages_of(found.deep_view()),
{
    let ghost f = found.deep_view();
    let mut r: Vec<String> = Vec::new();
    let mut i: usize = 0;
    while i < found.len()
        invariant
            i <= found.len(),
            f == found.deep_view(),
            strings(r@) == violation_messages_of(f.take(i as int)),
        decreases found.len() - i,
    {
        let m = String::from_str("Validation error at ").concat(found[i].0.as_str()).concat(
            ": ",
        ).concat(found[i].1.as_str());
        let ghost before = r@;
        r.push(m);
        assert(f[i as int] == (found@[i as int].0@, found@[i as int].1@));
        assert(strings(r@) =~= strings(before).push(m@));
        assert(violation_messages_of(f.take(i + 1)) =~= violation_messages_of(f.take(i as int)).push(
            violation_message(f[i as int].0, f[i as int].1),
        ));
        i = i + 1;
    }
    assert(f.take(i as int) =~= f);
    r
}

/// The contents of a list of strings.
pub open spec fn strings(v: Seq<String>) -> Seq<Seq<char>> {
    v.map_values(|s: String| s@)
}

pub fn copy_strings(v: &Vec<String>) -> (r: Vec<String>)
    ensures
        r@ == v@,
{
    let mut r: Vec<String> = Vec::new();
    let mut i: usize = 0;
    while i < v.len()
        invariant
            i <= v.len(),
            r@ == v@.take(i as int),
        decreases v.len() - i,
    {
        r.push(v[i].clone());
        assert(r@ =~= v@.take(i + 1));
        i = i + 1;
    }
    assert(v@.take(i as int) =~= v@);
    r
}

impl DocumentTypeDefinition {
    /// An equal copy.
    pub fn copy(&self) -> (r: Self)
        ensures
            r == *self,
    {
        DocumentTypeDefinition {
            doc_type: self.doc_type.clone(),
            name: self.name.clone(),
            description: self.description.clone(),
            category: self.category.clone(),
            schema: self.schema.clone(),
        }
    }
}

/// The sections a schema's requirements list as required.
pub open spec fn required_sections_of(r: StructuralRequirements) -> Seq<String> {
    match r.sections {
        Some(s) => match s.required {
            Some(v) => v@,
            None => Seq::empty(),
        },
        None => Seq::empty(),
    }
}

pub open spec fn optional_sections_of(r: StructuralRequirements) -> Seq<String> {
    match r.sections {
        Some(s) => match s.optional {
            Some(v) => v@,
            None => Seq::empty(),
        },
        None => Seq::empty(),
    }
}

pub open spec fn abstract_required_of(r: StructuralRequirements) -> bool {
    match r.abstract_req {
        Some(a) => a.required == Some(true),
        None => false,
    }
}

pub open spec fn title_format_of(r: StructuralRequirements) -> Option<String> {
    match r.title {
        Some(t) => t.format,
        None => None,
    }
}

/// The first entry at or after `i` whose type is `t`.
pub open spec fn schema_pos_from(s: Seq<(String, CompiledSchema)>, t: Seq<char>, i: nat) -> Option<
    nat,
>
    decreases s.len() - i,
{
    if i >= s.len() {
        None
    } else if s[i as int].0@ == t {
        Some(i)
    } else {
        schema_pos_from(s, t, i + 1)
    }
}

pub open spec fn schema_pos(s: Seq<(String, CompiledSchema)>, t: Seq<char>) -> Option<nat> {
    schema_pos_from(s, t, 0)
}

/// What the loaded schemas require of documents of type `t`, when the type is known.
pub open spec fn requirements_for(s: Seq<(String, CompiledSchema)>, t: Seq<char>) -> Option<
    StructuralRequirements,
> {
    match schema_pos(s, t) {
        Some(i) => Some(s[i as int].1.structural_requirements),
        None => None,
    }
}

/// The schemas after one more is compiled for type `t`: it replaces the one held for `t`.
pub open spec fn entry_replaced(
    s: Seq<(Seq<char>, DocumentTypeDefinition, Seq<char>, StructuralRequirements)>,
    t: Seq<char>,
    d: DocumentTypeDefinition,
    text: Seq<char>,
    r: StructuralRequirements,
) -> Seq<(Seq<char>, DocumentTypeDefinition, Seq<char>, StructuralRequirements)> {
    if exists|i: int| 0 <= i < s.len() && s[i].0 == t {
        let i = choose|i: int| 0 <= i < s.len() && s[i].0 == t;
        s.update(i, (t, d, text, r))
    } else {
        s.push((t, d, text, r))
    }
}

/// The loaded schemas, without their compiled validators.
pub open spec fn schema_entries(s: Seq<(String, CompiledSchema)>) -> Seq<
    (Seq<char>, DocumentTypeDefinition, Seq<char>, StructuralRequirements),
> {
    s.map_values(
        |e: (String, CompiledSchema)|
            (e.0@, e.1.definition, e.1.json_schema@, e.1.structural_requirements),
    )
}

/// Entry keys are unique.
pub open spec fn keys_unique(s: Seq<(String, CompiledSchema)>) -> bool {
    forall|i: int, j: int| 0 <= i < s.len() && 0 <= j < s.len() && i != j ==> s[i].0@ != s[j].0@
}

/// The schemas loaded from definitions `defs` with sources `srcs`, taking definitions
/// from `i` on: a definition whose source is missing is skipped.
pub open spec fn loaded_from(
    defs: Seq<DocumentTypeDefinition>,
    srcs: Seq<Option<SchemaSource>>,
    i: nat,
    acc: Seq<(Seq<char>, DocumentTypeDefinition, Seq<char>, StructuralRequirements)>,
) -> Seq<(Seq<char>, DocumentTypeDefinition, Seq<char>, StructuralRequirements)>
    decreases defs.len() - i,
{
    if i >= defs.len() {
        acc
    } else if i < srcs.len() && srcs[i as int] is Some {
        loaded_from(
            defs,
            srcs,
            i + 1,
            entry_replaced(
                acc,
                defs[i as int].doc_type@,
                defs[i as int],
                srcs[i as int]->Some_0.text@,
                srcs[i as int]->Some_0.structural_requirements,
            ),
        )
    } else {
        loaded_from(defs, srcs, i + 1, acc)
    }
}

/// Whether definition `i` has a source that it was compiled from.
pub open spec fn has_source(srcs: Seq<Option<SchemaSource>>, i: int) -> bool {
    0 <= i < srcs.len() && srcs[i] is Some
}

pub open spec fn compile_failure_message(t: Seq<char>, why: Seq<char>) -> Seq<char> {
    "Failed to compile schema for "@ + t + ": "@ + why
}

/// `m` reports that the schema of a definition with a source did not compile.
pub open spec fn compile_failed(
    defs: Seq<DocumentTypeDefinition>,
    srcs: Seq<Option<SchemaSource>>,
    m: Seq<char>,
) -> bool {
    exists|i: int, why: Seq<char>|
        0 <= i < defs.len() && has_source(srcs, i) && !schema_accepted(srcs[i]->Some_0.text@) && m
            == #[trigger] compile_failure_message(defs[i].doc_type@, why)
}

/// Whether every definition with a source has a schema that is taken.
pub open spec fn all_compile(defs: Seq<DocumentTypeDefinition>, srcs: Seq<Option<SchemaSource>>) -> bool {
    forall|i: int|
        0 <= i < defs.len() && has_source(srcs, i) ==> schema_accepted(
            (#[trigger] srcs[i])->Some_0.text@,
        )
}

/// Whether a schema is held for type `t`.
pub open spec fn has_schema(s: Seq<(String, CompiledSchema)>, t: Seq<char>) -> bool {
    schema_pos(s, t) is Some
}

/// Whether some definition with a source, among the first `n`, has type `t`.
pub open spec fn sourced_type(
    defs: Seq<DocumentTypeDefinition>,
    srcs: Seq<Option<SchemaSource>>,
    n: int,
    t: Seq<char>,
) -> bool {
    exists|j: int| 0 <= j < n && j < defs.len() && has_source(srcs, j) && (#[trigger] defs[j]).doc_type@ == t
}

/// The violation messages that the schema of type `t` gives for attributes `a`, checked
/// with the first value of each key; none when no schema is held for `t`.
pub open spec fn attribute_violations(
    s: Seq<(String, CompiledSchema)>,
    t: Seq<char>,
    a: Seq<(Seq<char>, Seq<char>)>,
) -> Seq<Seq<char>> {
    match schema_pos(s, t) {
        Some(i) => violation_messages_of(
            schema_findings(s[i as int].1.json_schema@, first_occurrences(a)),
        ),
        None => Seq::empty(),
    }
}

pub open spec fn index_missing_message(path: Seq<char>) -> Seq<char> {
    "Schema index not found at "@ + path
}

proof fn lemma_loaded_rest(
    defs: Seq<DocumentTypeDefinition>,
    srcs: Seq<Option<SchemaSource>>,
    i: nat,
    acc: Seq<(Seq<char>, DocumentTypeDefinition, Seq<char>, StructuralRequirements)>,
)
    requires
        i >= srcs.len(),
    ensures
        loaded_from(defs, srcs, i, acc) == acc,
    decreases defs.len() - i,
{
    if i < defs.len() {
        lemma_loaded_rest(defs, srcs, i + 1, acc);
    }
}

pub proof fn lemma_schema_pos_from(s: Seq<(String, CompiledSchema)>, t: Seq<char>, i: nat)
    ensures
        schema_pos_from(s, t, i) matches Some(p) ==> i <= p < s.len() && s[p as int].0@ == t,
    decreases s.len() - i,
{
    if i < s.len() && s[i as int].0@ != t {
        lemma_schema_pos_from(s, t, i + 1);
    }
}

pub proof fn lemma_schema_pos_none(s: Seq<(String, CompiledSchema)>, t: Seq<char>, i: nat)
    ensures
        schema_pos_from(s, t, i) is None ==> forall|j: int| i <= j < s.len() ==> s[j].0@ != t,
    decreases s.len() - i,
{
    if i < s.len() && s[i as int].0@ != t {
        lemma_schema_pos_none(s, t, i + 1);
    }
}

pub proof fn lemma_has_schema(s: Seq<(String, CompiledSchema)>, t: Seq<char>)
    ensures
        has_schema(s, t) <==> exists|j: int| 0 <= j < s.len() && (#[trigger] s[j]).0@ == t,
{
    lemma_schema_pos_from(s, t, 0);
    lemma_schema_pos_none(s, t, 0);
}

/// Loads the registry and compiles the schema of each document type.
pub struct SchemaLoader {
    pub schema_path: String,
    pub registry: Option<SchemaRegistry>,
    pub compiled_schemas: Vec<(String, CompiledSchema)>,
}

impl SchemaLoader {
    pub open spec fn well_formed(&self) -> bool {
        keys_unique(self.compiled_schemas@)
    }

    /// A loader for the schema directory `schema_path`, with nothing loaded.
    pub fn new(schema_path: &str) -> (r: Self)
        ensures
            r.schema_path@ == schema_path@,
            r.registry is None,
            r.compiled_schemas@.len() == 0,
            r.well_formed(),
    {
        SchemaLoader {
            schema_path: String::from_str(schema_path),
            registry: None,
            compiled_schemas: Vec::new(),
        }
    }

    fn find_schema(&self, doc_type: &str) -> (r: Option<usize>)
        ensures
            r matches Some(i) ==> i < self.compiled_schemas.len() && schema_pos(
                self.compiled_schemas@,
                doc_type@,
            ) == Some(i as nat),
            r is None ==> schema_pos(self.compiled_schemas@, doc_type@) is None,
    {
        let t = String::from_str(doc_type);
        let mut i: usize = 0;
        while i < self.compiled_schemas.len()
            invariant
                i <= self.compiled_schemas.len(),
                t@ == doc_type@,
                schema_pos(self.compiled_schemas@, doc_type@) == schema_pos_from(
                    self.compiled_schemas@,
                    doc_type@,
                    i as nat,
                ),
            decreases self.compiled_schemas.len() - i,
        {
            if self.compiled_schemas[i].0 == t {
                return Some(i);
            }
            i = i + 1;
        }
        None
    }

    /// The compiled schema of `doc_type`.
    pub fn get_schema(&self, doc_type: &str) -> (r: Option<&CompiledSchema>)
        ensures
            match schema_pos(self.compiled_schemas@, doc_type@) {
                Some(i) => r == Some(&self.compiled_schemas@[i as int].1),
                None => r is None,
            },
    {
        match self.find_schema(doc_type) {
            Some(i) => Some(&self.compiled_schemas[i].1),
            None => None,
        }
    }

    /// The document types of the registry; none before a load.
    pub fn get_document_types(&self) -> (r: Vec<DocumentTypeDefinition>)
        ensures
            match self.registry {
                Some(reg) => r@ == reg.document_types@,
                None => r@.len() == 0,
            },
    {
        let mut r: Vec<DocumentTypeDefinition> = Vec::new();
        match &self.registry {
            Some(reg) => {
                let mut i: usize = 0;
                while i < reg.document_types.len()
                    invariant
                        i <= reg.document_types.len(),
                        r@ == reg.document_types@.take(i as int),
                    decreases reg.document_types.len() - i,
                {
                    r.push(reg.document_types[i].copy());
                    assert(r@ =~= reg.document_types@.take(i + 1));
                    i = i + 1;
                }
                assert(reg.document_types@.take(i as int) =~= reg.document_types@);
            },
            None => {},
        }
        r
    }

    /// Whether a schema was compiled for `doc_type`.
    pub fn is_valid_document_type(&self, doc_type: &str) -> (r: bool)
        ensures
            r == (schema_pos(self.compiled_schemas@, doc_type@) is Some),
    {
        self.find_schema(doc_type).is_some()
    }

    /// The sections that documents of `doc_type` must have; none for an unknown type.
    pub fn get_required_sections(&self, doc_type: &str) -> (r: Vec<String>)
        ensures
            r@ == match requirements_for(self.compiled_schemas@, doc_type@) {
                Some(req) => required_sections_of(req),
                None => Seq::empty(),
            },
    {
        match self.get_schema(doc_type) {
            Some(s) => match &s.structural_requirements.sections {
                Some(sec) => match &sec.required {
                    Some(v) => copy_strings(v),
                    None => Vec::new(),
                },
                None => Vec::new(),
            },
            None => Vec::new(),
        }
    }

    /// The sections that documents of `doc_type` may have; none for an unknown type.
    pub fn get_optional_sections(&self, doc_type: &str) -> (r: Vec<String>)
        ensures
            r@ == match requirements_for(self.compiled_schemas@, doc_type@) {
                Some(req) => optional_sections_of(req),
                None => Seq::empty(),
            },
    {
        match self.get_schema(doc_type) {
            Some(s) => match &s.structural_requirements.sections {
                Some(sec) => match &sec.optional {
                    Some(v) => copy_strings(v),
                    None => Vec::new(),
                },
                None => Vec::new(),
            },
            None => Vec::new(),
        }
    }

    /// Whether documents of `doc_type` need an abstract; false for an unknown type.
    pub fn is_abstract_required(&self, doc_type: &str) -> (r: bool)
        ensures
            r == match requirements_for(self.compiled_schemas@, doc_type@) {
                Some(req) => abstract_required_of(req),
                None => false,
            },
    {
        match self.get_schema(doc_type) {
            Some(s) => match &s.structural_requirements.abstract_req {
                Some(a) => match a.required {
                    Some(b) => b,
                    None => false,
                },
                None => false,
            },
            None => false,
        }
    }

    /// The recommended title format for `doc_type`, if its schema gives one.
    pub fn get_title_format(&self, doc_type: &str) -> (r: Option<String>)
        ensures
            r == match requirements_for(self.compiled_schemas@, doc_type@) {
                Some(req) => title_format_of(req),
                None => None,
            },
    {
        match self.get_schema(doc_type) {
            Some(s) => match &s.structural_requirements.title {
                Some(t) => match &t.format {
                    Some(f) => Some(f.clone()),
                    None => None,
                },
                None => None,
            },
            None => None,
        }
    }

    /// Compiles the schema of each document type of `registry`, whose sources are
    /// `sources` (by position; a type without one, whose file is missing, is skipped and
    /// stays unknown). Fails with `FileNotFound` without a registry, and with `Schema` when
    /// a schema may hold a reference or does not compile, naming its type.
    pub fn load_schemas(
        &mut self,
        registry: Option<SchemaRegistry>,
        sources: Vec<Option<SchemaSource>>,
    ) -> (r: Result<(), ForgepointError>)
        requires
            old(self).well_formed(),
        ensures
            final(self).well_formed(),
            final(self).schema_path == old(self).schema_path,
            registry is None ==> (r matches Err(ForgepointError::FileNotFound(m)) && m@
                == index_missing_message(old(self).schema_path@ + "/index.json"@)),
            r matches Err(ForgepointError::FileNotFound(_)) ==> *final(self) == *old(self),
            r is Err ==> final(self).registry == old(self).registry,
            registry matches Some(reg) && all_compile(reg.document_types@, sources@) ==> r is Ok,
            r is Ok ==> all_compile(registry->Some_0.document_types@, sources@),
            r is Ok ==> forall|t: Seq<char>|
                has_schema(final(self).compiled_schemas@, t) <==> (has_schema(
                    old(self).compiled_schemas@,
                    t,
                ) || sourced_type(
                    registry->Some_0.document_types@,
                    sources@,
                    registry->Some_0.document_types@.len() as int,
                    t,
                )),
            r is Ok ==> (registry matches Some(reg) && final(self).registry == registry
                && schema_entries(final(self).compiled_schemas@) == loaded_from(
                reg.document_types@,
                sources@,
                0,
                schema_entries(old(self).compiled_schemas@),
            )),
            r matches Err(ForgepointError::Schema(m)) ==> registry is Some && compile_failed(
                registry->Some_0.document_types@,
                sources@,
                m@,
            ),
            r matches Err(ForgepointError::FileNotFound(_)) ==> registry is None,
            r is Err ==> r matches Err(ForgepointError::FileNotFound(_)) || r matches Err(
                ForgepointError::Schema(_),
            ),
    {
        let reg = match registry {
            Some(reg) => reg,
            None => {
                let m = String::from_str("Schema index not found at ").concat(
                    self.schema_path.as_str(),
                ).concat("/index.json");
                return Err(ForgepointError::FileNotFound(m));
            },
        };
        let ghost defs = reg.document_types@;
        let ghost srcs = sources@;
        let ghost start = schema_entries(self.compiled_schemas@);
        let ghost orig = self.compiled_schemas@;
        let n = reg.document_types.len();
        let ns = sources.len();
        let mut i: usize = 0;
        for src in it: sources.into_iter()
            invariant
                it.seq() == srcs,
                i == it.index(),
                srcs.len() == ns,
                srcs == sources@,
                defs == reg.document_types@,
                registry == Some(reg),
                n == defs.len(),
                self.well_formed(),
                self.schema_path == old(self).schema_path,
                self.registry == old(self).registry,
                orig == old(self).compiled_schemas@,
                forall|j: int| 0 <= j < i && j < n && has_source(srcs, j) ==> schema_accepted(
                    (#[trigger] srcs[j])->Some_0.text@,
                ),
                forall|t: Seq<char>|
                    has_schema(self.compiled_schemas@, t) <==> (has_schema(
                        orig,
                        t,
                    ) || sourced_type(defs, srcs, i as int, t)),
                loaded_from(defs, srcs, 0, start) == loaded_from(
                    defs,
                    srcs,
                    i as nat,
                    schema_entries(self.compiled_schemas@),
                ) || i >= n,
                i >= n ==> loaded_from(defs, srcs, 0, start) == schema_entries(
                    self.compiled_schemas@,
                ),
        {
            if i < n {
                assert(srcs[i as int] == src);
                match src {
                    Some(source) => {
                        let def = &reg.document_types[i];
                        let outcome = if holds_reference(&source.text) {
                            Err(String::from_str(REFERENCE_REFUSAL))
                        } else {
                            compile_schema(&source.text)
                        };
                        match outcome {
                            Err(why) => {
                                let m = String::from_str("Failed to compile schema for ").concat(
                                    def.doc_type.as_str(),
                                ).concat(": ").concat(why.as_str());
                                assert(has_source(srcs, i as int));
                                assert(m@ == compile_failure_message(defs[i as int].doc_type@, why@));
                                assert(compile_failed(reg.document_types@, sources@, m@));
                                return Err(ForgepointError::Schema(m));
                            },
                            Ok(compiled) => {
                                let t = def.doc_type.clone();
                                let ghost tv = t@;
                                let entry = CompiledSchema {
                                    definition: def.copy(),
                                    json_schema: compiled,
                                    structural_requirements: source.structural_requirements,
                                };
                                let ghost before = self.compiled_schemas@;
                                assert(forall|u: Seq<char>|
                                    has_schema(before, u) <==> (has_schema(
                                        orig,
                                        u,
                                    ) || sourced_type(defs, srcs, i as int, u)));
                                self.put_schema(t, entry);
                                proof {
                                    assert(tv == defs[i as int].doc_type@);
                                    assert(has_source(srcs, i as int));
                                    assert forall|u: Seq<char>|
                                        has_schema(self.compiled_schemas@, u) <==> (has_schema(
                                            orig,
                                            u,
                                        ) || sourced_type(defs, srcs, i + 1, u)) by {
                                        assert(has_schema(before, u) <==> (has_schema(
                                            orig,
                                            u,
                                        ) || sourced_type(defs, srcs, i as int, u)));
                                        if sourced_type(defs, srcs, i as int, u) {
                                            let j = choose|j: int|
                                                0 <= j < i && j < defs.len() && has_source(srcs, j)
                                                    && (#[trigger] defs[j]).doc_type@ == u;
                                            assert(0 <= j < i + 1);
                                        }
                                        if sourced_type(defs, srcs, i + 1, u) && !sourced_type(
                                            defs,
                                            srcs,
                                            i as int,
                                            u,
                                        ) {
                                            let j = choose|j: int|
                                                0 <= j < i + 1 && j < defs.len() && has_source(
                                                    srcs,
                                                    j,
                                                ) && (#[trigger] defs[j]).doc_type@ == u;
                                            assert(j == i);
                                        }
                                        if u == tv {
                                            assert(defs[i as int].doc_type@ == u);
                                            assert(sourced_type(defs, srcs, i + 1, u));
                                        }
                                    }
                                }
                            },
                        }
                    },
                    None => {
                        assert(!has_source(srcs, i as int));
                        assert forall|u: Seq<char>|
                            #[trigger] has_schema(self.compiled_schemas@, u) <==> (has_schema(
                                orig,
                                u,
                            ) || sourced_type(defs, srcs, i + 1, u)) by {
                            assert(has_schema(self.compiled_schemas@, u) <==> (has_schema(orig, u)
                                || sourced_type(defs, srcs, i as int, u)));
                            if sourced_type(defs, srcs, i + 1, u) {
                                let j = choose|j: int|
                                    0 <= j < i + 1 && j < defs.len() && has_source(srcs, j) && (
                                    #[trigger] defs[j]).doc_type@ == u;
                                assert(j != i);
                                assert(sourced_type(defs, srcs, i as int, u));
                            }
                            if sourced_type(defs, srcs, i as int, u) {
                                let j = choose|j: int|
                                    0 <= j < i && j < defs.len() && has_source(srcs, j) && (
                                    #[trigger] defs[j]).doc_type@ == u;
                                assert(j < i + 1);
                            }
                        }
                    },
                }
            } else {
                assert forall|u: Seq<char>|
                    sourced_type(defs, srcs, i + 1, u) == sourced_type(defs, srcs, i as int, u) by {
                    if sourced_type(defs, srcs, i + 1, u) {
                        let j = choose|j: int|
                            0 <= j < i + 1 && j < defs.len() && has_source(srcs, j) && (
                            #[trigger] defs[j]).doc_type@ == u;
                        assert(j < i);
                    }
                    if sourced_type(defs, srcs, i as int, u) {
                        let j = choose|j: int|
                            0 <= j < i && j < defs.len() && has_source(srcs, j) && (
                            #[trigger] defs[j]).doc_type@ == u;
                        assert(j < i + 1);
                    }
                }
                assert(forall|u: Seq<char>|
                #[trigger] has_schema(self.compiled_schemas@, u) <==> (has_schema(orig, u)
                    || sourced_type(defs, srcs, i + 1, u)));
            }
            i = i + 1;
            if i >= n {
                assert(loaded_from(defs, srcs, i as nat, schema_entries(self.compiled_schemas@))
                    == schema_entries(self.compiled_schemas@));
            }
        }
        proof {
            lemma_loaded_rest(defs, srcs, i as nat, schema_entries(self.compiled_schemas@));
            assert forall|u: Seq<char>|
                sourced_type(defs, srcs, i as int, u) == sourced_type(defs, srcs, n as int, u) by {
                if sourced_type(defs, srcs, i as int, u) {
                    let j = choose|j: int|
                        0 <= j < i && j < defs.len() && has_source(srcs, j) && (
                        #[trigger] defs[j]).doc_type@ == u;
                    assert(j < n);
                }
                if sourced_type(defs, srcs, n as int, u) {
                    let j = choose|j: int|
                        0 <= j < n && j < defs.len() && has_source(srcs, j) && (
                        #[trigger] defs[j]).doc_type@ == u;
                    assert(j < i);
                }
            }
        }
        self.registry = Some(reg);
        Ok(())
    }

    /// Holds `entry` as the schema of type `t`, in place of any held for `t`.
    fn put_schema(&mut self, t: String, entry: CompiledSchema)
        requires
            old(self).well_formed(),
        ensures
            final(self).well_formed(),
            final(self).schema_path == old(self).schema_path,
            final(self).registry == old(self).registry,
            schema_entries(final(self).compiled_schemas@) == entry_replaced(
                schema_entries(old(self).compiled_schemas@),
                t@,
                entry.definition,
                entry.json_schema@,
                entry.structural_requirements,
            ),
            forall|u: Seq<char>|
                has_schema(final(self).compiled_schemas@, u) <==> (has_schema(
                    old(self).compiled_schemas@,
                    u,
                ) || u == t@),
    {
        let ghost s = schema_entries(self.compiled_schemas@);
        let ghost old_s = self.compiled_schemas@;
        let ghost d = entry.definition;
        let ghost x = entry.json_schema@;
        let ghost q = entry.structural_requirements;
        match self.find_schema(t.as_str()) {
            Some(i) => {
                proof {
                    crate::schema::lemma_schema_pos_from(self.compiled_schemas@, t@, 0);
                    assert(s[i as int].0 == t@);
                    let c = choose|c: int| 0 <= c < s.len() && s[c].0 == t@;
                    assert(c == i);
                }
                self.compiled_schemas.set(i, (t, entry));
                assert(schema_entries(self.compiled_schemas@) =~= s.update(i as int, (t@, d, x, q)));
                proof {
                    let n = self.compiled_schemas@;
                    assert forall|u: Seq<char>|
                        has_schema(n, u) <==> (has_schema(old_s, u) || u == t@) by {
                        lemma_has_schema(n, u);
                        lemma_has_schema(old_s, u);
                        if has_schema(n, u) {
                            let j = choose|j: int| 0 <= j < n.len() && (#[trigger] n[j]).0@ == u;
                            assert(old_s[j].0@ == u || j == i);
                        }
                        if has_schema(old_s, u) {
                            let j = choose|j: int| 0 <= j < old_s.len() && (#[trigger] old_s[j]).0@
                                == u;
                            assert(n[j].0@ == u);
                        }
                        if u == t@ {
                            assert(n[i as int].0@ == u);
                        }
                    }
                }
            },
            None => {
                proof {
                    crate::schema::lemma_schema_pos_none(self.compiled_schemas@, t@, 0);
                }
                self.compiled_schemas.push((t, entry));
                assert(schema_entries(self.compiled_schemas@) =~= s.push((t@, d, x, q)));
                proof {
                    let n = self.compiled_schemas@;
                    assert forall|u: Seq<char>|
                        has_schema(n, u) <==> (has_schema(old_s, u) || u == t@) by {
                        lemma_has_schema(n, u);
                        lemma_has_schema(old_s, u);
                        if has_schema(n, u) {
                            let j = choose|j: int| 0 <= j < n.len() && (#[trigger] n[j]).0@ == u;
                            if j < old_s.len() {
                                assert(old_s[j].0@ == u);
                            }
                        }
                        if has_schema(old_s, u) {
                            let j = choose|j: int| 0 <= j < old_s.len() && (#[trigger] old_s[j]).0@
                                == u;
                            assert(n[j].0@ == u);
                        }
                        if u == t@ {
                            assert(n[old_s.len() as int].0@ == u);
                        }
                    }
                }
            },
        }
    }

    /// Checks attributes against the schema of `doc_type`: the violations found, or
    /// `InvalidDocumentType` when no schema was compiled for the type.
    pub fn validate_attributes(&self, doc_type: &str, attributes: &Vec<(String, String)>) -> (r:
        Result<Vec<String>, ForgepointError>)
        ensures
            schema_pos(self.compiled_schemas@, doc_type@) is Some <==> r is Ok,
            r matches Err(e) ==> e matches ForgepointError::InvalidDocumentType(t) && t@
                == doc_type@,
            r matches Ok(v) ==> strings(v@) == attribute_violations(
                self.compiled_schemas@,
                doc_type@,
                attributes.deep_view(),
            ),
    {
        match self.get_schema(doc_type) {
            Some(s) => {
                let first = first_attributes(attributes);
                proof {
                    use_type_invariant(&s.json_schema);
                }
                let found = schema_violations(&s.json_schema, &first);
                Ok(violation_messages(&found))
            },
            None => Err(ForgepointError::InvalidDocumentType(String::from_str(doc_type))),
        }
    }
}

} // verus!
