//! Per-document validation against the loaded schemas, and the run-wide index of
//! documents that cross-references and duplicate ids are resolved against.
use vstd::prelude::*;
use crate::document::{
    abstract_of, id_format_outcome, lookup, opt_view, references_of, CrossReference,
    CrossReferenceView, ForgepointDocument, DocumentView, Section, SectionView, ID_ATTRIBUTE,
    TYPE_ATTRIBUTE,
};
use crate::parser::level_2_titles;
use crate::schema::{
    abstract_required_of, requirements_for, required_sections_of, strings, title_format_of,
    SchemaLoader, StructuralRequirements,
};
use crate::text::{chars_of, contains, contains_in, lines_of};

verus! {

#[derive(Debug, Clone, Copy, PartialEq, Eq, Structural)]
pub enum ErrorType {
    Schema,
    Structure,
    Reference,
    IdConflict,
    Format,
}

#[derive(Debug, Clone, Copy, PartialEq, Eq, Structural)]
pub enum Severity {
    Error,
    Warning,
}

/// Where in a document a finding applies.
#[derive(Debug, Clone)]
pub struct Location {
    pub line: Option<usize>,
    pub column: Option<usize>,
    pub section: Option<String>,
}

/// One finding about a document: an error, or a warning that does not affect validity.
#[derive(Debug, Clone)]
pub struct ValidationError {
    pub error_type: ErrorType,
    pub severity: Severity,
    pub message: String,
    pub location: Option<Location>,
    pub rule: Option<String>,
    pub suggestion: Option<String>,
}

/// The outcome for one document: valid exactly when there are no errors.
#[derive(Debug, Clone)]
pub struct ValidationResult {
    pub file_path: String,
    pub document_type: Option<String>,
    pub document_id: Option<String>,
    pub valid: bool,
    pub errors: Vec<ValidationError>,
    pub warnings: Vec<ValidationError>,
}

pub struct LocationView {
    pub line: Option<usize>,
    pub column: Option<usize>,
    pub section: Option<Seq<char>>,
}

pub struct FindingView {
    pub error_type: ErrorType,
    pub severity: Severity,
    pub message: Seq<char>,
    pub location: Option<LocationView>,
    pub rule: Option<Seq<char>>,
    pub suggestion: Option<Seq<char>>,
}

pub struct ResultView {
    pub file_path: Seq<char>,
    pub document_type: Option<Seq<char>>,
    pub document_id: Option<Seq<char>>,
    pub valid: bool,
    pub errors: Seq<FindingView>,
    pub warnings: Seq<FindingView>,
}

impl View for Location {
    type V = LocationView;

    open spec fn view(&self) -> LocationView {
        LocationView { line: self.line, column: self.column, section: opt_view(self.section) }
    }
}

impl View for ValidationError {
    type V = FindingView;

    open spec fn view(&self) -> FindingView {
        FindingView {
            error_type: self.error_type,
            severity: self.severity,
            message: self.message@,
            location: match self.location {
                Some(l) => Some(l@),
                None => None,
            },
            rule: opt_view(self.rule),
            suggestion: opt_view(self.suggestion),
        }
    }
}

pub open spec fn finding_views(s: Seq<ValidationError>) -> Seq<FindingView> {
    s.map_values(|e: ValidationError| e@)
}

impl View for ValidationResult {
    type V = ResultView;

    open spec fn view(&self) -> ResultView {
        ResultView {
            file_path: self.file_path@,
            document_type: opt_view(self.document_type),
            document_id: opt_view(self.document_id),
            valid: self.valid,
            errors: finding_views(self.errors@),
            warnings: finding_views(self.warnings@),
        }
    }
}

/// A document recorded in the run-wide index.
#[derive(Debug, Clone)]
pub struct IndexEntry {
    pub doc_type: String,
    pub doc_id: String,
    pub file_path: String,
    pub title: Option<String>,
}

pub struct EntryView {
    pub doc_type: Seq<char>,
    pub doc_id: Seq<char>,
    pub file_path: Seq<char>,
    pub title: Option<Seq<char>>,
}

impl View for IndexEntry {
    type V = EntryView;

    open spec fn view(&self) -> EntryView {
        EntryView {
            doc_type: self.doc_type@,
            doc_id: self.doc_id@,
            file_path: self.file_path@,
            title: opt_view(self.title),
        }
    }
}

pub open spec fn entry_views(s: Seq<IndexEntry>) -> Seq<EntryView> {
    s.map_values(|e: IndexEntry| e@)
}

pub open spec fn finding(
    error_type: ErrorType,
    severity: Severity,
    message: Seq<char>,
    location: Option<LocationView>,
    rule: Seq<char>,
    suggestion: Option<Seq<char>>,
) -> FindingView {
    FindingView { error_type, severity, message, location, rule: Some(rule), suggestion }
}

pub open spec fn structure_error() -> FindingView {
    finding(
        ErrorType::Structure,
        Severity::Error,
        "Document missing required Forgepoint attributes (:forgepoint-type:, :id:, :schema-version:)"@,
        None,
        "require-structure"@,
        Some("Add the required attributes to the document header"@),
    )
}

pub open spec fn unknown_type_error(t: Seq<char>) -> FindingView {
    finding(
        ErrorType::Schema,
        Severity::Error,
        "Unknown document type: "@ + t,
        None,
        "valid-document-type"@,
        Some("Use 'forgepoint list-types' to see available document types"@),
    )
}

pub open spec fn attributes_location() -> LocationView {
    LocationView { line: None, column: None, section: Some("attributes"@) }
}

pub open spec fn schema_violation_error(m: Seq<char>) -> FindingView {
    finding(
        ErrorType::Schema,
        Severity::Error,
        m,
        Some(attributes_location()),
        "schema-validation"@,
        None,
    )
}

pub open spec fn missing_section_error(name: Seq<char>) -> FindingView {
    finding(
        ErrorType::Structure,
        Severity::Error,
        "Missing required section: "@ + name,
        None,
        "required-sections"@,
        Some("Add a '== "@ + name + "' section to your document"@),
    )
}

pub open spec fn abstract_error() -> FindingView {
    finding(
        ErrorType::Structure,
        Severity::Error,
        "Document requires an abstract"@,
        None,
        "required-abstract"@,
        Some("Add an [abstract] block after the title"@),
    )
}

pub open spec fn title_format_warning(f: Seq<char>) -> FindingView {
    finding(
        ErrorType::Format,
        Severity::Warning,
        "Consider following the recommended title format: "@ + f,
        None,
        "title-format"@,
        None,
    )
}

pub open spec fn id_format_error(m: Seq<char>) -> FindingView {
    finding(
        ErrorType::Format,
        Severity::Error,
        "Invalid ID format: "@ + m,
        None,
        "id-format"@,
        Some("Use only lowercase letters, numbers, and hyphens"@),
    )
}

pub open spec fn line_location(n: Option<usize>) -> Option<LocationView> {
    match n {
        Some(l) => Some(LocationView { line: Some(l), column: None, section: None }),
        None => None,
    }
}

pub open spec fn external_reference_warning(r: CrossReferenceView) -> FindingView {
    finding(
        ErrorType::Reference,
        Severity::Warning,
        "External reference cannot be validated: "@ + r.ref_type + ":"@ + r.id,
        line_location(r.line_number),
        "external-reference"@,
        None,
    )
}

pub open spec fn broken_reference_error(r: CrossReferenceView) -> FindingView {
    finding(
        ErrorType::Reference,
        Severity::Error,
        "Reference to non-existent document: "@ + r.ref_type + ":"@ + r.id,
        line_location(r.line_number),
        "reference-integrity"@,
        Some("Create the referenced document or fix the reference"@),
    )
}

/// Whether the index holds a document of type `t` with id `id`.
pub open spec fn is_indexed(idx: Seq<EntryView>, t: Seq<char>, id: Seq<char>) -> bool {
    exists|j: int| 0 <= j < idx.len() && (#[trigger] idx[j]).doc_type == t && idx[j].doc_id == id
}

/// One error per internal reference whose target is not in the index, in order.
pub open spec fn reference_errors(refs: Seq<CrossReferenceView>, idx: Seq<EntryView>) -> Seq<
    FindingView,
>
    decreases refs.len(),
{
    if refs.len() == 0 {
        Seq::empty()
    } else {
        let r = refs.last();
        let before = reference_errors(refs.drop_last(), idx);
        if !r.external && !is_indexed(idx, r.ref_type, r.id) {
            before.push(broken_reference_error(r))
        } else {
            before
        }
    }
}

/// One warning per external reference, in order.
pub open spec fn reference_warnings(refs: Seq<CrossReferenceView>) -> Seq<FindingView>
    decreases refs.len(),
{
    if refs.len() == 0 {
        Seq::empty()
    } else {
        let r = refs.last();
        let before = reference_warnings(refs.drop_last());
        if r.external {
            before.push(external_reference_warning(r))
        } else {
            before
        }
    }
}

/// One error per required section that no level-2 section is titled with.
pub open spec fn missing_section_errors(required: Seq<Seq<char>>, present: Seq<Seq<char>>) -> Seq<
    FindingView,
>
    decreases required.len(),
{
    if required.len() == 0 {
        Seq::empty()
    } else {
        let before = missing_section_errors(required.drop_last(), present);
        if !present.contains(required.last()) {
            before.push(missing_section_error(required.last()))
        } else {
            before
        }
    }
}

/// The errors from a document's type: an unknown type, or the schema's violations
/// `violations`, the missing required sections and a missing required abstract.
pub open spec fn type_errors(
    doc: DocumentView,
    t: Seq<char>,
    req: Option<StructuralRequirements>,
    violations: Seq<Seq<char>>,
) -> Seq<FindingView> {
    match req {
        None => seq![unknown_type_error(t)],
        Some(q) => violations.map_values(|m: Seq<char>| schema_violation_error(m))
            + missing_section_errors(strings(required_sections_of(q)), level_2_titles(doc.sections))
            + if abstract_required_of(q) && abstract_of(doc.content) is None {
            seq![abstract_error()]
        } else {
            Seq::empty()
        },
    }
}

/// The advisory warning of a title format that holds a placeholder.
pub open spec fn type_warnings(req: Option<StructuralRequirements>) -> Seq<FindingView> {
    match req {
        Some(q) => match title_format_of(q) {
            Some(f) => if contains(f@, "{"@) {
                seq![title_format_warning(f@)]
            } else {
                Seq::empty()
            },
            None => Seq::empty(),
        },
        None => Seq::empty(),
    }
}

pub open spec fn id_errors(doc: DocumentView) -> Seq<FindingView> {
    match id_format_outcome(doc.attributes) {
        Some(m) => seq![id_format_error(m)],
        None => Seq::empty(),
    }
}

/// The attribute schema's violation messages for a document: those of its type's schema on
/// its attributes, when it has the required attributes; none otherwise.
pub open spec fn document_violations(
    schemas: Seq<(String, crate::schema::CompiledSchema)>,
    doc: DocumentView,
) -> Seq<Seq<char>> {
    if crate::document::has_required_structure(doc.attributes) {
        crate::schema::attribute_violations(
            schemas,
            lookup(doc.attributes, TYPE_ATTRIBUTE@)->Some_0,
            doc.attributes,
        )
    } else {
        Seq::empty()
    }
}

/// The result for a document without the required attributes: one structural error.
pub open spec fn structure_failure(doc: DocumentView) -> ResultView {
    ResultView {
        file_path: doc.file_path,
        document_type: None,
        document_id: None,
        valid: false,
        errors: seq![structure_error()],
        warnings: Seq::empty(),
    }
}

/// The result for a document: the short-cut when attributes are missing, else the type's
/// findings, the id check and the reference check against `idx`. `violations` are the
/// attribute schema's findings, and matter only when the type is known.
pub open spec fn outcome(
    doc: DocumentView,
    schemas: Seq<(String, crate::schema::CompiledSchema)>,
    violations: Seq<Seq<char>>,
    idx: Seq<EntryView>,
) -> ResultView {
    if !crate::document::has_required_structure(doc.attributes) {
        structure_failure(doc)
    } else {
        let t = lookup(doc.attributes, TYPE_ATTRIBUTE@)->Some_0;
        let req = requirements_for(schemas, t);
        let refs = references_of(lines_of(doc.content));
        let errors = type_errors(doc, t, req, violations) + id_errors(doc) + reference_errors(
            refs,
            idx,
        );
        ResultView {
            file_path: doc.file_path,
            document_type: lookup(doc.attributes, TYPE_ATTRIBUTE@),
            document_id: lookup(doc.attributes, ID_ATTRIBUTE@),
            valid: errors.len() == 0,
            errors: errors,
            warnings: type_warnings(req) + reference_warnings(refs),
        }
    }
}

/// The index entry of a document with its type and id.
pub open spec fn entry_of(doc: DocumentView) -> EntryView {
    EntryView {
        doc_type: lookup(doc.attributes, TYPE_ATTRIBUTE@)->Some_0,
        doc_id: lookup(doc.attributes, ID_ATTRIBUTE@)->Some_0,
        file_path: doc.file_path,
        title: doc.title,
    }
}

/// The index after validating `doc`: it gains the document's entry when both its type and
/// its id are present.
pub open spec fn indexed_after(idx: Seq<EntryView>, doc: DocumentView) -> Seq<EntryView> {
    if lookup(doc.attributes, TYPE_ATTRIBUTE@) is Some && lookup(doc.attributes, ID_ATTRIBUTE@) is Some {
        idx.push(entry_of(doc))
    } else {
        idx
    }
}

fn rule_finding(
    error_type: ErrorType,
    severity: Severity,
    message: String,
    location: Option<Location>,
    rule: &str,
    suggestion: Option<String>,
) -> (r: ValidationError)
    ensures
        r@ == finding(
            error_type,
            severity,
            message@,
            match location {
                Some(l) => Some(l@),
                None => None,
            },
            rule@,
            opt_view(suggestion),
        ),
{
    ValidationError {
        error_type,
        severity,
        message,
        location,
        rule: Some(String::from_str(rule)),
        suggestion,
    }
}

fn line_location_exec(n: Option<usize>) -> (r: Option<Location>)
    ensures
        match r {
            Some(l) => Some(l@),
            None => None,
        } == line_location(n),
{
    match n {
        Some(l) => Some(Location { line: Some(l), column: None, section: None }),
        None => None,
    }
}

/// The error of a document that lacks a required attribute.
pub fn structure_error_exec() -> (r: ValidationError)
    ensures
        r@ == structure_error(),
{
    rule_finding(
        ErrorType::Structure,
        Severity::Error,
        String::from_str(
            "Document missing required Forgepoint attributes (:forgepoint-type:, :id:, :schema-version:)",
        ),
        None,
        "require-structure",
        Some(String::from_str("Add the required attributes to the document header")),
    )
}

/// Whether the index holds a document of type `t` with id `id`.
pub fn is_indexed_exec(idx: &Vec<IndexEntry>, t: &String, id: &String) -> (r: bool)
    ensures
        r == is_indexed(entry_views(idx@), t@, id@),
{
    let ghost v = entry_views(idx@);
    let mut j: usize = 0;
    while j < idx.len()
        invariant
            j <= idx.len(),
            v == entry_views(idx@),
            forall|k: int| 0 <= k < j ==> !((#[trigger] v[k]).doc_type == t@ && v[k].doc_id == id@),
        decreases idx.len() - j,
    {
        if idx[j].doc_type == *t && idx[j].doc_id == *id {
            assert(v[j as int].doc_type == t@ && v[j as int].doc_id == id@);
            return true;
        }
        j = j + 1;
    }
    false
}

/// The other occurrences of `e`'s id: entries with that id under another (type, path)
/// pair, each as "type in path", in index order.
pub open spec fn other_occurrences(idx: Seq<EntryView>, e: EntryView) -> Seq<Seq<char>>
    decreases idx.len(),
{
    if idx.len() == 0 {
        Seq::empty()
    } else {
        let x = idx.last();
        let before = other_occurrences(idx.drop_last(), e);
        if x.doc_id == e.doc_id && (x.doc_type != e.doc_type || x.file_path != e.file_path) {
            before.push(x.doc_type + " in "@ + x.file_path)
        } else {
            before
        }
    }
}

/// Texts joined by a comma and a space.
pub open spec fn join_comma(s: Seq<Seq<char>>) -> Seq<char>
    decreases s.len(),
{
    if s.len() == 0 {
        Seq::empty()
    } else if s.len() == 1 {
        s[0]
    } else {
        join_comma(s.drop_last()) + ", "@ + s.last()
    }
}

pub open spec fn conflict_error(e: EntryView, others: Seq<Seq<char>>) -> FindingView {
    finding(
        ErrorType::IdConflict,
        Severity::Error,
        "Duplicate ID '"@ + e.doc_id + "' found in "@ + e.doc_type + " (conflicts with "@
            + join_comma(others) + ")"@,
        None,
        "unique-ids"@,
        Some("Change one of the conflicting IDs"@),
    )
}

/// The duplicate-id error of entry `e` in index `idx`: there is one when the same id is
/// recorded under another (type, path) pair.
pub open spec fn conflict_findings(idx: Seq<EntryView>, e: EntryView) -> Seq<FindingView> {
    let others = other_occurrences(idx, e);
    if others.len() > 0 {
        seq![conflict_error(e, others)]
    } else {
        Seq::empty()
    }
}

/// The duplicate-id errors of the first `m` entries, in index order.
pub open spec fn all_conflicts(idx: Seq<EntryView>, m: nat) -> Seq<FindingView>
    decreases m,
{
    if m == 0 || m > idx.len() {
        Seq::empty()
    } else {
        all_conflicts(idx, (m - 1) as nat) + conflict_findings(idx, idx[m - 1])
    }
}

proof fn lemma_others_by_id_and_path(idx: Seq<EntryView>, a: EntryView, b: EntryView)
    requires
        a.doc_id == b.doc_id,
        a.doc_type == b.doc_type,
        a.file_path == b.file_path,
    ensures
        other_occurrences(idx, a) == other_occurrences(idx, b),
    decreases idx.len(),
{
    if idx.len() > 0 {
        lemma_others_by_id_and_path(idx.drop_last(), a, b);
    }
}

/// The duplicate-id error of `e` against `idx`, when there is one.
pub fn conflict_for(idx: &Vec<IndexEntry>, e: &IndexEntry) -> (r: Option<ValidationError>)
    ensures
        match r {
            Some(x) => seq![x@],
            None => Seq::<FindingView>::empty(),
        } == conflict_findings(entry_views(idx@), e@),
{
    let ghost iv = entry_views(idx@);
    let mut joined = String::new();
    let mut count: usize = 0;
    let mut j: usize = 0;
    while j < idx.len()
        invariant
            j <= idx.len(),
            iv == entry_views(idx@),
            count <= j,
            count == other_occurrences(iv.take(j as int), e@).len(),
            joined@ == join_comma(other_occurrences(iv.take(j as int), e@)),
        decreases idx.len() - j,
    {
        assert(iv.take(j + 1).drop_last() =~= iv.take(j as int));
        assert(iv.take(j + 1).last() == idx@[j as int]@);
        let x = &idx[j];
        if x.doc_id == e.doc_id && (x.doc_type != e.doc_type || x.file_path != e.file_path) {
            let ghost before = other_occurrences(iv.take(j as int), e@);
            let label = x.doc_type.clone().concat(" in ").concat(x.file_path.as_str());
            if count > 0 {
                joined.append(", ");
            }
            joined.append(label.as_str());
            proof {
                let after = before.push(label@);
                assert(after.drop_last() =~= before);
                if count == 0 {
                    assert(joined@ =~= label@);
                }
            }
            count = count + 1;
        }
        j = j + 1;
    }
    assert(iv.take(j as int) =~= iv);
    if count == 0 {
        None
    } else {
        let m = String::from_str("Duplicate ID '").concat(e.doc_id.as_str()).concat(
            "' found in ",
        ).concat(e.doc_type.as_str()).concat(" (conflicts with ").concat(joined.as_str()).concat(
            ")",
        );
        Some(
            rule_finding(
                ErrorType::IdConflict,
                Severity::Error,
                m,
                None,
                "unique-ids",
                Some(String::from_str("Change one of the conflicting IDs")),
            ),
        )
    }
}

pub open spec fn reference_views(s: Seq<CrossReference>) -> Seq<CrossReferenceView> {
    s.map_values(|r: CrossReference| r@)
}

/// The findings of the reference check.
pub struct ValidationResults {
    pub errors: Vec<ValidationError>,
    pub warnings: Vec<ValidationError>,
}

/// The reference findings of `refs` against index `idx`.
pub fn check_references(refs: &Vec<CrossReference>, idx: &Vec<IndexEntry>) -> (r: ValidationResults)
    ensures
        finding_views(r.errors@) == reference_errors(reference_views(refs@), entry_views(idx@)),
        finding_views(r.warnings@) == reference_warnings(reference_views(refs@)),
{
    let ghost rv = reference_views(refs@);
    let ghost iv = entry_views(idx@);
    let mut errors: Vec<ValidationError> = Vec::new();
    let mut warnings: Vec<ValidationError> = Vec::new();
    let mut i: usize = 0;
    while i < refs.len()
        invariant
            i <= refs.len(),
            rv == reference_views(refs@),
            iv == entry_views(idx@),
            finding_views(errors@) == reference_errors(rv.take(i as int), iv),
            finding_views(warnings@) == reference_warnings(rv.take(i as int)),
        decreases refs.len() - i,
    {
        let r = &refs[i];
        assert(rv.take(i + 1).drop_last() =~= rv.take(i as int));
        assert(rv.take(i + 1).last() == r@);
        let label = String::from_str(r.ref_type.as_str()).concat(":").concat(r.id.as_str());
        let ghost old_e = errors@;
        let ghost old_w = warnings@;
        if r.external {
            let w = rule_finding(
                ErrorType::Reference,
                Severity::Warning,
                String::from_str("External reference cannot be validated: ").concat(
                    label.as_str(),
                ),
                line_location_exec(r.line_number),
                "external-reference",
                None,
            );
            assert(w@.message =~= "External reference cannot be validated: "@ + r@.ref_type + ":"@
                + r@.id);
            warnings.push(w);
            assert(finding_views(warnings@) =~= finding_views(old_w).push(w@));
        } else if !is_indexed_exec(idx, &r.ref_type, &r.id) {
            let e = rule_finding(
                ErrorType::Reference,
                Severity::Error,
                String::from_str("Reference to non-existent document: ").concat(label.as_str()),
                line_location_exec(r.line_number),
                "reference-integrity",
                Some(String::from_str("Create the referenced document or fix the reference")),
            );
            assert(e@.message =~= "Reference to non-existent document: "@ + r@.ref_type + ":"@
                + r@.id);
            errors.push(e);
            assert(finding_views(errors@) =~= finding_views(old_e).push(e@));
        }
        i = i + 1;
    }
    assert(rv.take(i as int) =~= rv);
    ValidationResults { errors, warnings }
}

/// An input file of a batch: parsed, or one that could not be read, with the reason.
pub enum SourceFile {
    Parsed(ForgepointDocument),
    Unreadable(String, String),
}

/// The result for a file that could not be read: one format error.
pub open spec fn parse_failure(path: Seq<char>, why: Seq<char>) -> ResultView {
    ResultView {
        file_path: path,
        document_type: None,
        document_id: None,
        valid: false,
        errors: seq![
            finding(
                ErrorType::Format,
                Severity::Error,
                "Failed to parse file: "@ + why,
                None,
                "file-parsing"@,
                None,
            ),
        ],
        warnings: Seq::empty(),
    }
}

/// The index after the first phase of a batch: each parsed document with the required
/// attributes recorded, in file order.
pub open spec fn batch_index(idx: Seq<EntryView>, files: Seq<SourceFile>) -> Seq<EntryView>
    decreases files.len(),
{
    if files.len() == 0 {
        idx
    } else {
        let before = batch_index(idx, files.drop_last());
        match files.last() {
            SourceFile::Parsed(d) => if crate::document::has_required_structure(d@.attributes) {
                indexed_after(before, d@)
            } else {
                before
            },
            SourceFile::Unreadable(_, _) => before,
        }
    }
}

/// A result with further errors added.
pub open spec fn with_errors(r: ResultView, extra: Seq<FindingView>) -> ResultView {
    ResultView { valid: r.errors.len() + extra.len() == 0, errors: r.errors + extra, ..r }
}

/// The result of a parsed file in a batch: its outcome against the complete index, and,
/// when duplicate ids are checked, its entry's duplicate-id error.
pub open spec fn batch_outcome(
    d: DocumentView,
    schemas: Seq<(String, crate::schema::CompiledSchema)>,
    violations: Seq<Seq<char>>,
    idx: Seq<EntryView>,
    check_ids: bool,
) -> ResultView {
    with_errors(
        outcome(d, schemas, violations, idx),
        if check_ids && crate::document::has_required_structure(d.attributes) {
            conflict_findings(idx, entry_of(d))
        } else {
            Seq::empty()
        },
    )
}

/// The result for a file that could not be read, `why` being the reason.
pub fn create_parse_error_result(file_path: &String, why: &String) -> (r: ValidationResult)
    ensures
        r@ == parse_failure(file_path@, why@),
{
    let e = rule_finding(
        ErrorType::Format,
        Severity::Error,
        String::from_str("Failed to parse file: ").concat(why.as_str()),
        None,
        "file-parsing",
        None,
    );
    let r = ValidationResult {
        file_path: file_path.clone(),
        document_type: None,
        document_id: None,
        valid: false,
        errors: vec![e],
        warnings: Vec::new(),
    };
    assert(finding_views(r.errors@) =~= parse_failure(file_path@, why@).errors);
    assert(finding_views(r.warnings@) =~= Seq::<FindingView>::empty());
    r
}

/// Checks documents against the loaded schemas and keeps the index of every document
/// validated so far, one entry per validation.
pub struct DocumentValidator {
    pub schema_loader: SchemaLoader,
    pub document_index: Vec<IndexEntry>,
}

impl DocumentValidator {
    pub fn new(schema_loader: SchemaLoader) -> (r: Self)
        ensures
            r.schema_loader == schema_loader,
            r.document_index@.len() == 0,
    {
        DocumentValidator { schema_loader, document_index: Vec::new() }
    }

    /// The findings that a document's type gives: for an unknown type one error; for a
    /// known one the schema's `violations`, each missing required section and a missing
    /// required abstract, and a warning for a title format with a placeholder.
    fn type_findings(
        &self,
        doc: &ForgepointDocument,
        t: &String,
        violations: &Vec<String>,
        errors: &mut Vec<ValidationError>,
        warnings: &mut Vec<ValidationError>,
    )
        ensures
            finding_views(final(errors)@) == finding_views(old(errors)@) + type_errors(
                doc@,
                t@,
                requirements_for(self.schema_loader.compiled_schemas@, t@),
                strings(violations@),
            ),
            finding_views(final(warnings)@) == finding_views(old(warnings)@) + type_warnings(
                requirements_for(self.schema_loader.compiled_schemas@, t@),
            ),
    {
        let ghost e0 = finding_views(errors@);
        let ghost req = requirements_for(self.schema_loader.compiled_schemas@, t@);
        if !self.schema_loader.is_valid_document_type(t.as_str()) {
            let e = rule_finding(
                ErrorType::Schema,
                Severity::Error,
                String::from_str("Unknown document type: ").concat(t.as_str()),
                None,
                "valid-document-type",
                Some(String::from_str("Use 'forgepoint list-types' to see available document types")),
            );
            errors.push(e);
            assert(finding_views(errors@) =~= e0 + seq![unknown_type_error(t@)]);
            assert(finding_views(warnings@) =~= finding_views(old(warnings)@) + type_warnings(req));
            return;
        }
        // attribute violations
        let ghost vs = strings(violations@);
        let mut i: usize = 0;
        while i < violations.len()
            invariant
                i <= violations.len(),
                vs == strings(violations@),
                finding_views(errors@) == e0 + vs.take(i as int).map_values(
                    |m: Seq<char>| schema_violation_error(m),
                ),
            decreases violations.len() - i,
        {
            let ghost before = errors@;
            let e = rule_finding(
                ErrorType::Schema,
                Severity::Error,
                violations[i].clone(),
                Some(
                    Location { line: None, column: None, section: Some(String::from_str("attributes")) },
                ),
                "schema-validation",
                None,
            );
            errors.push(e);
            assert(finding_views(errors@) =~= finding_views(before).push(e@));
            assert(vs.take(i + 1).map_values(|m: Seq<char>| schema_violation_error(m)) =~= vs.take(
                i as int,
            ).map_values(|m: Seq<char>| schema_violation_error(m)).push(
                schema_violation_error(vs[i as int]),
            ));
            i = i + 1;
        }
        assert(vs.take(i as int) =~= vs);
        let e1 = Ghost(finding_views(errors@));
        // required sections
        let required = self.schema_loader.get_required_sections(t.as_str());
        let level2 = doc.level_2_sections();
        let mut titles: Vec<String> = Vec::new();
        let mut k: usize = 0;
        while k < level2.len()
            invariant
                k <= level2.len(),
                level2@.map_values(|s: &Section| s@) == doc@.sections.filter(
                    |s: SectionView| s.level == 2,
                ),
                strings(titles@) == level2@.map_values(|s: &Section| s@).take(k as int).map_values(
                    |x: SectionView| x.title,
                ),
            decreases level2.len() - k,
        {
            let ghost before = titles@;
            titles.push(level2[k].title.clone());
            assert(strings(titles@) =~= strings(before).push(level2@[k as int].title@));
            assert(level2@.map_values(|s: &Section| s@).take(k + 1).map_values(|x: SectionView| x.title)
                =~= level2@.map_values(|s: &Section| s@).take(k as int).map_values(
                |x: SectionView| x.title,
            ).push(level2@[k as int].title@));
            k = k + 1;
        }
        assert(level2@.map_values(|s: &Section| s@).take(k as int) =~= level2@.map_values(
            |s: &Section| s@,
        ));
        let ghost present = strings(titles@);
        assert(present == level_2_titles(doc@.sections));
        let ghost rq = strings(required@);
        let mut j: usize = 0;
        while j < required.len()
            invariant
                j <= required.len(),
                rq == strings(required@),
                present == strings(titles@),
                finding_views(errors@) == e1@ + missing_section_errors(rq.take(j as int), present),
            decreases required.len() - j,
        {
            assert(rq.take(j + 1).drop_last() =~= rq.take(j as int));
            assert(rq.take(j + 1).last() == required@[j as int]@);
            let name = &required[j];
            let mut found = false;
            let mut m: usize = 0;
            while m < titles.len()
                invariant
                    m <= titles.len(),
                    present == strings(titles@),
                    found == (exists|q: int| 0 <= q < m && #[trigger] present[q] == name@),
                decreases titles.len() - m,
            {
                assert(present[m as int] == titles@[m as int]@);
                if titles[m] == *name {
                    found = true;
                }
                m = m + 1;
            }
            if !found {
                let ghost before = errors@;
                let e = rule_finding(
                    ErrorType::Structure,
                    Severity::Error,
                    String::from_str("Missing required section: ").concat(name.as_str()),
                    None,
                    "required-sections",
                    Some(
                        String::from_str("Add a '== ").concat(name.as_str()).concat(
                            "' section to your document",
                        ),
                    ),
                );
                errors.push(e);
                assert(finding_views(errors@) =~= finding_views(before).push(e@));
                assert(e@ == missing_section_error(name@));
                assert(e1@ + missing_section_errors(rq.take(j as int), present).push(e@) =~= e1@
                    + missing_section_errors(rq.take(j as int), present) + seq![e@]);
            } else {
                assert(present.contains(name@));
            }
            j = j + 1;
        }
        assert(rq.take(j as int) =~= rq);
        // abstract
        let ghost e2 = finding_views(errors@);
        if self.schema_loader.is_abstract_required(t.as_str()) && doc.abstract_content().is_none() {
            let e = rule_finding(
                ErrorType::Structure,
                Severity::Error,
                String::from_str("Document requires an abstract"),
                None,
                "required-abstract",
                Some(String::from_str("Add an [abstract] block after the title")),
            );
            errors.push(e);
            assert(finding_views(errors@) =~= e2.push(e@));
        }
        let ghost q = req->Some_0;
        assert(finding_views(errors@) =~= e0 + type_errors(doc@, t@, req, vs));
        // title format
        let w0 = Ghost(finding_views(warnings@));
        match self.schema_loader.get_title_format(t.as_str()) {
            Some(f) => {
                let fv = chars_of(f.as_str());
                let brace = chars_of("{");
                assert(fv@.subrange(0, fv.len() as int) =~= fv@);
                if contains_in(&fv, 0, fv.len(), &brace) {
                    let w = rule_finding(
                        ErrorType::Format,
                        Severity::Warning,
                        String::from_str("Consider following the recommended title format: ").concat(
                            f.as_str(),
                        ),
                        None,
                        "title-format",
                        None,
                    );
                    warnings.push(w);
                    assert(finding_views(warnings@) =~= w0@ + seq![w@]);
                } else {
                    assert(finding_views(warnings@) =~= w0@ + Seq::<FindingView>::empty());
                }
            },
            None => {
                assert(finding_views(warnings@) =~= w0@ + Seq::<FindingView>::empty());
            },
        }
    }

    /// The result for `doc` against the index as it stands, with `violations` as the
    /// attribute schema's findings; the index is left as it is.
    pub fn assess_document(&self, doc: &ForgepointDocument, violations: &Vec<String>) -> (r:
        ValidationResult)
        ensures
            r@ == outcome(
                doc@,
                self.schema_loader.compiled_schemas@,
                strings(violations@),
                entry_views(self.document_index@),
            ),
    {
        if !doc.has_forgepoint_structure() {
            let e = structure_error_exec();
            let r = ValidationResult {
                file_path: doc.file_path.clone(),
                document_type: None,
                document_id: None,
                valid: false,
                errors: vec![e],
                warnings: Vec::new(),
            };
            assert(finding_views(r.errors@) =~= seq![structure_error()]);
            assert(finding_views(r.warnings@) =~= Seq::<FindingView>::empty());
            return r;
        }
        let t = match doc.document_type() {
            Some(t) => t.clone(),
            None => String::new(),
        };
        let mut errors: Vec<ValidationError> = Vec::new();
        let mut warnings: Vec<ValidationError> = Vec::new();
        self.type_findings(doc, &t, violations, &mut errors, &mut warnings);
        let ghost e1 = finding_views(errors@);
        match doc.validate_id_format() {
            Err(e) => {
                let f = rule_finding(
                    ErrorType::Format,
                    Severity::Error,
                    e.message(),
                    None,
                    "id-format",
                    Some(String::from_str("Use only lowercase letters, numbers, and hyphens")),
                );
                errors.push(f);
                assert(finding_views(errors@) =~= e1 + id_errors(doc@));
            },
            Ok(()) => {
                assert(finding_views(errors@) =~= e1 + id_errors(doc@));
            },
        }
        let refs = self.validate_references(doc);
        let ghost e2 = finding_views(errors@);
        let ghost w1 = finding_views(warnings@);
        let mut re = refs.errors;
        let mut rw = refs.warnings;
        errors.append(&mut re);
        warnings.append(&mut rw);
        assert(finding_views(errors@) =~= e2 + finding_views(refs.errors@));
        assert(finding_views(warnings@) =~= w1 + finding_views(refs.warnings@));
        let r = ValidationResult {
            file_path: doc.file_path.clone(),
            document_type: Some(t),
            document_id: match doc.document_id() {
                Some(i) => Some(i.clone()),
                None => None,
            },
            valid: errors.len() == 0,
            errors,
            warnings,
        };
        r
    }

    /// Records `doc` in the index when both its type and its id are present.
    pub fn index_document(&mut self, doc: &ForgepointDocument)
        ensures
            final(self).schema_loader == old(self).schema_loader,
            entry_views(final(self).document_index@) == indexed_after(
                entry_views(old(self).document_index@),
                doc@,
            ),
    {
        match (doc.document_type(), doc.document_id()) {
            (Some(t), Some(i)) => {
                let entry = IndexEntry {
                    doc_type: t.clone(),
                    doc_id: i.clone(),
                    file_path: doc.file_path.clone(),
                    title: match &doc.title {
                        Some(x) => Some(x.clone()),
                        None => None,
                    },
                };
                let ghost before = self.document_index@;
                self.document_index.push(entry);
                assert(entry_views(self.document_index@) =~= entry_views(before).push(entry@));
            },
            _ => {},
        }
    }

    /// Validates `doc` against the index as it stands, then records it there. The result
    /// is `outcome` for the violations that the attribute schema reported; a document
    /// without the required attributes is not recorded.
    pub fn validate_document(&mut self, doc: &ForgepointDocument) -> (r: ValidationResult)
        ensures
            final(self).schema_loader == old(self).schema_loader,
            r@ == outcome(
                doc@,
                old(self).schema_loader.compiled_schemas@,
                document_violations(old(self).schema_loader.compiled_schemas@, doc@),
                entry_views(old(self).document_index@),
            ),
            entry_views(final(self).document_index@) == if crate::document::has_required_structure(
                doc@.attributes,
            ) {
                indexed_after(entry_views(old(self).document_index@), doc@)
            } else {
                entry_views(old(self).document_index@)
            },
    {
        let violations = self.schema_violations_of(doc);
        let r = self.assess_document(doc, &violations);
        if doc.has_forgepoint_structure() {
            self.index_document(doc);
        }
        r
    }

    /// One duplicate-id error per index entry whose id is also recorded under another
    /// (type, path) pair, in index order; each names the other occurrences.
    pub fn check_id_uniqueness(&self) -> (r: Vec<ValidationError>)
        ensures
            finding_views(r@) == all_conflicts(
                entry_views(self.document_index@),
                self.document_index@.len(),
            ),
    {
        let ghost iv = entry_views(self.document_index@);
        let mut errors: Vec<ValidationError> = Vec::new();
        let mut k: usize = 0;
        while k < self.document_index.len()
            invariant
                k <= self.document_index.len(),
                iv == entry_views(self.document_index@),
                finding_views(errors@) == all_conflicts(iv, k as nat),
            decreases self.document_index.len() - k,
        {
            let ghost before = finding_views(errors@);
            assert(iv[k as int] == self.document_index@[k as int]@);
            match conflict_for(&self.document_index, &self.document_index[k]) {
                Some(e) => {
                    errors.push(e);
                    assert(finding_views(errors@) =~= before + seq![e@]);
                },
                None => {
                    assert(finding_views(errors@) =~= before + Seq::<FindingView>::empty());
                },
            }
            k = k + 1;
        }
        errors
    }

    /// The attribute schema's violations for `doc`; none unless it has the required
    /// attributes and a known type.
    fn schema_violations_of(&self, doc: &ForgepointDocument) -> (r: Vec<String>)
        ensures
            strings(r@) == document_violations(self.schema_loader.compiled_schemas@, doc@),
    {
        let mut violations: Vec<String> = Vec::new();
        if doc.has_forgepoint_structure() {
            match doc.document_type() {
                Some(t) => {
                    if self.schema_loader.is_valid_document_type(t.as_str()) {
                        match self.schema_loader.validate_attributes(t.as_str(), &doc.attributes) {
                            Ok(v) => {
                                violations = v;
                            },
                            Err(_) => {},
                        }
                    }
                },
                None => {},
            }
        }
        violations
    }

    /// Validates a batch in two phases: first every parsed document is recorded in the
    /// index, then each is checked against the complete index, so that a reference to a
    /// document later in the batch resolves. With `check_ids`, a document whose id is also
    /// recorded under another (type, path) pair gets a duplicate-id error. A file that could
    /// not be read gets a single format error.
    pub fn validate_batch(&mut self, files: &Vec<SourceFile>, check_ids: bool) -> (r: Vec<
        ValidationResult,
    >)
        ensures
            final(self).schema_loader == old(self).schema_loader,
            entry_views(final(self).document_index@) == batch_index(
                entry_views(old(self).document_index@),
                files@,
            ),
            r@.len() == files@.len(),
            forall|i: int|
                0 <= i < files@.len() ==> match #[trigger] files@[i] {
                    SourceFile::Unreadable(p, why) => r@[i]@ == parse_failure(p@, why@),
                    SourceFile::Parsed(d) => r@[i]@ == batch_outcome(
                            d@,
                            old(self).schema_loader.compiled_schemas@,
                            document_violations(old(self).schema_loader.compiled_schemas@, d@),
                            entry_views(final(self).document_index@),
                            check_ids,
                        ),
                },
    {
        let ghost idx0 = entry_views(self.document_index@);
        let mut found: Vec<Vec<String>> = Vec::new();
        let mut i: usize = 0;
        while i < files.len()
            invariant
                i <= files.len(),
                found.len() == i,
                forall|j: int|
                    0 <= j < i ==> match #[trigger] files@[j] {
                        SourceFile::Parsed(d) => strings(found@[j]@) == document_violations(
                            self.schema_loader.compiled_schemas@,
                            d@,
                        ),
                        SourceFile::Unreadable(_, _) => true,
                    },
                self.schema_loader == old(self).schema_loader,
                idx0 == entry_views(old(self).document_index@),
                entry_views(self.document_index@) == batch_index(idx0, files@.take(i as int)),
            decreases files.len() - i,
        {
            assert(files@.take(i + 1).drop_last() =~= files@.take(i as int));
            assert(files@.take(i + 1).last() == files@[i as int]);
            match &files[i] {
                SourceFile::Parsed(doc) => {
                    let v = self.schema_violations_of(doc);
                    found.push(v);
                    if doc.has_forgepoint_structure() {
                        self.index_document(doc);
                    }
                },
                SourceFile::Unreadable(_, _) => {
                    found.push(Vec::new());
                },
            }
            i = i + 1;
        }
        assert(files@.take(i as int) =~= files@);
        let mut results: Vec<ValidationResult> = Vec::new();
        let mut i: usize = 0;
        while i < files.len()
            invariant
                i <= files.len(),
                found.len() == files.len(),
                forall|j: int|
                    0 <= j < files.len() ==> match #[trigger] files@[j] {
                        SourceFile::Parsed(d) => strings(found@[j]@) == document_violations(
                            self.schema_loader.compiled_schemas@,
                            d@,
                        ),
                        SourceFile::Unreadable(_, _) => true,
                    },
                results@.len() == i,
                self.schema_loader == old(self).schema_loader,
                forall|j: int|
                    0 <= j < i ==> match #[trigger] files@[j] {
                        SourceFile::Unreadable(p, why) => results@[j]@ == parse_failure(p@, why@),
                        SourceFile::Parsed(d) => results@[j]@ == batch_outcome(
                                d@,
                                self.schema_loader.compiled_schemas@,
                                document_violations(self.schema_loader.compiled_schemas@, d@),
                                entry_views(self.document_index@),
                                check_ids,
                            ),
                    },
            decreases files.len() - i,
        {
            match &files[i] {
                SourceFile::Parsed(doc) => {
                    let mut r = self.assess_document(doc, &found[i]);
                    let ghost base = r@;
                    let ghost extra = if check_ids && crate::document::has_required_structure(
                        doc@.attributes,
                    ) {
                        conflict_findings(entry_views(self.document_index@), entry_of(doc@))
                    } else {
                        Seq::empty()
                    };
                    if check_ids && doc.has_forgepoint_structure() {
                        let t = match doc.document_type() {
                            Some(t) => t.clone(),
                            None => String::new(),
                        };
                        let id = match doc.document_id() {
                            Some(x) => x.clone(),
                            None => String::new(),
                        };
                        let entry = IndexEntry {
                            doc_type: t,
                            doc_id: id,
                            file_path: doc.file_path.clone(),
                            title: None,
                        };
                        assert(conflict_findings(entry_views(self.document_index@), entry@)
                            == conflict_findings(entry_views(self.document_index@), entry_of(doc@)))
                            by {
                            assert(entry@.doc_id == entry_of(doc@).doc_id);
                            assert(entry@.file_path == entry_of(doc@).file_path);
                            assert(entry@.doc_type == entry_of(doc@).doc_type);
                            assert(other_occurrences(entry_views(self.document_index@), entry@)
                                == other_occurrences(entry_views(self.document_index@), entry_of(doc@)))
                                by {
                                lemma_others_by_id_and_path(
                                    entry_views(self.document_index@),
                                    entry@,
                                    entry_of(doc@),
                                );
                            }
                        }
                        match conflict_for(&self.document_index, &entry) {
                            Some(e) => {
                                let ghost before = r.errors@;
                                r.errors.push(e);
                                assert(finding_views(r.errors@) =~= finding_views(before).push(e@));
                                assert(finding_views(r.errors@) =~= base.errors + extra);
                            },
                            None => {
                                assert(finding_views(r.errors@) =~= base.errors + extra);
                            },
                        }
                    } else {
                        assert(finding_views(r.errors@) =~= base.errors + extra);
                    }
                    r.valid = r.errors.len() == 0;
                    assert(r@ == with_errors(base, extra));
                    assert(r@ == batch_outcome(
                        doc@,
                        self.schema_loader.compiled_schemas@,
                        strings(found@[i as int]@),
                        entry_views(self.document_index@),
                        check_ids,
                    ));
                    results.push(r);
                },
                SourceFile::Unreadable(p, why) => {
                    results.push(create_parse_error_result(p, why));
                },
            }
            i = i + 1;
        }
        results
    }

    /// Empties the index.
    pub fn clear_index(&mut self)
        ensures
            final(self).schema_loader == old(self).schema_loader,
            final(self).document_index@.len() == 0,
    {
        self.document_index.clear();
    }

    /// The index: one entry per document recorded, in order.
    pub fn get_document_index(&self) -> (r: &Vec<IndexEntry>)
        ensures
            r == &self.document_index,
    {
        &self.document_index
    }

    /// The reference findings of `doc` against the index as it stands.
    pub fn validate_references(&self, doc: &ForgepointDocument) -> (r: ValidationResults)
        ensures
            finding_views(r.errors@) == reference_errors(
                references_of(lines_of(doc@.content)),
                entry_views(self.document_index@),
            ),
            finding_views(r.warnings@) == reference_warnings(references_of(lines_of(doc@.content))),
    {
        let refs = doc.extract_cross_references();
        check_references(&refs, &self.document_index)
    }
}


/// A document that lacks any of the three required attributes gets exactly one error, the
/// structural one, and is invalid; nothing else is checked, so neither the schemas, the
/// schema's findings nor the index change the result.
pub proof fn lemma_missing_attributes_short_circuit(
    doc: DocumentView,
    schemas: Seq<(String, crate::schema::CompiledSchema)>,
    violations: Seq<Seq<char>>,
    idx: Seq<EntryView>,
)
    requires
        !crate::document::has_required_structure(doc.attributes),
    ensures
        outcome(doc, schemas, violations, idx).errors.len() == 1,
        outcome(doc, schemas, violations, idx).errors[0].rule == Some("require-structure"@),
        outcome(doc, schemas, violations, idx).errors[0].error_type == ErrorType::Structure,
        !outcome(doc, schemas, violations, idx).valid,
        outcome(doc, schemas, violations, idx).warnings.len() == 0,
        outcome(doc, schemas, violations, idx) == structure_failure(doc),
{
}

pub open spec fn internal_only(refs: Seq<CrossReferenceView>) -> Seq<CrossReferenceView> {
    refs.filter(|r: CrossReferenceView| !r.external)
}

pub open spec fn external_only(refs: Seq<CrossReferenceView>) -> Seq<CrossReferenceView> {
    refs.filter(|r: CrossReferenceView| r.external)
}

/// External references never give an error: the reference errors are those of the
/// internal references alone, and each external reference gives exactly one warning,
/// whether or not a local document matches it.
pub proof fn lemma_external_references_only_warn(refs: Seq<CrossReferenceView>, idx: Seq<EntryView>)
    ensures
        reference_errors(refs, idx) == reference_errors(internal_only(refs), idx),
        reference_warnings(refs) == external_only(refs).map_values(
            |r: CrossReferenceView| external_reference_warning(r),
        ),
    decreases refs.len(),
{
    reveal(Seq::filter);
    if refs.len() > 0 {
        lemma_external_references_only_warn(refs.drop_last(), idx);
        let r = refs.last();
        let pre = refs.drop_last();
        if !r.external {
            assert(internal_only(refs) == internal_only(pre).push(r));
            assert(internal_only(refs).drop_last() =~= internal_only(pre));
        } else {
            assert(external_only(refs) == external_only(pre).push(r));
            assert(external_only(refs).map_values(|r: CrossReferenceView| external_reference_warning(r))
                =~= external_only(pre).map_values(
                |r: CrossReferenceView| external_reference_warning(r),
            ).push(external_reference_warning(r)));
        }
    } else {
        assert(internal_only(refs) =~= refs);
        assert(external_only(refs).map_values(|r: CrossReferenceView| external_reference_warning(r))
            =~= Seq::<FindingView>::empty());
    }
}

/// The first phase of a batch records every parsed document that has the required
/// attributes, wherever it stands in the batch; so in the second phase an internal
/// reference to it gives no error, from documents before it as well as after it.
pub proof fn lemma_batch_resolves_references(
    idx: Seq<EntryView>,
    files: Seq<SourceFile>,
    j: int,
    d: ForgepointDocument,
    r: CrossReferenceView,
)
    requires
        0 <= j < files.len(),
        files[j] == SourceFile::Parsed(d),
        crate::document::has_required_structure(d@.attributes),
        r.ref_type == lookup(d@.attributes, TYPE_ATTRIBUTE@)->Some_0,
        r.id == lookup(d@.attributes, ID_ATTRIBUTE@)->Some_0,
    ensures
        is_indexed(batch_index(idx, files), r.ref_type, r.id),
        reference_errors(seq![r], batch_index(idx, files)).len() == 0,
{
    lemma_batch_records_every_document(idx, files, j, d);
    let s = seq![r];
    let b = batch_index(idx, files);
    assert(s.drop_last() =~= Seq::<CrossReferenceView>::empty());
    assert(reference_errors(s.drop_last(), b) == Seq::<FindingView>::empty());
    assert(s.last() == r);
}

proof fn lemma_batch_records_every_document(
    idx: Seq<EntryView>,
    files: Seq<SourceFile>,
    j: int,
    d: ForgepointDocument,
)
    requires
        0 <= j < files.len(),
        files[j] == SourceFile::Parsed(d),
        crate::document::has_required_structure(d@.attributes),
    ensures
        is_indexed(
            batch_index(idx, files),
            lookup(d@.attributes, TYPE_ATTRIBUTE@)->Some_0,
            lookup(d@.attributes, ID_ATTRIBUTE@)->Some_0,
        ),
    decreases files.len(),
{
    let pre = files.drop_last();
    if j < files.len() - 1 {
        assert(pre[j] == files[j]);
        lemma_batch_records_every_document(idx, pre, j, d);
        let b = batch_index(idx, pre);
        let k = choose|k: int|
            0 <= k < b.len() && (#[trigger] b[k]).doc_type == lookup(
                d@.attributes,
                TYPE_ATTRIBUTE@,
            )->Some_0 && b[k].doc_id == lookup(d@.attributes, ID_ATTRIBUTE@)->Some_0;
        let full = batch_index(idx, files);
        assert(k < full.len() && full[k] == b[k]);
        assert(batch_index(idx, files)[k] == b[k]);
    } else {
        let b = batch_index(idx, pre);
        assert(batch_index(idx, files)[b.len() as int] == entry_of(d@));
    }
}


proof fn lemma_other_occurrences_has(idx: Seq<EntryView>, e: EntryView, j: int)
    requires
        0 <= j < idx.len(),
        idx[j].doc_id == e.doc_id,
        idx[j].doc_type != e.doc_type || idx[j].file_path != e.file_path,
    ensures
        other_occurrences(idx, e).contains(idx[j].doc_type + " in "@ + idx[j].file_path),
    decreases idx.len(),
{
    let label = idx[j].doc_type + " in "@ + idx[j].file_path;
    let before = other_occurrences(idx.drop_last(), e);
    if j == idx.len() - 1 {
        assert(other_occurrences(idx, e) == before.push(label));
        assert(other_occurrences(idx, e)[before.len() as int] == label);
    } else {
        assert(idx.drop_last()[j] == idx[j]);
        lemma_other_occurrences_has(idx.drop_last(), e, j);
        let k = choose|k: int| 0 <= k < before.len() && before[k] == label;
        let x = idx.last();
        if x.doc_id == e.doc_id && (x.doc_type != e.doc_type || x.file_path != e.file_path) {
            assert(other_occurrences(idx, e)[k] == label);
        }
    }
}

/// Duplicate ids are found in every occurrence: when two entries of the index share an id
/// but not their (type, path) pair, each gets exactly one duplicate-id error, and the other
/// occurrences that it lists include the other entry as "type in path".
pub proof fn lemma_duplicate_ids_reported_for_both(idx: Seq<EntryView>, i: int, j: int)
    requires
        0 <= i < idx.len(),
        0 <= j < idx.len(),
        idx[i].doc_id == idx[j].doc_id,
        idx[i].doc_type != idx[j].doc_type || idx[i].file_path != idx[j].file_path,
    ensures
        conflict_findings(idx, idx[i]).len() == 1,
        conflict_findings(idx, idx[i])[0].error_type == ErrorType::IdConflict,
        other_occurrences(idx, idx[i]).contains(idx[j].doc_type + " in "@ + idx[j].file_path),
        conflict_findings(idx, idx[j]).len() == 1,
        conflict_findings(idx, idx[j])[0].error_type == ErrorType::IdConflict,
        other_occurrences(idx, idx[j]).contains(idx[i].doc_type + " in "@ + idx[i].file_path),
{
    lemma_other_occurrences_has(idx, idx[i], j);
    lemma_other_occurrences_has(idx, idx[j], i);
}


proof fn lemma_batch_holds_entry(idx: Seq<EntryView>, files: Seq<SourceFile>, j: int, d: ForgepointDocument)
    requires
        0 <= j < files.len(),
        files[j] == SourceFile::Parsed(d),
        crate::document::has_required_structure(d@.attributes),
    ensures
        exists|k: int| 0 <= k < batch_index(idx, files).len() && #[trigger] batch_index(idx, files)[k] == entry_of(d@),
    decreases files.len(),
{
    let pre = files.drop_last();
    let b = batch_index(idx, pre);
    let full = batch_index(idx, files);
    if j < files.len() - 1 {
        assert(pre[j] == files[j]);
        lemma_batch_holds_entry(idx, pre, j, d);
        let k = choose|k: int| 0 <= k < b.len() && #[trigger] b[k] == entry_of(d@);
        assert(k < full.len() && full[k] == b[k]);
    } else {
        assert(full[b.len() as int] == entry_of(d@));
    }
}

/// Duplicate ids across a batch: when two parsed documents with the required attributes
/// share an id but not their (type, path) pair, the complete index that the second phase
/// checks against gives each one duplicate-id error, whose message names the other as
/// "type in path".
pub proof fn lemma_batch_reports_duplicate_ids(
    idx: Seq<EntryView>,
    files: Seq<SourceFile>,
    i: int,
    a: ForgepointDocument,
    j: int,
    b: ForgepointDocument,
)
    requires
        0 <= i < files.len(),
        0 <= j < files.len(),
        files[i] == SourceFile::Parsed(a),
        files[j] == SourceFile::Parsed(b),
        crate::document::has_required_structure(a@.attributes),
        crate::document::has_required_structure(b@.attributes),
        entry_of(a@).doc_id == entry_of(b@).doc_id,
        entry_of(a@).doc_type != entry_of(b@).doc_type || a@.file_path != b@.file_path,
    ensures
        conflict_findings(batch_index(idx, files), entry_of(a@)).len() == 1,
        conflict_findings(batch_index(idx, files), entry_of(a@))[0].error_type
            == ErrorType::IdConflict,
        other_occurrences(batch_index(idx, files), entry_of(a@)).contains(
            entry_of(b@).doc_type + " in "@ + b@.file_path,
        ),
        contains(
            conflict_findings(batch_index(idx, files), entry_of(a@))[0].message,
            entry_of(b@).doc_type + " in "@ + b@.file_path,
        ),
{
    lemma_batch_holds_entry(idx, files, j, b);
    let full = batch_index(idx, files);
    let k = choose|k: int| 0 <= k < full.len() && #[trigger] full[k] == entry_of(b@);
    lemma_other_occurrences_has(full, entry_of(a@), k);
    lemma_conflict_message_names_others(full, entry_of(a@), k);
}

/// External references only warn, in a document's result: its errors hold the reference
/// errors of its internal references alone, and its warnings end with one warning per
/// external reference, in order, whether or not an indexed document matches it.
pub proof fn lemma_outcome_external_references_warn(
    doc: DocumentView,
    schemas: Seq<(String, crate::schema::CompiledSchema)>,
    violations: Seq<Seq<char>>,
    idx: Seq<EntryView>,
)
    requires
        crate::document::has_required_structure(doc.attributes),
    ensures
        outcome(doc, schemas, violations, idx).errors == type_errors(
            doc,
            lookup(doc.attributes, TYPE_ATTRIBUTE@)->Some_0,
            requirements_for(schemas, lookup(doc.attributes, TYPE_ATTRIBUTE@)->Some_0),
            violations,
        ) + id_errors(doc) + reference_errors(internal_only(references_of(lines_of(doc.content))), idx),
        outcome(doc, schemas, violations, idx).warnings == type_warnings(
            requirements_for(schemas, lookup(doc.attributes, TYPE_ATTRIBUTE@)->Some_0),
        ) + external_only(references_of(lines_of(doc.content))).map_values(
            |r: CrossReferenceView| external_reference_warning(r),
        ),
{
    lemma_external_references_only_warn(references_of(lines_of(doc.content)), idx);
}

/// References whose targets are indexed give no errors: when every internal reference has
/// its target in the index, there is no reference error. With the complete index of a batch
/// (`lemma_batch_resolves_references`), this covers references to documents later in the
/// batch.
pub proof fn lemma_resolved_references_give_no_errors(refs: Seq<CrossReferenceView>, idx: Seq<EntryView>)
    requires
        forall|k: int|
            0 <= k < refs.len() && !(#[trigger] refs[k]).external ==> is_indexed(
                idx,
                refs[k].ref_type,
                refs[k].id,
            ),
    ensures
        reference_errors(refs, idx).len() == 0,
    decreases refs.len(),
{
    if refs.len() > 0 {
        let pre = refs.drop_last();
        assert forall|k: int| 0 <= k < pre.len() && !(#[trigger] pre[k]).external implies is_indexed(
            idx,
            pre[k].ref_type,
            pre[k].id,
        ) by {
            assert(pre[k] == refs[k]);
        }
        lemma_resolved_references_give_no_errors(pre, idx);
        assert(refs.last() == refs[refs.len() - 1]);
    }
}

proof fn lemma_occurs_in_concat(a: Seq<char>, b: Seq<char>, at: int, x: Seq<char>)
    requires
        crate::text::occurs_at(b, at, x),
    ensures
        crate::text::occurs_at(a + b, a.len() + at, x),
        crate::text::occurs_at(b + a, at, x),
{
    assert((a + b).subrange(a.len() + at, a.len() + at + x.len()) =~= b.subrange(at, at + x.len()));
    assert((b + a).subrange(at, at + x.len()) =~= b.subrange(at, at + x.len()));
}

proof fn lemma_join_comma_holds(s: Seq<Seq<char>>, k: int)
    requires
        0 <= k < s.len(),
    ensures
        contains(join_comma(s), s[k]),
    decreases s.len(),
{
    let j = join_comma(s);
    if s.len() == 1 {
        assert(j.subrange(0, s[0].len() as int) =~= s[0]);
        assert(crate::text::occurs_at(j, 0, s[0]));
    } else {
        let pre = s.drop_last();
        let head = join_comma(pre) + ", "@;
        assert(j == head + s.last());
        if k == s.len() - 1 {
            assert(head.subrange(0, 0) =~= Seq::<char>::empty());
            assert(s.last().subrange(0, s.last().len() as int) =~= s.last());
            assert(crate::text::occurs_at(s.last(), 0, s[k]));
            lemma_occurs_in_concat(head, s.last(), 0, s[k]);
        } else {
            assert(pre[k] == s[k]);
            lemma_join_comma_holds(pre, k);
            let at = choose|at: int| crate::text::occurs_at(join_comma(pre), at, s[k]);
            lemma_occurs_in_concat(", "@, join_comma(pre), at, s[k]);
            lemma_occurs_in_concat(s.last(), head, at, s[k]);
        }
    }
}

/// The duplicate-id error of an entry names each other occurrence: its message holds the
/// "type in path" of every entry that shares the id under another (type, path) pair.
pub proof fn lemma_conflict_message_names_others(idx: Seq<EntryView>, e: EntryView, j: int)
    requires
        0 <= j < idx.len(),
        idx[j].doc_id == e.doc_id,
        idx[j].doc_type != e.doc_type || idx[j].file_path != e.file_path,
    ensures
        conflict_findings(idx, e).len() == 1,
        contains(
            conflict_findings(idx, e)[0].message,
            idx[j].doc_type + " in "@ + idx[j].file_path,
        ),
{
    lemma_other_occurrences_has(idx, e, j);
    let others = other_occurrences(idx, e);
    let label = idx[j].doc_type + " in "@ + idx[j].file_path;
    let k = choose|k: int| 0 <= k < others.len() && others[k] == label;
    lemma_join_comma_holds(others, k);
    let at = choose|at: int| crate::text::occurs_at(join_comma(others), at, label);
    let prefix = "Duplicate ID '"@ + e.doc_id + "' found in "@ + e.doc_type + " (conflicts with "@;
    lemma_occurs_in_concat(prefix, join_comma(others), at, label);
    lemma_occurs_in_concat(")"@, prefix + join_comma(others), prefix.len() + at, label);
    assert(conflict_findings(idx, e)[0].message == prefix + join_comma(others) + ")"@);
}

} // verus!
