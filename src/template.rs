//! New documents: the skeleton that a document type's schema asks for.
use vstd::prelude::*;
use crate::error::ForgepointError;
use crate::schema::{
    abstract_required_of, requirements_for, required_sections_of, strings, DocumentTypeDefinition,
    SchemaLoader,
};

verus! {

/// What `str::to_lowercase` makes of a text.
pub uninterp spec fn lowercase_of(s: Seq<char>) -> Seq<char>;

/// Relies on `str::to_lowercase`: the result depends on the characters alone.
#[verifier::external_body]
fn lowercase(s: &str) -> (r: String)
    ensures
        r@ == lowercase_of(s@),
{
    s.to_lowercase()
}

/// The author written when none is given.
pub const DEFAULT_AUTHOR: &'static str = "Author Name";

/// The header: title, type, id, status, creation date, author and schema version.
pub open spec fn template_header(
    title: Seq<char>,
    doc_type: Seq<char>,
    id: Seq<char>,
    date: Seq<char>,
    author: Seq<char>,
) -> Seq<char> {
    "= "@ + title + "\n:forgepoint-type: "@ + doc_type + "\n:id: "@ + id
        + "\n:status: draft\n:created: "@ + date + "\n:author: "@ + author
        + "\n:schema-version: 1.0\n\n"@
}

pub open spec fn template_abstract(lower_name: Seq<char>) -> Seq<char> {
    "[abstract]\nBrief description of this "@ + lower_name + ".\n\n"@
}

/// One heading per section, each followed by a placeholder comment.
pub open spec fn template_sections(s: Seq<Seq<char>>) -> Seq<char>
    decreases s.len(),
{
    if s.len() == 0 {
        Seq::empty()
    } else {
        template_sections(s.drop_last()) + "== "@ + s.last() + "\n\n// TODO: Add content for "@ + s.last()
            + "\n\n"@
    }
}

/// The first definition of type `t`.
pub open spec fn definition_pos(defs: Seq<DocumentTypeDefinition>, t: Seq<char>, i: nat) -> Option<
    nat,
>
    decreases defs.len() - i,
{
    if i >= defs.len() {
        None
    } else if defs[i as int].doc_type@ == t {
        Some(i)
    } else {
        definition_pos(defs, t, i + 1)
    }
}

pub open spec fn template_of(
    loader: SchemaLoader,
    doc_type: Seq<char>,
    id: Seq<char>,
    title: Option<Seq<char>>,
    author: Option<Seq<char>>,
    date: Seq<char>,
    def: DocumentTypeDefinition,
) -> Seq<char> {
    let req = requirements_for(loader.compiled_schemas@, doc_type);
    let sections = match req {
        Some(q) => strings(required_sections_of(q)),
        None => Seq::empty(),
    };
    let needs_abstract = match req {
        Some(q) => abstract_required_of(q),
        None => false,
    };
    template_header(
        match title {
            Some(t) => t,
            None => def.name@,
        },
        doc_type,
        id,
        date,
        match author {
            Some(a) => a,
            None => DEFAULT_AUTHOR@,
        },
    ) + if needs_abstract {
        template_abstract(lowercase_of(def.name@))
    } else {
        Seq::empty()
    } + template_sections(sections)
}

/// The text of a new document: its header, an abstract block naming `abstract_of` (the
/// type's name in lower case) when there is one, and a heading for each of `sections`.
pub fn render_template(
    title: &String,
    doc_type: &str,
    id: &str,
    date: &str,
    author: &String,
    abstract_of: Option<&str>,
    sections: &Vec<String>,
) -> (r: String)
    ensures
        r@ == template_header(title@, doc_type@, id@, date@, author@) + match abstract_of {
            Some(n) => template_abstract(n@),
            None => Seq::empty(),
        } + template_sections(strings(sections@)),
{
    let mut text = String::from_str("= ").concat(title.as_str()).concat(
        "\n:forgepoint-type: ",
    ).concat(doc_type).concat("\n:id: ").concat(id).concat("\n:status: draft\n:created: ").concat(
        date,
    ).concat("\n:author: ").concat(author.as_str()).concat("\n:schema-version: 1.0\n\n");
    let ghost header = text@;
    match abstract_of {
        Some(n) => {
            text.append("[abstract]\nBrief description of this ");
            text.append(n);
            text.append(".\n\n");
            assert(text@ =~= header + template_abstract(n@));
        },
        None => {
            assert(text@ =~= header + Seq::<char>::empty());
        },
    }
    let ghost head = text@;
    let ghost rq = strings(sections@);
    let mut k: usize = 0;
    while k < sections.len()
        invariant
            k <= sections.len(),
            rq == strings(sections@),
            text@ == head + template_sections(rq.take(k as int)),
        decreases sections.len() - k,
    {
        assert(rq.take(k + 1).drop_last() =~= rq.take(k as int));
        assert(rq.take(k + 1).last() == sections@[k as int]@);
        let s = &sections[k];
        text.append("== ");
        text.append(s.as_str());
        text.append("\n\n// TODO: Add content for ");
        text.append(s.as_str());
        text.append("\n\n");
        assert(text@ =~= head + template_sections(rq.take(k + 1)));
        k = k + 1;
    }
    assert(rq.take(k as int) =~= rq);
    text
}

/// The skeleton of a new document of type `doc_type`, created on `date`: its header, an
/// abstract block when the type requires one, and its required sections. The title
/// defaults to the type's name. Fails with `InvalidDocumentType` for a type the registry
/// does not define.
pub fn create_document_template(
    loader: &SchemaLoader,
    doc_type: &str,
    id: &str,
    title: Option<&str>,
    author: Option<&str>,
    date: &str,
) -> (r: Result<String, ForgepointError>)
    ensures
        ({
            let defs = match loader.registry {
                Some(reg) => reg.document_types@,
                None => Seq::empty(),
            };
            match definition_pos(defs, doc_type@, 0) {
                None => r matches Err(ForgepointError::InvalidDocumentType(t)) && t@ == doc_type@,
                Some(i) => r matches Ok(text) && text@ == template_of(
                    *loader,
                    doc_type@,
                    id@,
                    match title {
                        Some(t) => Some(t@),
                        None => None,
                    },
                    match author {
                        Some(a) => Some(a@),
                        None => None,
                    },
                    date@,
                    defs[i as int],
                ),
            }
        }),
{
    let types = loader.get_document_types();
    let ghost defs = types@;
    let mut i: usize = 0;
    let mut found = false;
    let t = String::from_str(doc_type);
    while i < types.len() && !found
        invariant
            i <= types.len(),
            defs == types@,
            t@ == doc_type@,
            found ==> i < types.len() && definition_pos(defs, doc_type@, 0) == Some(i as nat),
            !found ==> definition_pos(defs, doc_type@, 0) == definition_pos(
                defs,
                doc_type@,
                i as nat,
            ),
        decreases types.len() - i + if found {
            0int
        } else {
            1int
        },
    {
        if types[i].doc_type == t {
            found = true;
        } else {
            i = i + 1;
        }
    }
    if !found {
        return Err(ForgepointError::InvalidDocumentType(t));
    }
    let def = &types[i];
    let title_text: String = match title {
        Some(x) => String::from_str(x),
        None => def.name.clone(),
    };
    let author_text: String = match author {
        Some(x) => String::from_str(x),
        None => String::from_str(DEFAULT_AUTHOR),
    };
    let required = loader.get_required_sections(doc_type);
    let text = if loader.is_abstract_required(doc_type) {
        let lower = lowercase(def.name.as_str());
        render_template(&title_text, doc_type, id, date, &author_text, Some(lower.as_str()), &required)
    } else {
        render_template(&title_text, doc_type, id, date, &author_text, None, &required)
    };
    Ok(text)
}

} // verus!
