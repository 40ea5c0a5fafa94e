//! The document model and the structural queries answered from it.
use vstd::prelude::*;
use crate::error::ForgepointError;
use crate::text::{
    char_vecs, chars_of, find_char, is_blank, join_char_lines, join_lines,
    lines_of, range_eq, skip_ws, skip_ws_exec, split_lines, string_of, trim, trim_bounds,
};

verus! {

/// Attribute that names a document's type.
pub const TYPE_ATTRIBUTE: &'static str = "forgepoint-type";

/// Attribute that holds a document's identifier.
pub const ID_ATTRIBUTE: &'static str = "id";

/// Attribute that holds the schema version a document follows.
pub const VERSION_ATTRIBUTE: &'static str = "schema-version";

/// A titled span of body text at a nesting level (the number of leading `=`; level 0 for
/// the body text before any heading).
#[derive(Debug, Clone)]
pub struct Section {
    pub level: usize,
    pub title: String,
    pub content: String,
    pub line_number: Option<usize>,
}

pub struct SectionView {
    pub level: nat,
    pub title: Seq<char>,
    pub content: Seq<char>,
    pub line_number: Option<usize>,
}

impl View for Section {
    type V = SectionView;

    open spec fn view(&self) -> SectionView {
        SectionView {
            level: self.level as nat,
            title: self.title@,
            content: self.content@,
            line_number: self.line_number,
        }
    }
}

/// A pointer from one document to another, found in the text.
#[derive(Debug, Clone)]
pub struct CrossReference {
    pub ref_type: String,
    pub id: String,
    pub line_number: Option<usize>,
    pub external: bool,
    pub version: Option<String>,
    pub repository: Option<String>,
}

/// A `* [ ]` or `* [x]` item of a checklist.
#[derive(Debug, Clone)]
pub struct ChecklistItem {
    pub text: String,
    pub checked: bool,
    pub line_number: usize,
}

/// One parsed input file: its title, its attributes (each key once, in the order first
/// seen), its raw text and its sections in order.
#[derive(Debug, Clone)]
pub struct ForgepointDocument {
    pub file_path: String,
    pub title: Option<String>,
    pub attributes: Vec<(String, String)>,
    pub content: String,
    pub sections: Vec<Section>,
}

pub struct DocumentView {
    pub file_path: Seq<char>,
    pub title: Option<Seq<char>>,
    pub attributes: Seq<(Seq<char>, Seq<char>)>,
    pub content: Seq<char>,
    pub sections: Seq<SectionView>,
}

pub open spec fn opt_view(o: Option<String>) -> Option<Seq<char>> {
    match o {
        Some(s) => Some(s@),
        None => None,
    }
}

pub open spec fn opt_ref_view(o: Option<&String>) -> Option<Seq<char>> {
    match o {
        Some(s) => Some(s@),
        None => None,
    }
}

pub open spec fn section_views(s: Seq<Section>) -> Seq<SectionView> {
    s.map_values(|x: Section| x@)
}

impl View for ForgepointDocument {
    type V = DocumentView;

    open spec fn view(&self) -> DocumentView {
        DocumentView {
            file_path: self.file_path@,
            title: opt_view(self.title),
            attributes: self.attributes.deep_view(),
            content: self.content@,
            sections: section_views(self.sections@),
        }
    }
}

/// The position of the first entry with key `k`, looking from position `i` on.
pub open spec fn key_pos_from(a: Seq<(Seq<char>, Seq<char>)>, k: Seq<char>, i: nat) -> Option<nat>
    decreases a.len() - i,
{
    if i >= a.len() {
        None
    } else if a[i as int].0 == k {
        Some(i)
    } else {
        key_pos_from(a, k, i + 1)
    }
}

pub open spec fn key_pos(a: Seq<(Seq<char>, Seq<char>)>, k: Seq<char>) -> Option<nat> {
    key_pos_from(a, k, 0)
}

/// The value of attribute `k`: that of its first entry.
pub open spec fn lookup(a: Seq<(Seq<char>, Seq<char>)>, k: Seq<char>) -> Option<Seq<char>> {
    match key_pos(a, k) {
        Some(i) => Some(a[i as int].1),
        None => None,
    }
}

pub open spec fn has_key(a: Seq<(Seq<char>, Seq<char>)>, k: Seq<char>) -> bool {
    key_pos(a, k) is Some
}

/// The three attributes that every planning document declares.
pub open spec fn has_required_structure(a: Seq<(Seq<char>, Seq<char>)>) -> bool {
    has_key(a, TYPE_ATTRIBUTE@) && has_key(a, ID_ATTRIBUTE@) && has_key(a, VERSION_ATTRIBUTE@)
}

/// Each attribute key occurs once.
pub open spec fn keys_unique(a: Seq<(Seq<char>, Seq<char>)>) -> bool {
    forall|i: int, j: int| 0 <= i < j < a.len() ==> (#[trigger] a[i]).0 != (#[trigger] a[j]).0
}

pub proof fn lemma_key_pos_none(a: Seq<(Seq<char>, Seq<char>)>, k: Seq<char>, i: nat)
    ensures
        key_pos_from(a, k, i) is None ==> forall|j: int| i <= j < a.len() ==> (#[trigger] a[j]).0 != k,
    decreases a.len() - i,
{
    if i < a.len() && a[i as int].0 != k {
        lemma_key_pos_none(a, k, i + 1);
    }
}

pub proof fn lemma_key_pos_from_bounds(a: Seq<(Seq<char>, Seq<char>)>, k: Seq<char>, i: nat)
    ensures
        key_pos_from(a, k, i) matches Some(p) ==> i <= p < a.len() && a[p as int].0 == k,
    decreases a.len() - i,
{
    if i < a.len() && a[i as int].0 != k {
        lemma_key_pos_from_bounds(a, k, i + 1);
    }
}

pub proof fn lemma_key_pos_bounds(a: Seq<(Seq<char>, Seq<char>)>, k: Seq<char>)
    ensures
        key_pos(a, k) matches Some(p) ==> p < a.len() && a[p as int].0 == k,
{
    lemma_key_pos_from_bounds(a, k, 0);
}

/// The first entry of `attrs` with key `key`.
pub fn find_key(attrs: &Vec<(String, String)>, key: &str) -> (r: Option<usize>)
    ensures
        r matches Some(i) ==> i < attrs.len() && key_pos(attrs.deep_view(), key@) == Some(i as nat),
        r is None ==> key_pos(attrs.deep_view(), key@) is None,
{
    let k = String::from_str(key);
    let ghost a = attrs.deep_view();
    let mut i: usize = 0;
    while i < attrs.len()
        invariant
            i <= attrs.len(),
            a == attrs.deep_view(),
            k@ == key@,
            key_pos(a, key@) == key_pos_from(a, key@, i as nat),
        decreases attrs.len() - i,
    {
        assert(a[i as int].0 == attrs@[i as int].0@);
        if attrs[i].0 == k {
            return Some(i);
        }
        i = i + 1;
    }
    None
}

pub open spec fn is_id_char(c: char) -> bool {
    ('a' <= c && c <= 'z') || ('0' <= c && c <= '9') || c == '-'
}

/// The text `^[a-z0-9-]+$` accepts.
pub open spec fn id_charset_ok(id: Seq<char>) -> bool {
    id.len() > 0 && forall|i: int| 0 <= i < id.len() ==> is_id_char(#[trigger] id[i])
}

pub open spec fn has_double_hyphen(id: Seq<char>) -> bool {
    exists|i: int| 0 <= i < id.len() - 1 && #[trigger] id[i] == '-' && id[i + 1] == '-'
}

pub open spec fn missing_id_message() -> Seq<char> {
    "Missing document ID"@
}

pub open spec fn id_charset_message(id: Seq<char>) -> Seq<char> {
    "ID '"@ + id + "' must contain only lowercase letters, numbers, and hyphens"@
}

pub open spec fn id_leading_hyphen_message() -> Seq<char> {
    "ID cannot start with a hyphen"@
}

pub open spec fn id_trailing_hyphen_message() -> Seq<char> {
    "ID cannot end with a hyphen"@
}

pub open spec fn id_double_hyphen_message() -> Seq<char> {
    "ID cannot contain consecutive hyphens"@
}

/// The first rule that `id` breaks, as the message that reports it; checked in this order:
/// the character set, a leading hyphen, a trailing hyphen, consecutive hyphens.
pub open spec fn id_problem(id: Seq<char>) -> Option<Seq<char>> {
    if !id_charset_ok(id) {
        Some(id_charset_message(id))
    } else if id[0] == '-' {
        Some(id_leading_hyphen_message())
    } else if id.last() == '-' {
        Some(id_trailing_hyphen_message())
    } else if has_double_hyphen(id) {
        Some(id_double_hyphen_message())
    } else {
        None
    }
}

/// What checking the id attribute of a document with these attributes reports.
pub open spec fn id_format_outcome(a: Seq<(Seq<char>, Seq<char>)>) -> Option<Seq<char>> {
    match lookup(a, ID_ATTRIBUTE@) {
        None => Some(missing_id_message()),
        Some(id) => id_problem(id),
    }
}

/// The message for the first rule that `id` breaks.
pub fn check_id(id: &String) -> (r: Option<String>)
    ensures
        opt_view(r) == id_problem(id@),
{
    let v = chars_of(id.as_str());
    let n = v.len();
    let mut i: usize = 0;
    let mut ok = n > 0;
    while i < n
        invariant
            i <= n == v.len(),
            v@ == id@,
            ok == (n > 0 && forall|j: int| 0 <= j < i ==> is_id_char(#[trigger] v@[j])),
        decreases n - i,
    {
        let c = v[i];
        if !(('a' <= c && c <= 'z') || ('0' <= c && c <= '9') || c == '-') {
            ok = false;
        }
        i = i + 1;
    }
    if !ok {
        return Some(
            String::from_str("ID '").concat(id.as_str()).concat(
                "' must contain only lowercase letters, numbers, and hyphens",
            ),
        );
    }
    if v[0] == '-' {
        return Some(String::from_str("ID cannot start with a hyphen"));
    }
    if v[n - 1] == '-' {
        return Some(String::from_str("ID cannot end with a hyphen"));
    }
    let mut k: usize = 0;
    while k + 1 < n
        invariant
            n == v.len(),
            v@ == id@,
            k < n,
            n > 0,
            v@[0] != '-' && v@[n - 1] != '-',
            forall|j: int| 0 <= j < n ==> is_id_char(#[trigger] v@[j]),
            forall|j: int| 0 <= j < k ==> !(#[trigger] v@[j] == '-' && v@[j + 1] == '-'),
        decreases n - k,
    {
        if v[k] == '-' && v[k + 1] == '-' {
            assert(id@[k as int] == '-' && id@[k + 1] == '-');
            return Some(String::from_str("ID cannot contain consecutive hyphens"));
        }
        k = k + 1;
    }
    None
}

/// The line that opens an abstract block.
pub const ABSTRACT_MARKER: &'static str = "[abstract]";

/// A line that ends an abstract block: a heading, or a bracketed block marker.
pub open spec fn ends_block(l: Seq<char>) -> bool {
    l.len() > 0 && (l[0] == '=' || (l[0] == '[' && l.last() == ']'))
}

/// The lines of the abstract block, scanning from line `i`: after a marker line (trimmed,
/// exactly the marker) each non-blank line is taken, until a line that ends the block, or
/// a blank line once a line was taken.
pub open spec fn abstract_scan(ls: Seq<Seq<char>>, i: nat, active: bool, acc: Seq<Seq<char>>) -> Seq<
    Seq<char>,
>
    decreases ls.len() - i,
{
    if i >= ls.len() {
        acc
    } else {
        let l = ls[i as int];
        if trim(l) == ABSTRACT_MARKER@ {
            abstract_scan(ls, i + 1, true, acc)
        } else if !active {
            abstract_scan(ls, i + 1, false, acc)
        } else if ends_block(l) || (is_blank(l) && acc.len() > 0) {
            acc
        } else if !is_blank(l) {
            abstract_scan(ls, i + 1, true, acc.push(l))
        } else {
            abstract_scan(ls, i + 1, true, acc)
        }
    }
}

/// The abstract of a document with text `content`: its block's lines joined and trimmed.
pub open spec fn abstract_of(content: Seq<char>) -> Option<Seq<char>> {
    let acc = abstract_scan(lines_of(content), 0, false, Seq::empty());
    if acc.len() == 0 {
        None
    } else {
        Some(trim(join_lines(acc)))
    }
}

/// `* [ ] text` or `* [x] text`, with any whitespace before the bullet: the position of
/// the box's mark.
pub open spec fn checklist_mark(l: Seq<char>) -> Option<nat> {
    let a = skip_ws(l, 0);
    let b = skip_ws(l, a + 1);
    if a < l.len() && l[a as int] == '*' && b > a + 1 && l.len() >= b + 5 && l[b as int] == '['
        && (l[b as int + 1] == 'x' || l[b as int + 1] == ' ') && l[b as int + 2] == ']' && crate::text::is_ws(
        l[b as int + 3],
    ) {
        Some(b + 1)
    } else {
        None
    }
}

pub struct ChecklistItemView {
    pub text: Seq<char>,
    pub checked: bool,
    pub line_number: usize,
}

impl View for ChecklistItem {
    type V = ChecklistItemView;

    open spec fn view(&self) -> ChecklistItemView {
        ChecklistItemView { text: self.text@, checked: self.checked, line_number: self.line_number }
    }
}

/// The checklist items of lines `ls`, numbered from 1.
pub open spec fn checklist_of(ls: Seq<Seq<char>>) -> Seq<ChecklistItemView>
    decreases ls.len(),
{
    if ls.len() == 0 {
        Seq::empty()
    } else {
        let before = checklist_of(ls.drop_last());
        let l = ls.last();
        match checklist_mark(l) {
            Some(m) => before.push(
                ChecklistItemView {
                    text: trim(l.subrange(m as int + 3, l.len() as int)),
                    checked: l[m as int] == 'x',
                    line_number: ls.len() as usize,
                },
            ),
            None => before,
        }
    }
}

fn checklist_mark_exec(l: &Vec<char>) -> (r: Option<usize>)
    ensures
        r matches Some(m) ==> checklist_mark(l@) == Some(m as nat) && m + 4 <= l.len(),
        r is None ==> checklist_mark(l@) is None,
{
    let a = skip_ws_exec(l, 0);
    if a < l.len() && l[a] == '*' {
        let b = skip_ws_exec(l, a + 1);
        if b > a + 1 && l.len() >= 5 && b <= l.len() - 5 && l[b] == '[' && (l[b + 1] == 'x' || l[b
            + 1] == ' ') && l[b + 2] == ']' && crate::text::is_ws_char(l[b + 3]) {
            return Some(b + 1);
        }
    }
    None
}

/// The token that opens a cross-reference.
pub const XREF_TOKEN: &'static str = "xref:";

pub struct CrossReferenceView {
    pub ref_type: Seq<char>,
    pub id: Seq<char>,
    pub line_number: Option<usize>,
    pub external: bool,
    pub version: Option<Seq<char>>,
    pub repository: Option<Seq<char>>,
}

impl View for CrossReference {
    type V = CrossReferenceView;

    open spec fn view(&self) -> CrossReferenceView {
        CrossReferenceView {
            ref_type: self.ref_type@,
            id: self.id@,
            line_number: self.line_number,
            external: self.external,
            version: opt_view(self.version),
            repository: opt_view(self.repository),
        }
    }
}

pub open spec fn is_kind_char(c: char) -> bool {
    ('a' <= c && c <= 'z') || c == '-'
}

pub open spec fn is_version_char(c: char) -> bool {
    c != '[' && c != ']'
}

/// The end of the run of `[a-z-]` characters from `i`.
pub open spec fn skip_kind(l: Seq<char>, i: nat) -> nat
    decreases l.len() - i,
{
    if i < l.len() && is_kind_char(l[i as int]) {
        skip_kind(l, i + 1)
    } else {
        i
    }
}

/// The end of the run of `[a-z0-9-]` characters from `i`.
pub open spec fn skip_id(l: Seq<char>, i: nat) -> nat
    decreases l.len() - i,
{
    if i < l.len() && is_id_char(l[i as int]) {
        skip_id(l, i + 1)
    } else {
        i
    }
}

/// The end of the run of characters other than `[` and `]` from `i`.
pub open spec fn skip_version(l: Seq<char>, i: nat) -> nat
    decreases l.len() - i,
{
    if i < l.len() && is_version_char(l[i as int]) {
        skip_version(l, i + 1)
    } else {
        i
    }
}

/// Past an optional `[...]` that starts at `q`.
pub open spec fn bracket_end(l: Seq<char>, q: nat) -> nat {
    let c = find_char(l, q + 1, ']');
    if q < l.len() && l[q as int] == '[' && c < l.len() {
        c + 1
    } else {
        q
    }
}

/// An internal reference `xref:kind:id` (optionally followed by `[...]`) that starts at
/// `p`: where it ends, its kind and its id.
pub open spec fn internal_at(l: Seq<char>, p: nat) -> Option<(nat, Seq<char>, Seq<char>)> {
    let k0 = p + XREF_TOKEN@.len();
    let k1 = skip_kind(l, k0);
    let i0 = k1 + 1;
    let i1 = skip_id(l, i0);
    if crate::text::occurs_at(l, p as int, XREF_TOKEN@) && k1 > k0 && k1 < l.len() && l[k1 as int]
        == ':' && i1 > i0 {
        Some((bracket_end(l, i1), l.subrange(k0 as int, k1 as int), l.subrange(i0 as int, i1 as int)))
    } else {
        None
    }
}

/// An external reference `xref:repo#kind:id` with an optional `@version` (and an optional
/// `[...]`) that starts at `p`: where it ends, its repository, kind, id and version.
pub open spec fn external_at(l: Seq<char>, p: nat) -> Option<
    (nat, Seq<char>, Seq<char>, Seq<char>, Option<Seq<char>>),
> {
    let r0 = p + XREF_TOKEN@.len();
    let h = find_char(l, r0, '#');
    let k0 = h + 1;
    let k1 = skip_kind(l, k0);
    let i0 = k1 + 1;
    let i1 = skip_id(l, i0);
    let v1 = skip_version(l, i1 + 1);
    let has_version = i1 < l.len() && l[i1 as int] == '@' && v1 > i1 + 1;
    let q = if has_version {
        v1
    } else {
        i1
    };
    if crate::text::occurs_at(l, p as int, XREF_TOKEN@) && h > r0 && h < l.len() && k1 > k0 && k1
        < l.len() && l[k1 as int] == ':' && i1 > i0 {
        Some(
            (
                bracket_end(l, q),
                l.subrange(r0 as int, h as int),
                l.subrange(k0 as int, k1 as int),
                l.subrange(i0 as int, i1 as int),
                if has_version {
                    Some(l.subrange(i1 as int + 1, v1 as int))
                } else {
                    None
                },
            ),
        )
    } else {
        None
    }
}

/// The internal references of line `l` (numbered `n`) from position `p` on, each search
/// going on where the last match ended.
pub open spec fn internal_refs_from(l: Seq<char>, p: nat, n: usize) -> Seq<CrossReferenceView>
    decreases l.len() - p,
{
    if p >= l.len() {
        Seq::empty()
    } else {
        match internal_at(l, p) {
            Some((e, k, id)) if p < e <= l.len() => seq![
                CrossReferenceView {
                    ref_type: k,
                    id: id,
                    line_number: Some(n),
                    external: false,
                    version: None,
                    repository: None,
                },
            ] + internal_refs_from(l, e, n),
            _ => internal_refs_from(l, p + 1, n),
        }
    }
}

/// The external references of line `l` (numbered `n`) from position `p` on.
pub open spec fn external_refs_from(l: Seq<char>, p: nat, n: usize) -> Seq<CrossReferenceView>
    decreases l.len() - p,
{
    if p >= l.len() {
        Seq::empty()
    } else {
        match external_at(l, p) {
            Some((e, repo, k, id, ver)) if p < e <= l.len() => seq![
                CrossReferenceView {
                    ref_type: k,
                    id: id,
                    line_number: Some(n),
                    external: true,
                    version: ver,
                    repository: Some(repo),
                },
            ] + external_refs_from(l, e, n),
            _ => external_refs_from(l, p + 1, n),
        }
    }
}

/// The references of lines `ls`, numbered from 1: per line its internal ones, then its
/// external ones.
pub open spec fn references_of(ls: Seq<Seq<char>>) -> Seq<CrossReferenceView>
    decreases ls.len(),
{
    if ls.len() == 0 {
        Seq::empty()
    } else {
        let n = ls.len() as usize;
        references_of(ls.drop_last()) + internal_refs_from(ls.last(), 0, n) + external_refs_from(
            ls.last(),
            0,
            n,
        )
    }
}

fn skip_kind_exec(l: &Vec<char>, from: usize) -> (r: usize)
    requires
        from <= l.len(),
    ensures
        r == skip_kind(l@, from as nat),
        from <= r <= l.len(),
{
    let mut i: usize = from;
    while i < l.len() && (('a' <= l[i] && l[i] <= 'z') || l[i] == '-')
        invariant
            from <= i <= l.len(),
            skip_kind(l@, from as nat) == skip_kind(l@, i as nat),
        decreases l.len() - i,
    {
        i = i + 1;
    }
    i
}

fn skip_id_exec(l: &Vec<char>, from: usize) -> (r: usize)
    requires
        from <= l.len(),
    ensures
        r == skip_id(l@, from as nat),
        from <= r <= l.len(),
{
    let mut i: usize = from;
    while i < l.len() && (('a' <= l[i] && l[i] <= 'z') || ('0' <= l[i] && l[i] <= '9') || l[i]
        == '-')
        invariant
            from <= i <= l.len(),
            skip_id(l@, from as nat) == skip_id(l@, i as nat),
        decreases l.len() - i,
    {
        i = i + 1;
    }
    i
}

fn skip_version_exec(l: &Vec<char>, from: usize) -> (r: usize)
    requires
        from <= l.len(),
    ensures
        r == skip_version(l@, from as nat),
        from <= r <= l.len(),
{
    let mut i: usize = from;
    while i < l.len() && l[i] != '[' && l[i] != ']'
        invariant
            from <= i <= l.len(),
            skip_version(l@, from as nat) == skip_version(l@, i as nat),
        decreases l.len() - i,
    {
        i = i + 1;
    }
    i
}

fn bracket_end_exec(l: &Vec<char>, q: usize) -> (r: usize)
    requires
        q <= l.len(),
    ensures
        r == bracket_end(l@, q as nat),
        q <= r <= l.len(),
{
    if q < l.len() && l[q] == '[' {
        let c = crate::text::find_char_exec(l, q + 1, ']');
        if c < l.len() {
            return c + 1;
        }
    }
    q
}

/// Start positions: `(end, kind start, kind end, id start, id end)`.
fn internal_at_exec(l: &Vec<char>, p: usize, x: &Vec<char>) -> (r: Option<
    (usize, usize, usize, usize, usize),
>)
    requires
        p < l.len(),
        x@ == XREF_TOKEN@,
    ensures
        match internal_at(l@, p as nat) {
            None => r is None,
            Some((e, k, id)) => r matches Some((e2, k0, k1, i0, i1)) && e2 == e && p < e2 <= l.len()
                && k0 <= k1 <= i0 <= i1 <= l.len() && k == l@.subrange(k0 as int, k1 as int) && id
                == l@.subrange(i0 as int, i1 as int),
        },
{
    if x.len() > l.len() - p {
        return None;
    }
    if !range_eq(l, p, p + x.len(), x) {
        return None;
    }
    let k0 = p + x.len();
    let k1 = skip_kind_exec(l, k0);
    if !(k1 > k0 && k1 < l.len() && l[k1] == ':') {
        return None;
    }
    let i0 = k1 + 1;
    let i1 = skip_id_exec(l, i0);
    if !(i1 > i0) {
        return None;
    }
    Some((bracket_end_exec(l, i1), k0, k1, i0, i1))
}

/// `(end, repository start, hash, kind end, id end, version end)`; the version is there
/// when its end passes the character after the id.
fn external_at_exec(l: &Vec<char>, p: usize, x: &Vec<char>) -> (r: Option<
    (usize, usize, usize, usize, usize, Option<usize>),
>)
    requires
        p < l.len(),
        x@ == XREF_TOKEN@,
    ensures
        match external_at(l@, p as nat) {
            None => r is None,
            Some((e, repo, k, id, ver)) => r matches Some((e2, r0, h, k1, i1, v)) && e2 == e && p
                < e2 <= l.len() && r0 <= h && h + 1 <= k1 && k1 + 1 <= i1 <= l.len() && repo
                == l@.subrange(r0 as int, h as int) && k == l@.subrange(h + 1, k1 as int) && id
                == l@.subrange(k1 + 1, i1 as int) && match v {
                None => ver is None,
                Some(v1) => i1 + 1 <= v1 <= l.len() && ver == Some(
                    l@.subrange(i1 + 1, v1 as int),
                ),
            },
        },
{
    if x.len() > l.len() - p {
        return None;
    }
    if !range_eq(l, p, p + x.len(), x) {
        return None;
    }
    let r0 = p + x.len();
    let h = crate::text::find_char_exec(l, r0, '#');
    if !(h > r0 && h < l.len()) {
        return None;
    }
    let k0 = h + 1;
    let k1 = skip_kind_exec(l, k0);
    if !(k1 > k0 && k1 < l.len() && l[k1] == ':') {
        return None;
    }
    let i0 = k1 + 1;
    let i1 = skip_id_exec(l, i0);
    if !(i1 > i0) {
        return None;
    }
    let mut version: Option<usize> = None;
    let mut q = i1;
    if i1 < l.len() && l[i1] == '@' {
        let v1 = skip_version_exec(l, i1 + 1);
        if v1 > i1 + 1 {
            version = Some(v1);
            q = v1;
        }
    }
    Some((bracket_end_exec(l, q), r0, h, k1, i1, version))
}

fn line_references(l: &Vec<char>, n: usize, x: &Vec<char>, out: &mut Vec<CrossReference>)
    requires
        x@ == XREF_TOKEN@,
    ensures
        final(out)@.map_values(|r: CrossReference| r@) == old(out)@.map_values(
            |r: CrossReference| r@,
        ) + internal_refs_from(l@, 0, n) + external_refs_from(l@, 0, n),
{
    let ghost base = old(out)@.map_values(|r: CrossReference| r@);
    let mut p: usize = 0;
    while p < l.len()
        invariant
            p <= l.len(),
            x@ == XREF_TOKEN@,
            base + internal_refs_from(l@, 0, n) == out@.map_values(|r: CrossReference| r@)
                + internal_refs_from(l@, p as nat, n),
        decreases l.len() - p,
    {
        match internal_at_exec(l, p, x) {
            Some((e, k0, k1, i0, i1)) => {
                let r = CrossReference {
                    ref_type: string_of(l, k0, k1),
                    id: string_of(l, i0, i1),
                    line_number: Some(n),
                    external: false,
                    version: None,
                    repository: None,
                };
                let ghost before = out@.map_values(|r: CrossReference| r@);
                out.push(r);
                assert(out@.map_values(|r: CrossReference| r@) =~= before.push(r@));
                assert(before.push(r@) + internal_refs_from(l@, e as nat, n) =~= before + (seq![r@]
                    + internal_refs_from(l@, e as nat, n)));
                p = e;
            },
            None => {
                p = p + 1;
            },
        }
    }
    let ghost mid = out@.map_values(|r: CrossReference| r@);
    assert(mid + internal_refs_from(l@, p as nat, n) =~= mid);
    let mut p: usize = 0;
    while p < l.len()
        invariant
            p <= l.len(),
            x@ == XREF_TOKEN@,
            mid + external_refs_from(l@, 0, n) == out@.map_values(|r: CrossReference| r@)
                + external_refs_from(l@, p as nat, n),
        decreases l.len() - p,
    {
        match external_at_exec(l, p, x) {
            Some((e, r0, h, k1, i1, v)) => {
                let version = match v {
                    Some(v1) => Some(string_of(l, i1 + 1, v1)),
                    None => None,
                };
                let r = CrossReference {
                    ref_type: string_of(l, h + 1, k1),
                    id: string_of(l, k1 + 1, i1),
                    line_number: Some(n),
                    external: true,
                    version: version,
                    repository: Some(string_of(l, r0, h)),
                };
                let ghost before = out@.map_values(|r: CrossReference| r@);
                out.push(r);
                assert(out@.map_values(|r: CrossReference| r@) =~= before.push(r@));
                assert(before.push(r@) + external_refs_from(l@, e as nat, n) =~= before + (seq![r@]
                    + external_refs_from(l@, e as nat, n)));
                p = e;
            },
            None => {
                p = p + 1;
            },
        }
    }
    let ghost fin = out@.map_values(|r: CrossReference| r@);
    assert(fin + external_refs_from(l@, p as nat, n) =~= fin);
    assert(base + internal_refs_from(l@, 0, n) + external_refs_from(l@, 0, n) =~= mid
        + external_refs_from(l@, 0, n));
}

impl ForgepointDocument {
    /// The value of attribute `key`.
    pub fn attribute(&self, key: &str) -> (r: Option<&String>)
        ensures
            opt_ref_view(r) == lookup(self@.attributes, key@),
    {
        match find_key(&self.attributes, key) {
            Some(i) => {
                assert(self@.attributes[i as int].1 == self.attributes@[i as int].1@);
                Some(&self.attributes[i].1)
            },
            None => None,
        }
    }

    /// Whether the three required attributes are all present.
    pub fn has_forgepoint_structure(&self) -> (r: bool)
        ensures
            r == has_required_structure(self@.attributes),
    {
        find_key(&self.attributes, TYPE_ATTRIBUTE).is_some() && find_key(
            &self.attributes,
            ID_ATTRIBUTE,
        ).is_some() && find_key(&self.attributes, VERSION_ATTRIBUTE).is_some()
    }

    pub fn document_type(&self) -> (r: Option<&String>)
        ensures
            opt_ref_view(r) == lookup(self@.attributes, TYPE_ATTRIBUTE@),
    {
        self.attribute(TYPE_ATTRIBUTE)
    }

    pub fn document_id(&self) -> (r: Option<&String>)
        ensures
            opt_ref_view(r) == lookup(self@.attributes, ID_ATTRIBUTE@),
    {
        self.attribute(ID_ATTRIBUTE)
    }

    pub fn schema_version(&self) -> (r: Option<&String>)
        ensures
            opt_ref_view(r) == lookup(self@.attributes, VERSION_ATTRIBUTE@),
    {
        self.attribute(VERSION_ATTRIBUTE)
    }

    /// Checks that the document has an id made of lowercase letters, digits and single
    /// hyphens, neither first nor last.
    pub fn validate_id_format(&self) -> (r: Result<(), ForgepointError>)
        ensures
            match id_format_outcome(self@.attributes) {
                None => r is Ok,
                Some(m) => r matches Err(ForgepointError::InvalidIdFormat(e)) && e@ == m,
            },
    {
        match self.document_id() {
            None => Err(ForgepointError::InvalidIdFormat(String::from_str("Missing document ID"))),
            Some(id) => match check_id(id) {
                None => Ok(()),
                Some(m) => Err(ForgepointError::InvalidIdFormat(m)),
            },
        }
    }

    /// The text of the abstract block, when there is one.
    pub fn abstract_content(&self) -> (r: Option<String>)
        ensures
            opt_view(r) == abstract_of(self@.content),
    {
        let chars = chars_of(self.content.as_str());
        let lines = split_lines(&chars);
        let ghost ls = lines_of(self@.content);
        let marker = chars_of(ABSTRACT_MARKER);
        let mut active = false;
        let mut acc: Vec<Vec<char>> = Vec::new();
        let mut i: usize = 0;
        let mut done = false;
        assert(char_vecs(acc@) =~= Seq::<Seq<char>>::empty());
        while i < lines.len() && !done
            invariant
                i <= lines.len(),
                char_vecs(lines@) == ls,
                marker@ == ABSTRACT_MARKER@,
                abstract_scan(ls, 0, false, Seq::empty()) == if done {
                    char_vecs(acc@)
                } else {
                    abstract_scan(ls, i as nat, active, char_vecs(acc@))
                },
            decreases lines.len() - i,
        {
            let line = &lines[i];
            assert(line@ == ls[i as int]);
            assert(line@.subrange(0, line.len() as int) =~= line@);
            let (a, b) = trim_bounds(line, 0, line.len());
            let n = line.len();
            if range_eq(line, a, b, &marker) {
                active = true;
            } else if active {
                let blank = a == b;
                if (n > 0 && (line[0] == '=' || (line[0] == '[' && line[n - 1] == ']'))) || (blank
                    && acc.len() > 0) {
                    done = true;
                } else if !blank {
                    let ghost old_acc = acc@;
                    acc.push(crate::text::copy_range(line, 0, n));
                    assert(char_vecs(acc@) =~= char_vecs(old_acc).push(line@));
                }
            }
            i = i + 1;
        }
        if acc.len() == 0 {
            None
        } else {
            let joined = join_char_lines(&acc);
            let (a, b) = trim_bounds(&joined, 0, joined.len());
            assert(joined@.subrange(0, joined.len() as int) =~= joined@);
            Some(string_of(&joined, a, b))
        }
    }

    /// The cross-references of the text, in line order; per line the internal ones, then
    /// the external ones.
    pub fn extract_cross_references(&self) -> (r: Vec<CrossReference>)
        ensures
            r@.map_values(|x: CrossReference| x@) == references_of(lines_of(self@.content)),
    {
        let chars = chars_of(self.content.as_str());
        let lines = split_lines(&chars);
        let ghost ls = lines_of(self@.content);
        let x = chars_of(XREF_TOKEN);
        let mut refs: Vec<CrossReference> = Vec::new();
        let mut i: usize = 0;
        assert(refs@.map_values(|x: CrossReference| x@) =~= references_of(ls.take(0)));
        while i < lines.len()
            invariant
                i <= lines.len(),
                char_vecs(lines@) == ls,
                x@ == XREF_TOKEN@,
                refs@.map_values(|x: CrossReference| x@) == references_of(ls.take(i as int)),
            decreases lines.len() - i,
        {
            let line = &lines[i];
            assert(line@ == ls[i as int]);
            assert(ls.take(i + 1).drop_last() =~= ls.take(i as int));
            assert(ls.take(i + 1).last() == line@);
            line_references(line, i + 1, &x, &mut refs);
            i = i + 1;
        }
        assert(ls.take(i as int) =~= ls);
        refs
    }

    /// The checklist items, in line order.
    pub fn extract_checklist_items(&self) -> (r: Vec<ChecklistItem>)
        ensures
            r@.map_values(|x: ChecklistItem| x@) == checklist_of(lines_of(self@.content)),
    {
        let chars = chars_of(self.content.as_str());
        let lines = split_lines(&chars);
        let ghost ls = lines_of(self@.content);
        let mut items: Vec<ChecklistItem> = Vec::new();
        let mut i: usize = 0;
        while i < lines.len()
            invariant
                i <= lines.len(),
                char_vecs(lines@) == ls,
                items@.map_values(|x: ChecklistItem| x@) == checklist_of(ls.take(i as int)),
            decreases lines.len() - i,
        {
            let line = &lines[i];
            assert(line@ == ls[i as int]);
            assert(ls.take(i + 1).drop_last() =~= ls.take(i as int));
            assert(ls.take(i + 1).last() == line@);
            let ghost old_items = items@;
            match checklist_mark_exec(line) {
                Some(m) => {
                    let (a, b) = trim_bounds(line, m + 3, line.len());
                    let item = ChecklistItem {
                        text: string_of(line, a, b),
                        checked: line[m] == 'x',
                        line_number: i + 1,
                    };
                    items.push(item);
                    assert(items@.map_values(|x: ChecklistItem| x@) =~= old_items.map_values(
                        |x: ChecklistItem| x@,
                    ).push(item@));
                },
                None => {},
            }
            i = i + 1;
        }
        assert(ls.take(i as int) =~= ls);
        items
    }

    /// The sections titled `title`, in order.
    pub fn sections_with_title(&self, title: &str) -> (r: Vec<&Section>)
        ensures
            r@.map_values(|s: &Section| s@) == self@.sections.filter(
                |s: SectionView| s.title == title@,
            ),
    {
        let t = String::from_str(title);
        let mut r: Vec<&Section> = Vec::new();
        let mut i: usize = 0;
        while i < self.sections.len()
            invariant
                i <= self.sections.len(),
                t@ == title@,
                r@.map_values(|s: &Section| s@) == self@.sections.take(i as int).filter(
                    |s: SectionView| s.title == title@,
                ),
            decreases self.sections.len() - i,
        {
            let ghost old_r = r@;
            proof {
                reveal(Seq::filter);
                assert(self@.sections.take(i + 1).drop_last() =~= self@.sections.take(i as int));
            }
            if self.sections[i].title == t {
                r.push(&self.sections[i]);
                assert(r@.map_values(|s: &Section| s@) =~= old_r.map_values(|s: &Section| s@).push(
                    self.sections@[i as int]@,
                ));
            }
            i = i + 1;
        }
        assert(self@.sections.take(i as int) =~= self@.sections);
        r
    }

    /// The level-2 sections, in order.
    pub fn level_2_sections(&self) -> (r: Vec<&Section>)
        ensures
            r@.map_values(|s: &Section| s@) == self@.sections.filter(
                |s: SectionView| s.level == 2,
            ),
    {
        let mut r: Vec<&Section> = Vec::new();
        let mut i: usize = 0;
        while i < self.sections.len()
            invariant
                i <= self.sections.len(),
                r@.map_values(|s: &Section| s@) == self@.sections.take(i as int).filter(
                    |s: SectionView| s.level == 2,
                ),
            decreases self.sections.len() - i,
        {
            let ghost old_r = r@;
            proof {
                reveal(Seq::filter);
                assert(self@.sections.take(i + 1).drop_last() =~= self@.sections.take(i as int));
            }
            if self.sections[i].level == 2 {
                r.push(&self.sections[i]);
                assert(r@.map_values(|s: &Section| s@) =~= old_r.map_values(|s: &Section| s@).push(
                    self.sections@[i as int]@,
                ));
            }
            i = i + 1;
        }
        assert(self@.sections.take(i as int) =~= self@.sections);
        r
    }
}


proof fn lemma_abstract_scan_skips(ls: Seq<Seq<char>>, i: nat, m: nat)
    requires
        i <= m < ls.len(),
        forall|k: int| i <= k < m ==> trim(#[trigger] ls[k]) != ABSTRACT_MARKER@,
    ensures
        abstract_scan(ls, i, false, Seq::empty()) == abstract_scan(ls, m, false, Seq::empty()),
    decreases m - i,
{
    if i < m {
        lemma_abstract_scan_skips(ls, i + 1, m);
    }
}

/// Abstract extraction: when the first marker line is followed by two lines of text and
/// then a blank line, the abstract is those two lines joined by a newline, trimmed.
pub proof fn lemma_abstract_two_lines(content: Seq<char>, m: int)
    requires
        0 <= m,
        m + 3 < lines_of(content).len(),
        trim(lines_of(content)[m]) == ABSTRACT_MARKER@,
        forall|k: int| 0 <= k < m ==> trim(#[trigger] lines_of(content)[k]) != ABSTRACT_MARKER@,
        forall|k: int|
            m + 1 <= k <= m + 2 ==> !is_blank(#[trigger] lines_of(content)[k]) && !ends_block(
                lines_of(content)[k],
            ) && trim(lines_of(content)[k]) != ABSTRACT_MARKER@,
        is_blank(lines_of(content)[m + 3]),
    ensures
        abstract_of(content) == Some(
            trim(lines_of(content)[m + 1] + seq!['\n'] + lines_of(content)[m + 2]),
        ),
{
    let ls = lines_of(content);
    lemma_abstract_scan_skips(ls, 0, m as nat);
    let l1 = ls[m + 1];
    let l2 = ls[m + 2];
    assert(!is_blank(l1) && !ends_block(l1) && trim(l1) != ABSTRACT_MARKER@);
    assert(!is_blank(l2) && !ends_block(l2) && trim(l2) != ABSTRACT_MARKER@);
    let e = Seq::<Seq<char>>::empty();
    assert(abstract_scan(ls, m as nat, false, e) == abstract_scan(ls, (m + 1) as nat, true, e));
    assert(abstract_scan(ls, (m + 1) as nat, true, e) == abstract_scan(
        ls,
        (m + 2) as nat,
        true,
        e.push(l1),
    ));
    assert(abstract_scan(ls, (m + 2) as nat, true, e.push(l1)) == abstract_scan(
        ls,
        (m + 3) as nat,
        true,
        e.push(l1).push(l2),
    ));
    assert(trim(ls[m + 3]) != ABSTRACT_MARKER@) by {
        reveal_strlit("[abstract]");
    }
    assert(abstract_scan(ls, (m + 3) as nat, true, e.push(l1).push(l2)) == e.push(l1).push(l2));
    let two = e.push(l1).push(l2);
    assert(two.drop_last() =~= seq![l1]);
    assert(join_lines(seq![l1]) == l1);
    assert(join_lines(two) == l1 + seq!['\n'] + l2);
}

} // verus!
