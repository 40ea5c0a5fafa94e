//! A single forward pass over the lines of a document, in header mode until the first
//! heading.
use vstd::prelude::*;
use crate::document::{
    key_pos, keys_unique, lemma_key_pos_bounds, find_key, ForgepointDocument, DocumentView,
    Section, SectionView, section_views,
};
use crate::error::ForgepointError;
use crate::text::{
    char_vecs, chars_of, contains_in, copy_range, is_blank, is_blank_range, is_ws, is_ws_char, lines_of,
    split_lines, string_of, trim, trim_bounds,
};

verus! {

/// The position of the first character at or after `i` that is not `=`.
pub open spec fn skip_eq(l: Seq<char>, i: nat) -> nat
    decreases l.len() - i,
{
    if i < l.len() && l[i as int] == '=' {
        skip_eq(l, i + 1)
    } else {
        i
    }
}

/// The position of the first `:` at or after `i`, or the length when there is none.
pub open spec fn colon_from(l: Seq<char>, i: nat) -> nat
    decreases l.len() - i,
{
    if i < l.len() && l[i as int] != ':' {
        colon_from(l, i + 1)
    } else {
        i
    }
}

/// `= Title`: one `=`, whitespace, then at least one more character.
pub open spec fn is_title_line(l: Seq<char>) -> bool {
    l.len() >= 3 && l[0] == '=' && is_ws(l[1])
}

pub open spec fn title_text(l: Seq<char>) -> Seq<char> {
    trim(l.subrange(1, l.len() as int))
}

/// `:key: value`, with a key of at least one character and no colon.
pub open spec fn is_attribute_line(l: Seq<char>) -> bool {
    let j = colon_from(l, 1);
    l.len() > 0 && l[0] == ':' && 2 <= j < l.len()
}

pub open spec fn attribute_key(l: Seq<char>) -> Seq<char> {
    trim(l.subrange(1, colon_from(l, 1) as int))
}

pub open spec fn attribute_value(l: Seq<char>) -> Seq<char> {
    trim(l.subrange(colon_from(l, 1) as int + 1, l.len() as int))
}

/// `== Heading`: one or more `=`, whitespace, then at least one more character.
pub open spec fn is_heading_line(l: Seq<char>) -> bool {
    let n = skip_eq(l, 0);
    n >= 1 && l.len() >= n + 2 && is_ws(l[n as int])
}

pub open spec fn heading_level(l: Seq<char>) -> nat {
    skip_eq(l, 0)
}

pub open spec fn heading_title(l: Seq<char>) -> Seq<char> {
    trim(l.subrange(skip_eq(l, 0) as int, l.len() as int))
}

/// Sets attribute `k` to `v`: in place where the key is present, else at the end.
pub open spec fn attr_insert(a: Seq<(Seq<char>, Seq<char>)>, k: Seq<char>, v: Seq<char>) -> Seq<
    (Seq<char>, Seq<char>),
> {
    match key_pos(a, k) {
        Some(i) => a.update(i as int, (k, v)),
        None => a.push((k, v)),
    }
}

/// Body text with one more line: joined by a newline.
pub open spec fn append_line(c: Seq<char>, l: Seq<char>) -> Seq<char> {
    if c.len() == 0 {
        l
    } else {
        c + seq!['\n'] + l
    }
}

/// What the forward pass carries from line to line.
pub struct ParseState {
    pub title: Option<Seq<char>>,
    pub attributes: Seq<(Seq<char>, Seq<char>)>,
    pub sections: Seq<SectionView>,
    pub current: Option<SectionView>,
    pub in_header: bool,
}

pub open spec fn initial_state() -> ParseState {
    ParseState {
        title: None,
        attributes: Seq::empty(),
        sections: Seq::empty(),
        current: None,
        in_header: true,
    }
}

pub open spec fn content_title() -> Seq<char> {
    "Content"@
}

/// The effect of line `l`, numbered `n` from 1. Blank lines are skipped; in the header a
/// title (only the first) and attributes are taken; a heading leaves the header and opens
/// a section; after the header any other line is body text of the open section, or opens
/// a level-0 "Content" section when none is open.
pub open spec fn step(st: ParseState, l: Seq<char>, n: usize) -> ParseState {
    if is_blank(l) {
        st
    } else if st.title is None && st.in_header && is_title_line(l) {
        ParseState { title: Some(title_text(l)), ..st }
    } else if st.in_header && is_attribute_line(l) {
        ParseState {
            attributes: attr_insert(st.attributes, attribute_key(l), attribute_value(l)),
            ..st
        }
    } else if is_heading_line(l) {
        ParseState {
            sections: match st.current {
                Some(c) => st.sections.push(c),
                None => st.sections,
            },
            current: Some(
                SectionView {
                    level: heading_level(l),
                    title: heading_title(l),
                    content: Seq::empty(),
                    line_number: Some(n),
                },
            ),
            in_header: false,
            ..st
        }
    } else if !st.in_header {
        match st.current {
            Some(c) => ParseState {
                current: Some(SectionView { content: append_line(c.content, l), ..c }),
                ..st
            },
            None => ParseState {
                current: Some(
                    SectionView {
                        level: 0,
                        title: content_title(),
                        content: l,
                        line_number: Some(n),
                    },
                ),
                ..st
            },
        }
    } else {
        st
    }
}

/// The pass from line `i` on.
pub open spec fn parse_from(ls: Seq<Seq<char>>, i: nat, st: ParseState) -> ParseState
    decreases ls.len() - i,
{
    if i >= ls.len() {
        st
    } else {
        parse_from(ls, i + 1, step(st, ls[i as int], (i + 1) as usize))
    }
}

/// The sections once the last open one is closed.
pub open spec fn closed_sections(st: ParseState) -> Seq<SectionView> {
    match st.current {
        Some(c) => st.sections.push(c),
        None => st.sections,
    }
}

/// The document model of `content`, read from `path`.
pub open spec fn parsed(content: Seq<char>, path: Seq<char>) -> DocumentView {
    let st = parse_from(lines_of(content), 0, initial_state());
    DocumentView {
        file_path: path,
        title: st.title,
        attributes: st.attributes,
        content: content,
        sections: closed_sections(st),
    }
}

/// The pass's state as the parser holds it.
pub open spec fn state_of(
    title: Option<String>,
    attributes: Vec<(String, String)>,
    sections: Vec<Section>,
    current: Option<Section>,
    in_header: bool,
) -> ParseState {
    ParseState {
        title: crate::document::opt_view(title),
        attributes: attributes.deep_view(),
        sections: section_views(sections@),
        current: match current {
            Some(c) => Some(c@),
            None => None,
        },
        in_header: in_header,
    }
}

fn skip_eq_exec(l: &Vec<char>) -> (r: usize)
    ensures
        r == skip_eq(l@, 0),
        r <= l.len(),
{
    let mut i: usize = 0;
    while i < l.len() && l[i] == '='
        invariant
            i <= l.len(),
            skip_eq(l@, 0) == skip_eq(l@, i as nat),
        decreases l.len() - i,
    {
        i = i + 1;
    }
    i
}

fn colon_from_exec(l: &Vec<char>, from: usize) -> (r: usize)
    requires
        from <= l.len(),
    ensures
        r == colon_from(l@, from as nat),
        from <= r <= l.len(),
{
    let mut i: usize = from;
    while i < l.len() && l[i] != ':'
        invariant
            from <= i <= l.len(),
            colon_from(l@, from as nat) == colon_from(l@, i as nat),
        decreases l.len() - i,
    {
        i = i + 1;
    }
    i
}

/// The trimmed text of `l[from..]`.
fn trimmed_tail(l: &Vec<char>, from: usize) -> (r: String)
    requires
        from <= l.len(),
    ensures
        r@ == trim(l@.subrange(from as int, l.len() as int)),
{
    let (a, b) = trim_bounds(l, from, l.len());
    string_of(l, a, b)
}

/// Turns text into documents: title, attributes and sections.
pub struct DocumentParser {}

impl DocumentParser {
    pub fn new() -> Self {
        DocumentParser {  }
    }

    /// Parses `content`, read from `file_path`; this never fails.
    pub fn parse_content(&self, content: &str, file_path: String) -> (r: Result<
        ForgepointDocument,
        ForgepointError,
    >)
        ensures
            r matches Ok(d) && d@ == parsed(content@, file_path@),
            r matches Ok(d) && keys_unique(d@.attributes),
    {
        let chars = chars_of(content);
        let lines = split_lines(&chars);
        let ghost ls = lines_of(content@);
        let mut title: Option<String> = None;
        let mut attributes: Vec<(String, String)> = Vec::new();
        let mut sections: Vec<Section> = Vec::new();
        let mut current: Option<Section> = None;
        let mut in_header = true;
        let mut i: usize = 0;
        assert(attributes.deep_view() =~= Seq::<(Seq<char>, Seq<char>)>::empty());
        assert(section_views(sections@) =~= Seq::<SectionView>::empty());
        while i < lines.len()
            invariant
                i <= lines.len(),
                char_vecs(lines@) == ls,
                keys_unique(attributes.deep_view()),
                parse_from(ls, 0, initial_state()) == parse_from(
                    ls,
                    i as nat,
                    state_of(title, attributes, sections, current, in_header),
                ),
            decreases lines.len() - i,
        {
            let line = &lines[i];
            let ghost l = line@;
            assert(l == ls[i as int]);
            let line_number = i + 1;
            let ghost st = state_of(title, attributes, sections, current, in_header);
            let ghost next = step(st, l, line_number);
            assert(line@.subrange(0, line.len() as int) =~= line@);
            if !is_blank_range(line, 0, line.len()) {
                let n = line.len();
                if title.is_none() && in_header && n >= 3 && line[0] == '=' && is_ws_char(line[1]) {
                    title = Some(trimmed_tail(line, 1));
                } else {
                    let mut is_attr = false;
                    if in_header && n > 0 && line[0] == ':' {
                        let j = colon_from_exec(line, 1);
                        if 2 <= j && j < n {
                            let key = trimmed_tail_range(line, 1, j);
                            let value = trimmed_tail(line, j + 1);
                            insert_attribute(&mut attributes, key, value);
                            is_attr = true;
                        }
                    }
                    if !is_attr {
                        assert(!(st.in_header && is_attribute_line(l)));
                        let m = skip_eq_exec(line);
                        if m >= 1 && n >= 2 && m <= n - 2 && is_ws_char(line[m]) {
                            in_header = false;
                            let ghost old_sections = sections@;
                            match current.take() {
                                Some(c) => {
                                    sections.push(c);
                                    assert(section_views(sections@) =~= section_views(
                                        old_sections,
                                    ).push(c@));
                                },
                                None => {},
                            }
                            current = Some(
                                Section {
                                    level: m,
                                    title: trimmed_tail(line, m),
                                    content: String::new(),
                                    line_number: Some(line_number),
                                },
                            );
                        } else if !in_header {
                            let text = string_of(line, 0, n);
                            match current.take() {
                                Some(mut c) => {
                                    let ghost before = c.content@;
                                    proof {
                                        reveal_strlit("\n");
                                    }
                                    if !c.content.as_str().is_empty() {
                                        c.content.append("\n");
                                    }
                                    c.content.append(text.as_str());
                                    assert(c.content@ =~= append_line(before, l));
                                    current = Some(c);
                                },
                                None => {
                                    current = Some(
                                        Section {
                                            level: 0,
                                            title: String::from_str("Content"),
                                            content: text,
                                            line_number: Some(line_number),
                                        },
                                    );
                                },
                            }
                        }
                    }
                }
            }
            assert(state_of(title, attributes, sections, current, in_header) == next);
            i = i + 1;
        }
        let ghost pre_sections = sections@;
        let ghost st_end = state_of(title, attributes, sections, current, in_header);
        match current {
            Some(c) => {
                sections.push(c);
                assert(section_views(sections@) =~= section_views(pre_sections).push(c@));
            },
            None => {},
        }
        assert(closed_sections(st_end) == section_views(sections@));
        Ok(
            ForgepointDocument {
                file_path: file_path,
                title: title,
                attributes: attributes,
                content: String::from_str(content),
                sections: sections,
            },
        )
    }
}

/// The trimmed text of `l[from..to]`.
fn trimmed_tail_range(l: &Vec<char>, from: usize, to: usize) -> (r: String)
    requires
        from <= to <= l.len(),
    ensures
        r@ == trim(l@.subrange(from as int, to as int)),
{
    let (a, b) = trim_bounds(l, from, to);
    string_of(l, a, b)
}

/// Sets attribute `key` to `value`, in place where the key is present.
pub fn insert_attribute(attrs: &mut Vec<(String, String)>, key: String, value: String)
    ensures
        final(attrs).deep_view() == attr_insert(old(attrs).deep_view(), key@, value@),
        keys_unique(old(attrs).deep_view()) ==> keys_unique(final(attrs).deep_view()),
{
    let ghost a = old(attrs).deep_view();
    match find_key(attrs, key.as_str()) {
        Some(i) => {
            proof {
                lemma_key_pos_bounds(a, key@);
            }
            attrs.set(i, (key, value));
            assert(attrs.deep_view() =~= a.update(i as int, (key@, value@)));
            proof {
                let b = attrs.deep_view();
                if keys_unique(a) {
                    assert forall|x: int, y: int| 0 <= x < y < b.len() implies #[trigger] b[x].0
                        != #[trigger] b[y].0 by {
                        assert(b[x].0 == a[x].0 && b[y].0 == a[y].0);
                        assert(a[x].0 != a[y].0);
                    }
                }
            }
        },
        None => {
            attrs.push((key, value));
            assert(attrs.deep_view() =~= a.push((key@, value@)));
            proof {
                crate::document::lemma_key_pos_none(a, key@, 0);
            }
        },
    }
}


/// Whether a line is a level-2 heading (`== Title`).
pub open spec fn is_level_2_heading(l: Seq<char>) -> bool {
    is_heading_line(l) && heading_level(l) == 2
}

/// The titles of the level-2 heading lines, in order.
pub open spec fn level_2_heading_titles(ls: Seq<Seq<char>>) -> Seq<Seq<char>>
    decreases ls.len(),
{
    if ls.len() == 0 {
        Seq::empty()
    } else {
        let rest = level_2_heading_titles(ls.drop_first());
        if is_level_2_heading(ls[0]) {
            seq![heading_title(ls[0])] + rest
        } else {
            rest
        }
    }
}

/// The titles of the level-2 sections, in order.
pub open spec fn level_2_titles(s: Seq<SectionView>) -> Seq<Seq<char>> {
    s.filter(|x: SectionView| x.level == 2).map_values(|x: SectionView| x.title)
}

proof fn lemma_level_2_titles_push(s: Seq<SectionView>, x: SectionView)
    ensures
        level_2_titles(s.push(x)) == if x.level == 2 {
            level_2_titles(s).push(x.title)
        } else {
            level_2_titles(s)
        },
{
    reveal(Seq::filter);
    assert(s.push(x).drop_last() =~= s);
    let f = s.filter(|x: SectionView| x.level == 2);
    if x.level == 2 {
        assert(f.push(x).map_values(|x: SectionView| x.title) =~= f.map_values(
            |x: SectionView| x.title,
        ).push(x.title));
    }
}

proof fn lemma_not_blank_first(s: Seq<char>)
    requires
        s.len() > 0,
        !is_ws(s[0]),
    ensures
        !is_blank(s),
    decreases s.len(),
{
    lemma_trim_end_keeps_first(s);
}

proof fn lemma_trim_end_keeps_first(s: Seq<char>)
    requires
        s.len() > 0,
        !is_ws(s[0]),
    ensures
        crate::text::trim_end(s).len() > 0,
    decreases s.len(),
{
    if s.len() > 1 && is_ws(s.last()) {
        lemma_trim_end_keeps_first(s.drop_last());
    }
}

proof fn lemma_step_level_2(st: ParseState, l: Seq<char>, n: usize)
    ensures
        level_2_titles(closed_sections(step(st, l, n))) == if is_level_2_heading(l) {
            level_2_titles(closed_sections(st)).push(heading_title(l))
        } else {
            level_2_titles(closed_sections(st))
        },
{
    if l.len() > 0 && l[0] == '=' {
        assert(!is_ws(l[0]));
        lemma_not_blank_first(l);
    }
    if l.len() >= 2 && l[0] == '=' && l[1] != '=' {
        assert(skip_eq(l, 0) == skip_eq(l, 1));
        assert(skip_eq(l, 1) == 1);
    }
    if l.len() > 0 && l[0] != '=' {
        assert(skip_eq(l, 0) == 0);
    }
    let next = step(st, l, n);
    if is_blank(l) {
    } else if st.title is None && st.in_header && is_title_line(l) {
    } else if st.in_header && is_attribute_line(l) {
    } else if is_heading_line(l) {
        let sec = next.current->Some_0;
        match st.current {
            Some(c) => {
                lemma_level_2_titles_push(st.sections, c);
                lemma_level_2_titles_push(st.sections.push(c), sec);
            },
            None => {
                lemma_level_2_titles_push(st.sections, sec);
            },
        }
    } else if !st.in_header {
        match st.current {
            Some(c) => {
                lemma_level_2_titles_push(st.sections, c);
                lemma_level_2_titles_push(st.sections, next.current->Some_0);
            },
            None => {
                lemma_level_2_titles_push(st.sections, next.current->Some_0);
            },
        }
    }
}

proof fn lemma_parse_from_level_2(ls: Seq<Seq<char>>, i: nat, st: ParseState)
    requires
        i <= ls.len(),
    ensures
        level_2_titles(closed_sections(parse_from(ls, i, st))) == level_2_titles(
            closed_sections(st),
        ) + level_2_heading_titles(ls.subrange(i as int, ls.len() as int)),
    decreases ls.len() - i,
{
    let rest = ls.subrange(i as int, ls.len() as int);
    if i == ls.len() {
        assert(rest.len() == 0);
        assert(level_2_titles(closed_sections(st)) + Seq::<Seq<char>>::empty() =~= level_2_titles(
            closed_sections(st),
        ));
    } else {
        let next = step(st, ls[i as int], (i + 1) as usize);
        lemma_parse_from_level_2(ls, i + 1, next);
        lemma_step_level_2(st, ls[i as int], (i + 1) as usize);
        assert(rest.drop_first() =~= ls.subrange(i as int + 1, ls.len() as int));
        assert(rest[0] == ls[i as int]);
        let a = level_2_titles(closed_sections(st));
        let b = level_2_heading_titles(ls.subrange(i as int + 1, ls.len() as int));
        if is_level_2_heading(ls[i as int]) {
            assert(a.push(heading_title(ls[i as int])) + b =~= a + (seq![heading_title(ls[i as int])]
                + b));
        }
    }
}

/// Parsing keeps the level-2 headings: the titles of the level-2 sections of a parsed
/// document are those of its level-2 heading lines, in the same order, whatever text
/// stands between them.
pub proof fn lemma_level_2_sections_follow_headings(content: Seq<char>, path: Seq<char>)
    ensures
        level_2_titles(parsed(content, path).sections) == level_2_heading_titles(
            lines_of(content),
        ),
{
    let ls = lines_of(content);
    lemma_parse_from_level_2(ls, 0, initial_state());
    assert(ls.subrange(0, ls.len() as int) =~= ls);
    let e = closed_sections(initial_state());
    assert(e =~= Seq::<SectionView>::empty());
    reveal(Seq::filter);
    assert(level_2_titles(e) =~= Seq::<Seq<char>>::empty());
    assert(Seq::<Seq<char>>::empty() + level_2_heading_titles(ls) =~= level_2_heading_titles(ls));
}

/// Parsing is a function of the text: parsing equal text twice gives equal documents
/// (title, attributes and sections).
pub proof fn lemma_parse_repeatable(a: Seq<char>, b: Seq<char>, path: Seq<char>)
    requires
        a == b,
    ensures
        parsed(a, path) == parsed(b, path),
{
}


/// The position of the last `c` in `s`, or -1.
pub open spec fn last_index_of(s: Seq<char>, c: char) -> int
    decreases s.len(),
{
    if s.len() == 0 {
        -1
    } else if s.last() == c {
        s.len() - 1
    } else {
        last_index_of(s.drop_last(), c)
    }
}

/// `s` without the `/` characters that end it.
pub open spec fn strip_trailing_slashes(s: Seq<char>) -> Seq<char>
    decreases s.len(),
{
    if s.len() > 0 && s.last() == '/' {
        strip_trailing_slashes(s.drop_last())
    } else {
        s
    }
}

/// The last segment of a `/`-separated path.
pub open spec fn file_name_of(path: Seq<char>) -> Seq<char> {
    let p = strip_trailing_slashes(path);
    p.subrange(last_index_of(p, '/') + 1, p.len() as int)
}

/// The text after the last `.` of the file name, when that dot is not its first character.
pub open spec fn extension_of(path: Seq<char>) -> Option<Seq<char>> {
    let name = file_name_of(path);
    let d = last_index_of(name, '.');
    if d > 0 {
        Some(name.subrange(d + 1, name.len() as int))
    } else {
        None
    }
}

pub open spec fn ascii_lower(c: char) -> char {
    if 'A' <= c && c <= 'Z' {
        ((c as u32) + 32) as char
    } else {
        c
    }
}

/// Equal to `word` (lowercase) but for the case of letters.
pub open spec fn equal_ignoring_case(s: Seq<char>, word: Seq<char>) -> bool {
    s.len() == word.len() && forall|i: int| 0 <= i < s.len() ==> ascii_lower(#[trigger] s[i]) == word[i]
}

/// Whether a path names a markup file: its extension is `adoc`, `asciidoc` or `asc`, in any
/// case.
pub open spec fn is_markup_path(path: Seq<char>) -> bool {
    match extension_of(path) {
        Some(e) => equal_ignoring_case(e, "adoc"@) || equal_ignoring_case(e, "asciidoc"@)
            || equal_ignoring_case(e, "asc"@),
        None => false,
    }
}

/// What a trimmed line adds to the markup score.
pub open spec fn line_score(t: Seq<char>) -> nat {
    if t.len() > 0 && t[0] == '=' {
        2
    } else if t.len() > 0 && t[0] == ':' && t.last() == ':' {
        1
    } else if t.len() >= 2 && t[0] == '/' && t[1] == '/' {
        1
    } else if crate::text::contains(t, "xref:"@) || crate::text::contains(t, "<<"@) {
        1
    } else {
        0
    }
}

/// The markup score of some lines: headings count 2; attributes, comments and references 1.
pub open spec fn markup_score(ls: Seq<Seq<char>>) -> nat
    decreases ls.len(),
{
    if ls.len() == 0 {
        0
    } else {
        markup_score(ls.drop_last()) + line_score(trim(ls.last()))
    }
}

/// How many lines at the start of a text the markup heuristic reads.
pub const SNIFF_LINES: usize = 20;

/// Whether text looks like markup: the score of its first lines is at least 2.
pub open spec fn looks_like_markup(content: Seq<char>) -> bool {
    let ls = lines_of(content);
    let n = if ls.len() < SNIFF_LINES {
        ls.len() as int
    } else {
        SNIFF_LINES as int
    };
    markup_score(ls.take(n)) >= 2
}

fn last_index_exec(v: &Vec<char>, to: usize, c: char) -> (r: Option<usize>)
    requires
        to <= v.len(),
    ensures
        match r {
            Some(i) => i < to && last_index_of(v@.take(to as int), c) == i as int,
            None => last_index_of(v@.take(to as int), c) == -1,
        },
{
    let mut k: usize = to;
    while k > 0
        invariant
            k <= to <= v.len(),
            last_index_of(v@.take(to as int), c) == last_index_of(v@.take(k as int), c),
        decreases k,
    {
        assert(v@.take(k as int).drop_last() =~= v@.take(k - 1));
        if v[k - 1] == c {
            return Some(k - 1);
        }
        k = k - 1;
    }
    None
}

fn ext_matches(v: &Vec<char>, from: usize, word: &str) -> (r: bool)
    requires
        from <= v.len(),
    ensures
        r == equal_ignoring_case(v@.subrange(from as int, v.len() as int), word@),
        from == 0 ==> r == equal_ignoring_case(v@, word@),
{
    assert(v@.subrange(0, v.len() as int) =~= v@);
    let w = chars_of(word);
    let ghost s = v@.subrange(from as int, v.len() as int);
    if v.len() - from != w.len() {
        return false;
    }
    let mut i: usize = 0;
    while i < w.len()
        invariant
            i <= w.len() == v.len() - from,
            from <= v.len(),
            w@ == word@,
            s == v@.subrange(from as int, v.len() as int),
            forall|j: int| 0 <= j < i ==> ascii_lower(#[trigger] s[j]) == w@[j],
        decreases w.len() - i,
    {
        let c = v[from + i];
        let lower = if 'A' <= c && c <= 'Z' {
            ((c as u32) + 32) as u8 as char
        } else {
            c
        };
        assert(s[i as int] == c);
        if lower != w[i] {
            return false;
        }
        i = i + 1;
    }
    true
}

fn line_score_exec(line: &Vec<char>, xref: &Vec<char>, angle: &Vec<char>) -> (r: usize)
    requires
        xref@ == "xref:"@,
        angle@ == "<<"@,
    ensures
        r == line_score(trim(line@)),
        r <= 2,
{
    let (a, b) = trim_bounds(line, 0, line.len());
    assert(line@.subrange(0, line.len() as int) =~= line@);
    if b > a && line[a] == '=' {
        2
    } else if b > a && line[a] == ':' && line[b - 1] == ':' {
        1
    } else if b - a >= 2 && line[a] == '/' && line[a + 1] == '/' {
        1
    } else if contains_in(line, a, b, xref) || contains_in(line, a, b, angle) {
        1
    } else {
        0
    }
}

impl DocumentParser {
    /// The extension of path `v`, as `extension_of` describes it.
    pub fn extension(v: &Vec<char>) -> (r: Option<Vec<char>>)
        ensures
            match r {
                Some(e) => extension_of(v@) == Some(e@),
                None => extension_of(v@) is None,
            },
    {
        let mut end: usize = v.len();
        assert(v@.take(end as int) =~= v@);
        while end > 0 && v[end - 1] == '/'
            invariant
                end <= v.len(),
                strip_trailing_slashes(v@) == strip_trailing_slashes(v@.take(end as int)),
            decreases end,
        {
            assert(v@.take(end as int).drop_last() =~= v@.take(end - 1));
            end = end - 1;
        }
        let ghost p = v@.take(end as int);
        assert(strip_trailing_slashes(p) == p);
        let start: usize = match last_index_exec(v, end, '/') {
            Some(i) => i + 1,
            None => 0,
        };
        let name = crate::text::copy_range(v, start, end);
        assert(name@ =~= file_name_of(v@));
        assert(name@.take(name.len() as int) =~= name@);
        match last_index_exec(&name, name.len(), '.') {
            Some(d) => {
                if d > 0 {
                    Some(crate::text::copy_range(&name, d + 1, name.len()))
                } else {
                    None
                }
            },
            None => None,
        }
    }

    /// Whether `path` names a markup file, by its extension.
    pub fn is_asciidoc_file(path: &str) -> (r: bool)
        ensures
            r == is_markup_path(path@),
    {
        let v = chars_of(path);
        match Self::extension(&v) {
            Some(ext) => {
                ext_matches(&ext, 0, "adoc") || ext_matches(&ext, 0, "asciidoc") || ext_matches(
                    &ext,
                    0,
                    "asc",
                )
            },
            None => false,
        }
    }

    /// Whether `content` looks like markup, by a score over its first lines.
    pub fn is_asciidoc_content(content: &str) -> (r: bool)
        ensures
            r == looks_like_markup(content@),
    {
        let chars = chars_of(content);
        let lines = split_lines(&chars);
        let ghost ls = lines_of(content@);
        let n: usize = if lines.len() < SNIFF_LINES {
            lines.len()
        } else {
            SNIFF_LINES
        };
        let xref = chars_of("xref:");
        let angle = chars_of("<<");
        let mut score: usize = 0;
        let mut i: usize = 0;
        while i < n
            invariant
                i <= n <= lines.len(),
                n <= SNIFF_LINES,
                char_vecs(lines@) == ls,
                xref@ == "xref:"@,
                angle@ == "<<"@,
                score as nat == markup_score(ls.take(i as int)),
                score <= 2 * i,
            decreases n - i,
        {
            let line = &lines[i];
            assert(line@ == ls[i as int]);
            assert(ls.take(i + 1).drop_last() =~= ls.take(i as int));
            score = score + line_score_exec(line, &xref, &angle);
            i = i + 1;
        }
        score >= 2
    }
}

impl Default for DocumentParser {
    fn default() -> (r: Self) {
        DocumentParser::new()
    }
}

proof fn lemma_no_level_2_between(ls: Seq<Seq<char>>, i: int, j: int)
    requires
        0 <= i <= j <= ls.len(),
        forall|k: int| i <= k < j ==> !is_level_2_heading(#[trigger] ls[k]),
    ensures
        level_2_heading_titles(ls.subrange(i, ls.len() as int)) == level_2_heading_titles(
            ls.subrange(j, ls.len() as int),
        ),
    decreases j - i,
{
    if i < j {
        let s = ls.subrange(i, ls.len() as int);
        assert(s.drop_first() =~= ls.subrange(i + 1, ls.len() as int));
        assert(s[0] == ls[i]);
        lemma_no_level_2_between(ls, i + 1, j);
    }
}

/// Two level-2 headings come back in order: when the only level-2 heading lines of a text
/// are at `p` and then `q`, its level-2 sections are titled by those two headings, in that
/// order, whatever stands before, between and after them.
pub proof fn lemma_two_level_2_headings(content: Seq<char>, path: Seq<char>, p: int, q: int)
    requires
        0 <= p < q < lines_of(content).len(),
        is_level_2_heading(lines_of(content)[p]),
        is_level_2_heading(lines_of(content)[q]),
        forall|k: int|
            0 <= k < lines_of(content).len() && k != p && k != q ==> !is_level_2_heading(
                #[trigger] lines_of(content)[k],
            ),
    ensures
        level_2_titles(parsed(content, path).sections) == seq![
            heading_title(lines_of(content)[p]),
            heading_title(lines_of(content)[q]),
        ],
{
    let ls = lines_of(content);
    let n = ls.len() as int;
    lemma_level_2_sections_follow_headings(content, path);
    assert(ls.subrange(0, n) =~= ls);
    lemma_no_level_2_between(ls, 0, p);
    let sp = ls.subrange(p, n);
    assert(sp.drop_first() =~= ls.subrange(p + 1, n));
    assert(sp[0] == ls[p]);
    lemma_no_level_2_between(ls, p + 1, q);
    let sq = ls.subrange(q, n);
    assert(sq.drop_first() =~= ls.subrange(q + 1, n));
    assert(sq[0] == ls[q]);
    lemma_no_level_2_between(ls, q + 1, n);
    assert(ls.subrange(n, n).len() == 0);
    let a = heading_title(ls[p]);
    let b = heading_title(ls[q]);
    assert(level_2_heading_titles(sq) == seq![b] + Seq::<Seq<char>>::empty());
    assert(seq![b] + Seq::<Seq<char>>::empty() =~= seq![b]);
    assert(seq![a] + seq![b] =~= seq![a, b]);
}

} // verus!
