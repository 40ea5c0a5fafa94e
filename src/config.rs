//! Run configuration: its defaults, how command-line options override it, and which file
//! and format it is read from.
use vstd::prelude::*;
use crate::parser::extension_of;
use crate::text::{chars_of, contains, contains_in, trim_start};

verus! {

/// Which checks run.
#[derive(Debug, Clone)]
pub struct ValidationRules {
    pub require_id: bool,
    pub enforce_structure: bool,
    pub validate_references: bool,
    pub check_id_uniqueness: bool,
    pub max_title_length: Option<usize>,
    pub required_attributes: Vec<String>,
}

/// How results are shown.
#[derive(Debug, Clone)]
pub struct OutputConfig {
    pub format: String,
    pub verbose: bool,
    pub show_suggestions: bool,
    pub color: bool,
}

/// The configuration of a run.
#[derive(Debug, Clone)]
pub struct ForgepointConfig {
    pub schema_path: String,
    pub exclude_patterns: Vec<String>,
    pub rules: ValidationRules,
    pub output: OutputConfig,
    pub templates: Option<Vec<(String, String)>>,
}

/// The syntax a configuration file is written in.
#[derive(Debug, Clone, Copy, PartialEq, Eq, Structural)]
pub enum ConfigFormat {
    Toml,
    Yaml,
    Json,
}

pub open spec fn default_excludes() -> Seq<Seq<char>> {
    seq!["node_modules/**"@, "target/**"@, "dist/**"@, ".git/**"@, "*.tmp.adoc"@]
}

pub open spec fn default_required_attributes() -> Seq<Seq<char>> {
    seq!["forgepoint-type"@, "id"@, "schema-version"@]
}

/// The defaults: schemas under `schema`, every check on, titles up to 100 characters,
/// text output with suggestions and colour.
pub open spec fn is_default_config(c: ForgepointConfig) -> bool {
    &&& c.schema_path@ == "schema"@
    &&& crate::schema::strings(c.exclude_patterns@) == default_excludes()
    &&& c.rules.require_id && c.rules.enforce_structure && c.rules.validate_references
        && c.rules.check_id_uniqueness
    &&& c.rules.max_title_length == Some(100usize)
    &&& crate::schema::strings(c.rules.required_attributes@) == default_required_attributes()
    &&& c.output.format@ == "text"@
    &&& !c.output.verbose && c.output.show_suggestions && c.output.color
    &&& c.templates is None
}

/// The files a configuration is looked for in, in order: the one given, else the usual
/// names in the working directory.
pub open spec fn config_candidates(given: Option<Seq<char>>) -> Seq<Seq<char>> {
    match given {
        Some(p) => seq![p],
        None => seq![
            ".forgepoint.toml"@,
            ".forgepoint.yaml"@,
            ".forgepoint.yml"@,
            ".forgepointrc.json"@,
            "forgepoint.toml"@,
        ],
    }
}

/// The format of a configuration file: by its extension, else by its text (JSON when it
/// opens with `{`, YAML when it holds `---` or `:`, else TOML).
pub open spec fn config_format(path: Seq<char>, content: Seq<char>) -> ConfigFormat {
    match extension_of(path) {
        Some(e) if e == "toml"@ => ConfigFormat::Toml,
        Some(e) if e == "yaml"@ || e == "yml"@ => ConfigFormat::Yaml,
        Some(e) if e == "json"@ => ConfigFormat::Json,
        _ => {
            let t = trim_start(content);
            if t.len() > 0 && t[0] == '{' {
                ConfigFormat::Json
            } else if contains(content, "---"@) || contains(content, ":"@) {
                ConfigFormat::Yaml
            } else {
                ConfigFormat::Toml
            }
        },
    }
}

/// `rel` joined onto `base`: a separator is added unless `base` is empty or ends in one.
pub open spec fn joined_path(base: Seq<char>, rel: Seq<char>) -> Seq<char> {
    if base.len() == 0 || base.last() == '/' {
        base + rel
    } else {
        base + seq!['/'] + rel
    }
}

pub open spec fn is_relative(p: Seq<char>) -> bool {
    !(p.len() > 0 && p[0] == '/')
}

fn string_list(items: &Vec<&str>) -> (r: Vec<String>)
    ensures
        r@.len() == items@.len(),
        forall|i: int| 0 <= i < items@.len() ==> (#[trigger] r@[i])@ == items@[i]@,
{
    let mut r: Vec<String> = Vec::new();
    let mut i: usize = 0;
    while i < items.len()
        invariant
            i <= items.len(),
            r@.len() == i,
            forall|j: int| 0 <= j < i ==> (#[trigger] r@[j])@ == items@[j]@,
        decreases items.len() - i,
    {
        r.push(String::from_str(items[i]));
        i = i + 1;
    }
    r
}

impl Default for ForgepointConfig {
    fn default() -> (r: Self)
        ensures
            is_default_config(r),
    {
        let excludes = string_list(
            &vec!["node_modules/**", "target/**", "dist/**", ".git/**", "*.tmp.adoc"],
        );
        assert(crate::schema::strings(excludes@) =~= default_excludes());
        let required = string_list(&vec!["forgepoint-type", "id", "schema-version"]);
        assert(crate::schema::strings(required@) =~= default_required_attributes());
        ForgepointConfig {
            schema_path: String::from_str("schema"),
            exclude_patterns: excludes,
            rules: ValidationRules {
                require_id: true,
                enforce_structure: true,
                validate_references: true,
                check_id_uniqueness: true,
                max_title_length: Some(100),
                required_attributes: required,
            },
            output: OutputConfig {
                format: String::from_str("text"),
                verbose: false,
                show_suggestions: true,
                color: true,
            },
            templates: None,
        }
    }
}

impl ForgepointConfig {
    /// The files to look for a configuration in, in order.
    pub fn config_candidates(config_path: Option<&String>) -> (r: Vec<String>)
        ensures
            crate::schema::strings(r@) == config_candidates(
                match config_path {
                    Some(p) => Some(p@),
                    None => None,
                },
            ),
    {
        let r = match config_path {
            Some(p) => vec![p.clone()],
            None => string_list(
                &vec![
                    ".forgepoint.toml",
                    ".forgepoint.yaml",
                    ".forgepoint.yml",
                    ".forgepointrc.json",
                    "forgepoint.toml",
                ],
            ),
        };
        assert(crate::schema::strings(r@) =~= config_candidates(
            match config_path {
                Some(p) => Some(p@),
                None => None,
            },
        ));
        r
    }

    /// The syntax of the configuration file `path` with text `content`.
    pub fn detect_format(path: &str, content: &str) -> (r: ConfigFormat)
        ensures
            r == config_format(path@, content@),
    {
        let v = chars_of(path);
        let ghost e = extension_of(path@);
        match crate::parser::DocumentParser::extension(&v) {
            Some(ext) => {
                let s = crate::text::string_of(&ext, 0, ext.len());
                assert(ext@.subrange(0, ext.len() as int) =~= ext@);
                if s == String::from_str("toml") {
                    return ConfigFormat::Toml;
                }
                if s == String::from_str("yaml") || s == String::from_str("yml") {
                    return ConfigFormat::Yaml;
                }
                if s == String::from_str("json") {
                    return ConfigFormat::Json;
                }
            },
            None => {},
        }
        let c = chars_of(content);
        let a = crate::text::skip_ws_exec(&c, 0);
        proof {
            crate::config::lemma_skip_ws_trim_start(c@, 0);
            assert(c@.subrange(0, c@.len() as int) =~= c@);
        }
        if a < c.len() && c[a] == '{' {
            return ConfigFormat::Json;
        }
        assert(c@.subrange(0, c.len() as int) =~= c@);
        if contains_in(&c, 0, c.len(), &chars_of("---")) || contains_in(
            &c,
            0,
            c.len(),
            &chars_of(":"),
        ) {
            ConfigFormat::Yaml
        } else {
            ConfigFormat::Toml
        }
    }

    /// Command-line options override the configuration: a schema path replaces it, and
    /// `verbose` turns verbose output on (never off).
    pub fn merge_cli_args(self, schema_path: Option<String>, verbose: bool) -> (r: Self)
        ensures
            r.schema_path == match schema_path {
                Some(p) => p,
                None => self.schema_path,
            },
            r.output.verbose == (self.output.verbose || verbose),
            r.exclude_patterns == self.exclude_patterns,
            r.rules == self.rules,
            r.templates == self.templates,
            r.output.format == self.output.format,
            r.output.show_suggestions == self.output.show_suggestions,
            r.output.color == self.output.color,
    {
        let mut c = self;
        match schema_path {
            Some(p) => {
                c.schema_path = p;
            },
            None => {},
        }
        if verbose {
            c.output.verbose = true;
        }
        c
    }

    /// A relative schema path is taken relative to `base_dir`.
    pub fn resolve_paths(self, base_dir: &String) -> (r: Self)
        ensures
            r.schema_path@ == if is_relative(self.schema_path@) {
                joined_path(base_dir@, self.schema_path@)
            } else {
                self.schema_path@
            },
            r.exclude_patterns == self.exclude_patterns,
            r.rules == self.rules,
            r.output == self.output,
            r.templates == self.templates,
    {
        let mut c = self;
        let p = chars_of(c.schema_path.as_str());
        if !(p.len() > 0 && p[0] == '/') {
            let b = chars_of(base_dir.as_str());
            let joined = if b.len() == 0 || b[b.len() - 1] == '/' {
                base_dir.clone().concat(c.schema_path.as_str())
            } else {
                base_dir.clone().concat("/").concat(c.schema_path.as_str())
            };
            proof {
                reveal_strlit("/");
            }
            assert(joined@ =~= joined_path(base_dir@, c.schema_path@));
            c.schema_path = joined;
        }
        c
    }
}

proof fn lemma_skip_ws_trim_start(s: Seq<char>, i: nat)
    requires
        i <= s.len(),
    ensures
        trim_start(s.subrange(i as int, s.len() as int)) == s.subrange(
            crate::text::skip_ws(s, i) as int,
            s.len() as int,
        ),
    decreases s.len() - i,
{
    let t = s.subrange(i as int, s.len() as int);
    if i < s.len() && crate::text::is_ws(s[i as int]) {
        assert(t.drop_first() =~= s.subrange(i as int + 1, s.len() as int));
        lemma_skip_ws_trim_start(s, i + 1);
    }
}


/// The pieces of `s` between `sep` characters, as `str::split` gives them.
pub open spec fn split_on(s: Seq<char>, sep: char) -> Seq<Seq<char>>
    decreases s.len(),
{
    if s.len() == 0 {
        seq![Seq::<char>::empty()]
    } else {
        let init = split_on(s.drop_last(), sep);
        if s.last() == sep {
            init.push(Seq::<char>::empty())
        } else {
            init.update(init.len() - 1, init.last().push(s.last()))
        }
    }
}

/// The exclusion patterns of a run: the configured ones, then each comma-separated piece
/// of `extra`, trimmed.
pub open spec fn exclude_patterns_of(configured: Seq<Seq<char>>, extra: Option<Seq<char>>) -> Seq<
    Seq<char>,
> {
    match extra {
        Some(e) => configured + split_on(e, ',').map_values(|p: Seq<char>| crate::text::trim(p)),
        None => configured,
    }
}

/// The exclusion patterns of a run: the configured ones and those given as one
/// comma-separated list.
pub fn get_exclude_patterns(config: &ForgepointConfig, exclude: Option<&String>) -> (r: Vec<String>)
    ensures
        crate::schema::strings(r@) == exclude_patterns_of(
            crate::schema::strings(config.exclude_patterns@),
            match exclude {
                Some(e) => Some(e@),
                None => None,
            },
        ),
{
    let mut r = crate::schema::copy_strings(&config.exclude_patterns);
    assert(crate::schema::strings(r@) == crate::schema::strings(config.exclude_patterns@));
    match exclude {
        None => r,
        Some(e) => {
            let ghost base = crate::schema::strings(r@);
            let v = chars_of(e.as_str());
            let mut start: usize = 0;
            let mut i: usize = 0;
            let mut pieces: Vec<String> = Vec::new();
            proof {
                assert(v@.take(0) =~= Seq::<char>::empty());
            }
            while i < v.len()
                invariant
                    start <= i <= v.len(),
                    split_on(v@.take(i as int), ',').len() == pieces.len() + 1,
                    split_on(v@.take(i as int), ',').last() == v@.subrange(start as int, i as int),
                    crate::schema::strings(pieces@) == split_on(v@.take(i as int), ',').take(
                        pieces.len() as int,
                    ).map_values(|p: Seq<char>| crate::text::trim(p)),
                decreases v.len() - i,
            {
                let ghost pre = v@.take(i as int);
                assert(v@.take(i + 1).drop_last() =~= pre);
                if v[i] == ',' {
                    let (a, b) = crate::text::trim_bounds(&v, start, i);
                    let piece = crate::text::string_of(&v, a, b);
                    let ghost old_pieces = pieces@;
                    pieces.push(piece);
                    start = i + 1;
                    proof {
                        let segs = split_on(v@.take(i + 1), ',');
                        assert(segs =~= split_on(pre, ',').push(Seq::<char>::empty()));
                        assert(crate::schema::strings(pieces@) =~= crate::schema::strings(
                            old_pieces,
                        ).push(piece@));
                        assert(crate::schema::strings(pieces@) =~= segs.take(
                            pieces.len() as int,
                        ).map_values(|p: Seq<char>| crate::text::trim(p)));
                        assert(v@.subrange(start as int, i + 1) =~= Seq::<char>::empty());
                    }
                } else {
                    proof {
                        let segs = split_on(v@.take(i + 1), ',');
                        assert(segs =~= split_on(pre, ',').update(
                            split_on(pre, ',').len() - 1,
                            split_on(pre, ',').last().push(v@[i as int]),
                        ));
                        assert(v@.subrange(start as int, i + 1) =~= v@.subrange(
                            start as int,
                            i as int,
                        ).push(v@[i as int]));
                        assert(segs.take(pieces.len() as int) =~= split_on(pre, ',').take(
                            pieces.len() as int,
                        ));
                    }
                }
                i = i + 1;
            }
            assert(v@.take(v.len() as int) =~= v@);
            let (a, b) = crate::text::trim_bounds(&v, start, v.len());
            let last = crate::text::string_of(&v, a, b);
            let ghost body = pieces@;
            pieces.push(last);
            proof {
                let segs = split_on(e@, ',');
                assert(crate::schema::strings(pieces@) =~= crate::schema::strings(body).push(
                    last@,
                ));
                assert(crate::schema::strings(pieces@) =~= segs.map_values(
                    |p: Seq<char>| crate::text::trim(p),
                ));
            }
            let ghost before = r@;
            let mut k: usize = 0;
            while k < pieces.len()
                invariant
                    k <= pieces.len(),
                    crate::schema::strings(r@) == base + crate::schema::strings(pieces@).take(
                        k as int,
                    ),
                decreases pieces.len() - k,
            {
                let ghost prev = r@;
                r.push(pieces[k].clone());
                assert(crate::schema::strings(r@) =~= crate::schema::strings(prev).push(
                    pieces@[k as int]@,
                ));
                assert(crate::schema::strings(pieces@).take(k + 1) =~= crate::schema::strings(
                    pieces@,
                ).take(k as int).push(pieces@[k as int]@));
                k = k + 1;
            }
            assert(crate::schema::strings(pieces@).take(k as int) =~= crate::schema::strings(
                pieces@,
            ));
            r
        },
    }
}

} // verus!
