//! The `transifex.yaml` project file, as plain data.

use vstd::prelude::*;
use super::tx_config_file::{
    TxConfig, TxConfigLoadError, TxConfigSectionMain, TxConfigSectionResource,
};
use crate::text::{
    concat2, concat3, decimal, decimal_string, file_name_of, file_name_spec, find_char_from,
    is_segment, matches_at, occurs_at, parent_of, parent_spec, seq_ends_with, seq_starts_with, str_ends_with,
    str_eq, str_starts_with,
};
use crate::subcmd::gentxcfg::{lemma_segment_unique, has_code_run, is_captured_language, is_code_word, looks_like_language_folder};

verus! {

/// A `transifex.yaml` file.
#[derive(Debug)]
pub struct TransifexYaml {
    pub filters: Vec<Filter>,
    pub settings: Settings,
}

/// A row of the table that maps a repository's resources to Transifex resources.
#[derive(Debug, Clone, PartialEq, Eq)]
pub struct TxResourceLookupEntry {
    pub repository: String,
    /// Git branch name, not Transifex branch name.
    pub branch: String,
    pub resource: String,
    /// Full slug, i.e. `o:org:p:proj:r:res`.
    pub transifex_resource_id: String,
}

/// One resource: its source file and the template of its translation files.
#[derive(Debug, Clone, PartialEq, Eq)]
pub struct Filter {
    pub type_attr: String,
    pub source: String,
    pub format: String,
    pub source_lang: String,
    /// The path of the translation files, with `<lang>` for the language code.
    pub target_pattern: String,
}

#[derive(Debug, Clone, PartialEq, Eq)]
pub struct Settings {
    pub branch_template: String,
}

/// Why a `transifex.yaml` file could not be loaded.
#[derive(Debug, Clone, PartialEq, Eq)]
pub enum LoadTxYamlError {
    FileNotFound,
    /// The file could not be read; the message says why.
    ReadFile(String),
    /// The file is no valid description; the message says why.
    Serde(String),
    ConvertFile(TxConfigLoadError),
}

/// A lookup entry for the filter's source file in the given repository.
pub open spec fn entry_matches(e: TxResourceLookupEntry, repository: String, source: String) -> bool {
    e.repository@ == repository@ && e.resource@ == source@
}

/// Index of the first entry of `table` that matches, or -1.
pub open spec fn first_match(table: Seq<TxResourceLookupEntry>, repository: String, source: String) -> int
    decreases table.len(),
{
    if table.len() == 0 {
        -1
    } else if entry_matches(table[0], repository, source) {
        0
    } else {
        let k = first_match(table.drop_first(), repository, source);
        if k < 0 {
            -1
        } else {
            k + 1
        }
    }
}

proof fn lemma_first_match(table: Seq<TxResourceLookupEntry>, repository: String, source: String)
    ensures
        -1 <= first_match(table, repository, source) < table.len(),
        first_match(table, repository, source) >= 0 ==> entry_matches(
            table[first_match(table, repository, source)],
            repository,
            source,
        ),
        forall|j: int|
            0 <= j < table.len() && (j < first_match(table, repository, source) || first_match(
                table,
                repository,
                source,
            ) < 0) ==> !entry_matches(#[trigger] table[j], repository, source),
    decreases table.len(),
{
    if table.len() > 0 {
        lemma_first_match(table.drop_first(), repository, source);
        assert forall|j: int|
            0 < j < table.len() implies #[trigger] table[j] == table.drop_first()[j - 1] by {}
    }
}

/// How many of the first `i` filters have no entry in the lookup table.
pub open spec fn unknown_before(filters: Seq<Filter>, table: Seq<TxResourceLookupEntry>, repository: String, i: int) -> nat
    decreases i,
{
    if i <= 0 {
        0
    } else {
        unknown_before(filters, table, repository, i - 1) + if first_match(table, repository, filters[i - 1].source) < 0 {
            1nat
        } else {
            0nat
        }
    }
}

/// The slug of a resource that the lookup table does not know: numbered from 1.
pub open spec fn unknown_slug(n: nat) -> Seq<char> {
    "o:unknown-org:p:unknown-proj:r:unknown-res-"@ + decimal(n)
}

/// The host that generated `.tx/config` files name.
pub open spec fn default_host() -> Seq<char> {
    "https://www.transifex.com"@
}

impl TransifexYaml {
    /// The `.tx/config` description of the same resources: one section per filter,
    /// named by the first lookup entry for the filter's source in
    /// `github_repository`, else by a numbered placeholder slug.
    pub fn to_tx_config(&self, github_repository: String, lookup_table: Vec<TxResourceLookupEntry>) -> (r: TxConfig)
        requires
            self.filters@.len() < u64::MAX,
        ensures
            r.main_section.host@ == default_host(),
            r.main_section.minimum_prec is None,
            r.main_section.mode is None,
            r.resource_sections@.len() == self.filters@.len(),
            forall|i: int|
                0 <= i < self.filters@.len() ==> {
                    let (s, f) = (#[trigger] r.resource_sections@[i], self.filters@[i]);
                    let k = first_match(lookup_table@, github_repository, f.source);
                    &&& s.source_file == f.source
                    &&& s.source_lang == f.source_lang
                    &&& s.type_attr == f.format
                    &&& s.file_filter == f.target_pattern
                    &&& s.minimum_prec is None
                    &&& k >= 0 ==> s.resource_full_slug == lookup_table@[k].transifex_resource_id
                    &&& k < 0 ==> s.resource_full_slug@ == unknown_slug(
                        unknown_before(self.filters@, lookup_table@, github_repository, i) + 1,
                    )
                },
    {
        let mut resource_sections: Vec<TxConfigSectionResource> = Vec::new();
        let mut unknown_count: u64 = 0;
        let mut i: usize = 0;
        while i < self.filters.len()
            invariant
                i <= self.filters@.len(),
                self.filters@.len() < u64::MAX,
                resource_sections@.len() == i,
                unknown_count == unknown_before(self.filters@, lookup_table@, github_repository, i as int),
                unknown_count <= i,
                forall|k: int|
                    0 <= k < i ==> {
                        let (s, f) = (#[trigger] resource_sections@[k], self.filters@[k]);
                        let m = first_match(lookup_table@, github_repository, f.source);
                        &&& s.source_file == f.source
                        &&& s.source_lang == f.source_lang
                        &&& s.type_attr == f.format
                        &&& s.file_filter == f.target_pattern
                        &&& s.minimum_prec is None
                        &&& m >= 0 ==> s.resource_full_slug == lookup_table@[m].transifex_resource_id
                        &&& m < 0 ==> s.resource_full_slug@ == unknown_slug(
                            unknown_before(self.filters@, lookup_table@, github_repository, k) + 1,
                        )
                    },
            decreases self.filters@.len() - i,
        {
            let filter = &self.filters[i];
            proof {
                lemma_first_match(lookup_table@, github_repository, filter.source);
            }
            let mut found: Option<usize> = None;
            let mut j: usize = 0;
            while j < lookup_table.len()
                invariant
                    j <= lookup_table@.len(),
                    found is None ==> forall|l: int| 0 <= l < j ==> !entry_matches(#[trigger] lookup_table@[l], github_repository, filter.source),
                    found is Some ==> found->0 == first_match(lookup_table@, github_repository, filter.source),
                    -1 <= first_match(lookup_table@, github_repository, filter.source) < lookup_table@.len(),
                    first_match(lookup_table@, github_repository, filter.source) >= 0 ==> entry_matches(
                        lookup_table@[first_match(lookup_table@, github_repository, filter.source)],
                        github_repository,
                        filter.source,
                    ),
                    forall|l: int|
                        0 <= l < lookup_table@.len() && (l < first_match(lookup_table@, github_repository, filter.source) || first_match(
                            lookup_table@,
                            github_repository,
                            filter.source,
                        ) < 0) ==> !entry_matches(#[trigger] lookup_table@[l], github_repository, filter.source),
                decreases lookup_table@.len() - j,
            {
                if found.is_none() && lookup_table[j].repository == github_repository && lookup_table[j].resource
                    == filter.source {
                    found = Some(j);
                }
                j = j + 1;
            }
            let slug = match found {
                Some(k) => lookup_table[k].transifex_resource_id.clone(),
                None => {
                    unknown_count = unknown_count + 1;
                    concat2("o:unknown-org:p:unknown-proj:r:unknown-res-", decimal_string(unknown_count).as_str())
                },
            };
            resource_sections.push(
                TxConfigSectionResource {
                    resource_full_slug: slug,
                    file_filter: filter.target_pattern.clone(),
                    minimum_prec: None,
                    source_file: filter.source.clone(),
                    source_lang: filter.source_lang.clone(),
                    type_attr: filter.format.clone(),
                },
            );
            i = i + 1;
        }
        TxConfig {
            main_section: TxConfigSectionMain {
                host: String::from_str("https://www.transifex.com"),
                minimum_prec: None,
                mode: None,
            },
            resource_sections,
        }
    }
}

/// `b` under the directory `a`: `b` itself when `a` is empty or `b` is absolute.
pub open spec fn join_spec(a: Seq<char>, b: Seq<char>) -> Seq<char> {
    if a.len() == 0 || (b.len() > 0 && b[0] == '/') {
        b
    } else if a[a.len() - 1] == '/' {
        a + b
    } else {
        a + seq!['/'] + b
    }
}

/// `b` under the directory `a`.
pub fn join_path(a: &str, b: &str) -> (r: String)
    ensures
        r@ == join_spec(a@, b@),
{
    let n = a.unicode_len();
    if n == 0 || (b.unicode_len() > 0 && b.get_char(0) == '/') {
        String::from_str(b)
    } else if a.get_char(n - 1) == '/' {
        concat2(a, b)
    } else {
        proof {
            reveal_strlit("/");
        }
        let r = concat3(a, "/", b);
        assert("/"@ =~= seq!['/']);
        r
    }
}

/// Where the `<lang>` placeholder of a template stands.
#[derive(Debug, Clone, PartialEq, Eq)]
pub enum TargetTemplate {
    /// Inside the file name: files of `dir` named `prefix`, a language code, `suffix`.
    InFileName { dir: String, prefix: String, suffix: String },
    /// As a whole directory: `base`, a language directory, then `rest`.
    InPath { base: String, rest: String },
}

/// Why a template cannot be matched against the file system.
#[derive(Debug, Clone, PartialEq, Eq)]
pub enum TemplateError {
    /// The template names no file.
    NoFileName,
    /// The file name holds `<lang>` more than once.
    InvalidFilterPattern,
    /// Neither the file name nor a directory of the template is `<lang>`.
    MissingLang,
}

/// `<lang>` occurs in `s` at `i` and nowhere else.
pub open spec fn single_placeholder(s: Seq<char>, i: int) -> bool {
    &&& occurs_at(s, i, "<lang>"@)
    &&& forall|j: int| j != i ==> !occurs_at(s, j, "<lang>"@)
}

/// What `target_template` makes of the template path `t` (the filter's pattern
/// under the project root).
pub open spec fn template_of(t: Seq<char>, r: Result<TargetTemplate, TemplateError>) -> bool {
    let name = file_name_spec(t);
    if name.len() == 0 {
        r == Err::<TargetTemplate, TemplateError>(TemplateError::NoFileName)
    } else if exists|i: int| occurs_at(name, i, "<lang>"@) {
        if exists|i: int| single_placeholder(name, i) {
            exists|i: int|
                single_placeholder(name, i) && match r {
                    Ok(TargetTemplate::InFileName { dir, prefix, suffix }) => dir@ == parent_spec(t) && prefix@
                        == name.subrange(0, i) && suffix@ == name.subrange(i + 6, name.len() as int),
                    _ => false,
                }
        } else {
            r == Err::<TargetTemplate, TemplateError>(TemplateError::InvalidFilterPattern)
        }
    } else if exists|a: int, b: int| is_segment(t, a, b) && t.subrange(a, b) == "<lang>"@ {
        exists|a: int, b: int|
            is_segment(t, a, b) && t.subrange(a, b) == "<lang>"@ && (forall|a2: int, b2: int|
                is_segment(t, a2, b2) && a2 < a ==> #[trigger] t.subrange(a2, b2) != "<lang>"@) && match r {
                Ok(TargetTemplate::InPath { base, rest }) => base@ == t.subrange(0, a) && rest@ == (if b
                    < t.len() {
                    t.subrange(b + 1, t.len() as int)
                } else {
                    Seq::empty()
                }),
                _ => false,
            }
    } else {
        r == Err::<TargetTemplate, TemplateError>(TemplateError::MissingLang)
    }
}

/// All positions of `<lang>` in `s` from `from` on.
fn find_placeholder_from(s: &str, from: usize) -> (r: Option<usize>)
    requires
        from <= s@.len(),
    ensures
        r is None ==> forall|j: int| from <= j ==> !occurs_at(s@, j, "<lang>"@),
        r is Some ==> from <= r->0 && occurs_at(s@, r->0 as int, "<lang>"@) && forall|j: int|
            from <= j < r->0 ==> !occurs_at(s@, j, "<lang>"@),
{
    let n = s.unicode_len();
    let mut i: usize = from;
    while i <= n
        invariant
            n == s@.len(),
            from <= i,
            forall|j: int| from <= j < i ==> !occurs_at(s@, j, "<lang>"@),
        decreases n + 1 - i,
    {
        if matches_at(s, i, "<lang>") {
            return Some(i);
        }
        if i == n {
            assert forall|j: int| from <= j implies !occurs_at(s@, j, "<lang>"@) by {
                if j > n {
                    assert(!(j + "<lang>"@.len() <= s@.len()));
                }
            }
            return None;
        }
        i = i + 1;
    }
    None
}

impl Filter {
    /// Where the `<lang>` placeholder of this filter's translation template stands,
    /// with the template taken under `project_root`.
    pub fn target_template(&self, project_root: &str) -> (r: Result<TargetTemplate, TemplateError>)
        ensures
            template_of(join_spec(project_root@, self.target_pattern@), r),
    {
        let t = join_path(project_root, self.target_pattern.as_str());
        let ts = t.as_str();
        let name = file_name_of(ts);
        let n = name.unicode_len();
        if n == 0 {
            return Err(TemplateError::NoFileName);
        }
        proof {
            reveal_strlit("<lang>");
        }
        assert("<lang>"@.len() == 6);
        match find_placeholder_from(name, 0) {
            Some(i) => {
                if i + 6 > n {
                    assert(false);
                    return Err(TemplateError::InvalidFilterPattern);
                }
                match find_placeholder_from(name, i + 1) {
                    Some(j) => {
                        proof {
                            assert forall|k: int| !single_placeholder(name@, k) by {
                                if single_placeholder(name@, k) {
                                    assert(k == i as int);
                                    assert(k == j as int);
                                }
                            }
                        }
                        Err(TemplateError::InvalidFilterPattern)
                    },
                    None => {
                        assert(single_placeholder(name@, i as int));
                        let r = TargetTemplate::InFileName {
                            dir: String::from_str(parent_of(ts)),
                            prefix: String::from_str(name.substring_char(0, i)),
                            suffix: String::from_str(name.substring_char(i + 6, n)),
                        };
                        Ok(r)
                    },
                }
            },
            None => {
                let m = ts.unicode_len();
                let mut a: usize = 0;
                loop
                    invariant
                        ts@ == t@,
                        t@ == join_spec(project_root@, self.target_pattern@),
                        m == t@.len(),
                        a <= m,
                        a == 0 || t@[a - 1] == '/',
                        forall|j: int| !occurs_at(name@, j, "<lang>"@),
                        name@ == file_name_spec(t@),
                        name@.len() > 0,
                        forall|a2: int, b2: int|
                            is_segment(t@, a2, b2) && a2 < a ==> #[trigger] t@.subrange(a2, b2) != "<lang>"@,
                    decreases m - a,
                {
                    let b = find_char_from(ts, '/', a);
                    let seg = ts.substring_char(a, b);
                    if str_eq(seg, "<lang>") {
                        assert(is_segment(t@, a as int, b as int));
                        let rest = if b < m {
                            ts.substring_char(b + 1, m)
                        } else {
                            let e = ts.substring_char(m, m);
                            assert(e@ =~= Seq::<char>::empty());
                            e
                        };
                        let r = TargetTemplate::InPath {
                            base: String::from_str(ts.substring_char(0, a)),
                            rest: String::from_str(rest),
                        };
                        proof {
                            let rr = Ok::<TargetTemplate, TemplateError>(r);
                            assert(is_segment(t@, a as int, b as int) && t@.subrange(a as int, b as int) == "<lang>"@);
                            assert(match rr {
                                Ok(TargetTemplate::InPath { base, rest }) => base@ == t@.subrange(0, a as int) && rest@ == (if b
                                    < t@.len() {
                                    t@.subrange(b + 1, t@.len() as int)
                                } else {
                                    Seq::empty()
                                }),
                                _ => false,
                            });
                        }
                        return Ok(r);
                    }
                    assert forall|a2: int, b2: int|
                        is_segment(t@, a2, b2) && a2 < b + 1 implies #[trigger] t@.subrange(a2, b2) != "<lang>"@ by {
                        if a2 >= a {
                            if a2 > a {
                                assert(t@[a2 - 1] == '/');
                                assert(false);
                            }
                            lemma_segment_unique(t@, a as int, b as int, b2);
                        }
                    }
                    if b == m {
                        assert forall|a2: int, b2: int|
                            is_segment(t@, a2, b2) implies #[trigger] t@.subrange(a2, b2) != "<lang>"@ by {
                            assert(a2 < b + 1);
                        }
                        return Err(TemplateError::MissingLang);
                    }
                    a = b + 1;
                }
            },
        }
    }
}

/// What a directory entry named `name` gives under template `t`: the language code
/// and the path of the translation file (for a language directory, the path still
/// to be checked for a file).
pub open spec fn entry_match(t: TargetTemplate, name: Seq<char>) -> Option<(Seq<char>, Seq<char>)> {
    match t {
        TargetTemplate::InFileName { dir, prefix, suffix } => {
            let (p, q) = (prefix@.len(), suffix@.len());
            if p + q <= name.len() && seq_starts_with(name, prefix@) && seq_ends_with(name, suffix@)
                && is_code_word(name.subrange(p as int, name.len() - q)) {
                Some((name.subrange(p as int, name.len() - q), join_spec(dir@, name)))
            } else {
                None
            }
        },
        TargetTemplate::InPath { base, rest } => {
            if has_code_run(name) {
                Some((name, join_spec(join_spec(base@, name), rest@)))
            } else {
                None
            }
        },
    }
}

/// The matches of `names`, in order.
pub open spec fn matches_over(t: TargetTemplate, names: Seq<String>) -> Seq<(Seq<char>, Seq<char>)>
    decreases names.len(),
{
    if names.len() == 0 {
        Seq::empty()
    } else {
        let prev = matches_over(t, names.drop_last());
        match entry_match(t, names.last()@) {
            Some(m) => prev.push(m),
            None => prev,
        }
    }
}

pub open spec fn pair_view(p: (String, String)) -> (Seq<char>, Seq<char>) {
    (p.0@, p.1@)
}

pub open spec fn pair_views(v: Seq<(String, String)>) -> Seq<(Seq<char>, Seq<char>)> {
    v.map_values(|p: (String, String)| pair_view(p))
}

fn entry_match_exec(t: &TargetTemplate, name: &str) -> (r: Option<(String, String)>)
    ensures
        r is None <==> entry_match(*t, name@) is None,
        r is Some ==> pair_view(r->0) == entry_match(*t, name@)->0,
{
    match t {
        TargetTemplate::InFileName { dir, prefix, suffix } => {
            let n = name.unicode_len();
            let p = prefix.as_str().unicode_len();
            let q = suffix.as_str().unicode_len();
            if p > n || q > n - p {
                return None;
            }
            if !str_starts_with(name, prefix.as_str()) || !str_ends_with(name, suffix.as_str()) {
                return None;
            }
            let mid = name.substring_char(p, n - q);
            if !is_captured_language(mid) {
                return None;
            }
            Some((String::from_str(mid), join_path(dir.as_str(), name)))
        },
        TargetTemplate::InPath { base, rest } => {
            if !looks_like_language_folder(name) {
                return None;
            }
            let folder = join_path(base.as_str(), name);
            Some((String::from_str(name), join_path(folder.as_str(), rest.as_str())))
        },
    }
}

impl TargetTemplate {
    /// The matches among the entries of the template's directory, in order: for a
    /// placeholder in the file name, the files named after the template with two
    /// to six letters or `_` in its place; for a language directory, each entry
    /// with two such characters in a row (the caller keeps those whose path is a file).
    pub fn match_entries(&self, entries: &Vec<String>) -> (r: Vec<(String, String)>)
        ensures
            pair_views(r@) == matches_over(*self, entries@),
    {
        let mut out: Vec<(String, String)> = Vec::new();
        let mut i: usize = 0;
        assert(entries@.take(0) =~= Seq::<String>::empty());
        assert(pair_views(out@) =~= Seq::empty());
        while i < entries.len()
            invariant
                i <= entries@.len(),
                pair_views(out@) == matches_over(*self, entries@.take(i as int)),
            decreases entries@.len() - i,
        {
            proof {
                assert(entries@.take(i + 1).drop_last() =~= entries@.take(i as int));
                assert(entries@.take(i + 1).last() == entries@[i as int]);
            }
            match entry_match_exec(self, entries[i].as_str()) {
                Some(m) => {
                    let ghost before = out@;
                    out.push(m);
                    assert(pair_views(out@) =~= pair_views(before).push(pair_view(m)));
                },
                None => {},
            }
            i = i + 1;
        }
        assert(entries@.take(entries@.len() as int) =~= entries@);
        out
    }
}

impl Filter {
    /// The translation files among `entries`, the names in the directory that
    /// `target_template` points at (its `dir` or its `base`), with their language
    /// codes.
    pub fn match_target_files(&self, project_root: &str, entries: &Vec<String>) -> (r: Result<
        Vec<(String, String)>,
        TemplateError,
    >)
        ensures
            exists|t: Result<TargetTemplate, TemplateError>|
                template_of(join_spec(project_root@, self.target_pattern@), t) && match t {
                    Ok(tt) => r is Ok && pair_views(r->Ok_0@) == matches_over(tt, entries@),
                    Err(e) => r == Err::<Vec<(String, String)>, TemplateError>(e),
                },
    {
        let t = self.target_template(project_root);
        match t {
            Ok(tt) => {
                let r = tt.match_entries(entries);
                assert(template_of(join_spec(project_root@, self.target_pattern@), t));
                Ok(r)
            },
            Err(e) => Err(e),
        }
    }
}

} // verus!
