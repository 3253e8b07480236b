//! Discovery of source translation files: language codes in file and directory
//! names, the priority among English-family candidates, and the placeholder
//! templates that group a source file with its translations.
//!
//! Paths here are relative, `/`-separated paths of files.

use vstd::prelude::*;
use crate::i18n_file::common::{I18nFileKind, ext_hint, kind_of_ext};
use crate::transifex::tx_config_file::branch_template_spec;
use crate::transifex::yaml_file::{Filter, Settings, TransifexYaml};
use crate::text::{
    last_index, last_index_of, lemma_last_index, lemma_path_lt_order, path_lt, lemma_seq_lt_transitive, lex_less, seq_lt, concat2, concat3, extension_of, extension_spec, has_extension, parent_of, parent_spec,
    replace_all, replace_str, find_char_from, free_of, is_segment, owned, file_name_of, file_name_spec, file_stem_of, file_stem_spec, seq_contains, seq_ends_with,
    seq_starts_with, str_contains, str_ends_with, str_eq, str_starts_with,
};

verus! {

pub open spec fn is_lower(c: char) -> bool {
    'a' <= c && c <= 'z'
}

pub open spec fn is_upper(c: char) -> bool {
    'A' <= c && c <= 'Z'
}

/// `s[a..b]` holds lower-case ASCII letters only.
pub open spec fn all_lower(s: Seq<char>, a: int, b: int) -> bool {
    forall|i: int| a <= i < b ==> is_lower(#[trigger] s[i])
}

/// `s[a..b]` holds upper-case ASCII letters only.
pub open spec fn all_upper(s: Seq<char>, a: int, b: int) -> bool {
    forall|i: int| a <= i < b ==> is_upper(#[trigger] s[i])
}

/// `s` has the shape of a language code split at `k`: `k` lower-case letters, then
/// nothing or `_` and two or three upper-case letters.
pub open spec fn lang_code_split(s: Seq<char>, k: int) -> bool {
    &&& 2 <= k <= 3
    &&& k <= s.len()
    &&& all_lower(s, 0, k)
    &&& (s.len() == k || (s[k] == '_' && k + 3 <= s.len() <= k + 4 && all_upper(s, k + 1, s.len() as int)))
}

/// A language code: two or three lower-case letters (the language), optionally
/// `_` and two or three upper-case letters (the region): `en`, `kab`, `zh_CN`.
pub open spec fn is_lang_code(s: Seq<char>) -> bool {
    exists|k: int| lang_code_split(s, k)
}

/// A letter or `_`: the characters a language directory name is made of.
pub open spec fn is_code_char(c: char) -> bool {
    is_lower(c) || is_upper(c) || c == '_'
}

/// `s` holds two code characters in a row somewhere.
pub open spec fn has_code_run(s: Seq<char>) -> bool {
    exists|i: int| 0 <= i && i + 1 < s.len() && is_code_char(#[trigger] s[i]) && is_code_char(s[i + 1])
}

/// `s` is two to six code characters.
pub open spec fn is_code_word(s: Seq<char>) -> bool {
    &&& 2 <= s.len() <= 6
    &&& forall|i: int| 0 <= i < s.len() ==> is_code_char(#[trigger] s[i])
}

/// Relies on `regex::Regex::new` and `Regex::is_match` for three fixed patterns:
/// an anchored language code, an unanchored run of two to six code characters,
/// and an anchored word of two to six code characters.
#[verifier::external_body]
fn regex_is_match(pattern: &str, text: &str) -> (r: bool)
    requires
        pattern@ == "^[a-z]{2,3}(_[A-Z]{2,3})?$"@ || pattern@ == "[a-z_A-Z]{2,6}"@ || pattern@
            == "^[a-z_A-Z]{2,6}$"@,
    ensures
        pattern@ == "^[a-z]{2,3}(_[A-Z]{2,3})?$"@ ==> r == is_lang_code(text@),
        pattern@ == "[a-z_A-Z]{2,6}"@ ==> r == has_code_run(text@),
        pattern@ == "^[a-z_A-Z]{2,6}$"@ ==> r == is_code_word(text@),
{
    regex::Regex::new(pattern).unwrap().is_match(text)
}

/// Whether `code` has the shape of a language code (`xx`, `xxx`, `xx_YY`, ...).
pub fn is_language_code(code: &str) -> (r: bool)
    ensures
        r == is_lang_code(code@),
{
    regex_is_match("^[a-z]{2,3}(_[A-Z]{2,3})?$", code)
}

/// Whether `s` has a run of two code characters: the coarse test for a language
/// directory name.
pub fn looks_like_language_folder(s: &str) -> (r: bool)
    ensures
        r == has_code_run(s@),
{
    regex_is_match("[a-z_A-Z]{2,6}", s)
}

/// Whether `s` is two to six letters or `_`: what a template's `<lang>` captures.
pub fn is_captured_language(s: &str) -> (r: bool)
    ensures
        r == is_code_word(s@),
{
    regex_is_match("^[a-z_A-Z]{2,6}$", s)
}

/// Common file extensions, never taken for language codes.
pub open spec fn is_ext_word(s: Seq<char>) -> bool {
    s == "po"@ || s == "pot"@ || s == "ts"@ || s == "js"@ || s == "py"@ || s == "rs"@ || s == "go"@
        || s == "sh"@ || s == "rb"@ || s == "md"@ || s == "txt"@ || s == "xml"@ || s == "json"@ || s
        == "yaml"@ || s == "yml"@ || s == "toml"@ || s == "ini"@ || s == "cfg"@ || s == "html"@ || s
        == "css"@ || s == "scss"@ || s == "less"@ || s == "vue"@ || s == "jsx"@ || s == "tsx"@ || s
        == "c"@ || s == "cpp"@ || s == "h"@ || s == "hpp"@ || s == "cs"@ || s == "java"@ || s
        == "kt"@ || s == "php"@ || s == "sql"@ || s == "db"@ || s == "sqlite"@ || s == "log"@ || s
        == "tmp"@ || s == "bak"@ || s == "old"@
}

/// Whether `s` is one of the common file extensions.
pub fn is_file_extension(s: &str) -> (r: bool)
    ensures
        r == is_ext_word(s@),
{
    str_eq(s, "po") || str_eq(s, "pot") || str_eq(s, "ts") || str_eq(s, "js") || str_eq(s, "py")
        || str_eq(s, "rs") || str_eq(s, "go") || str_eq(s, "sh") || str_eq(s, "rb") || str_eq(s, "md")
        || str_eq(s, "txt") || str_eq(s, "xml") || str_eq(s, "json") || str_eq(s, "yaml") || str_eq(
        s,
        "yml",
    ) || str_eq(s, "toml") || str_eq(s, "ini") || str_eq(s, "cfg") || str_eq(s, "html") || str_eq(
        s,
        "css",
    ) || str_eq(s, "scss") || str_eq(s, "less") || str_eq(s, "vue") || str_eq(s, "jsx") || str_eq(
        s,
        "tsx",
    ) || str_eq(s, "c") || str_eq(s, "cpp") || str_eq(s, "h") || str_eq(s, "hpp") || str_eq(s, "cs")
        || str_eq(s, "java") || str_eq(s, "kt") || str_eq(s, "php") || str_eq(s, "sql") || str_eq(
        s,
        "db",
    ) || str_eq(s, "sqlite") || str_eq(s, "log") || str_eq(s, "tmp") || str_eq(s, "bak") || str_eq(
        s,
        "old",
    )
}

/// `en`, `en_US` or `en_GB`.
pub open spec fn is_english_code(s: Seq<char>) -> bool {
    s == "en"@ || s == "en_US"@ || s == "en_GB"@
}

pub fn is_english_language_code(lang_code: &str) -> (r: bool)
    ensures
        r == is_english_code(lang_code@),
{
    str_eq(lang_code, "en") || str_eq(lang_code, "en_US") || str_eq(lang_code, "en_GB")
}

/// A language code closes `stem` after the separator (`_` or `.`) at `i`.
pub open spec fn code_at(stem: Seq<char>, i: int) -> bool {
    &&& 0 <= i < stem.len()
    &&& (stem[i] == '_' || stem[i] == '.')
    &&& is_lang_code(stem.subrange(i + 1, stem.len() as int))
}

/// The language code that closes a file stem after `_` or `.`, if any.
pub open spec fn stem_code(stem: Seq<char>) -> Option<Seq<char>> {
    if exists|i: int| code_at(stem, i) {
        Some(stem.subrange((choose|i: int| code_at(stem, i)) + 1, stem.len() as int))
    } else {
        None
    }
}

/// The language code at the end of a file name's stem, if any.
pub open spec fn filename_code(filename: Seq<char>) -> Option<Seq<char>> {
    stem_code(file_stem_spec(filename))
}

/// At most one separator of a stem is followed by a language code up to its end.
pub proof fn lemma_code_at_unique(stem: Seq<char>, i: int, j: int)
    requires
        code_at(stem, i),
        code_at(stem, j),
    ensures
        i == j,
{
    if i != j {
        let (a, b) = if i < j { (i, j) } else { (j, i) };
        let ta = stem.subrange(a + 1, stem.len() as int);
        let tb = stem.subrange(b + 1, stem.len() as int);
        let ka = choose|k: int| lang_code_split(ta, k);
        let kb = choose|k: int| lang_code_split(tb, k);
        let p = b - a - 1;
        assert(ta[p] == stem[b]);
        if p < ka {
            assert(is_lower(ta[p]));
        } else if p == ka {
            assert(ta[p + 1] == tb[0]);
            assert(is_upper(ta[p + 1]));
            assert(is_lower(tb[0]));
        } else {
            assert(is_upper(ta[p]));
        }
    }
}

/// The language codes at the end of a file name's stem: the code after its last
/// `_` or `.` separator that is followed by a code up to the end (`app_zh_CN.ts`
/// gives `zh_CN`, `messages.ja.po` gives `ja`, `fr.po` gives none).
pub fn find_language_codes_in_filename(filename: &str) -> (r: Vec<String>)
    ensures
        filename_code(filename@) is None ==> r@.len() == 0,
        filename_code(filename@) is Some ==> r@.len() == 1 && r@[0]@ == filename_code(filename@)->0,
{
    let stem = file_stem_of(filename);
    let n = stem.unicode_len();
    let mut i: usize = 0;
    while i < n
        invariant
            n == stem@.len(),
            stem@ == file_stem_spec(filename@),
            i <= n,
            forall|k: int| 0 <= k < i ==> !code_at(stem@, k),
        decreases n - i,
    {
        let c = stem.get_char(i);
        if c == '_' || c == '.' {
            let tail = stem.substring_char(i + 1, n);
            if is_language_code(tail) {
                proof {
                    assert(code_at(stem@, i as int));
                    let w = choose|k: int| code_at(stem@, k);
                    lemma_code_at_unique(stem@, i as int, w);
                }
                let mut v: Vec<String> = Vec::new();
                v.push(String::from_str(tail));
                return v;
            }
        }
        i = i + 1;
    }
    Vec::new()
}

/// Source-candidate priority by the code in the file name: none 100, `en` 90,
/// `en_US` 80, `en_GB` 70, any other 10.
pub open spec fn priority_of_code(code: Option<Seq<char>>) -> u32 {
    match code {
        None => 100,
        Some(c) => if c == "en"@ {
            90
        } else if c == "en_US"@ {
            80
        } else if c == "en_GB"@ {
            70
        } else {
            10
        },
    }
}

/// The priority of a path as a source candidate.
pub open spec fn source_priority(path: Seq<char>) -> u32 {
    priority_of_code(filename_code(file_name_spec(path)))
}

/// The priority of a path as a source candidate: a file name without a language
/// code first, then `en`, `en_US`, `en_GB`, then any other code.
pub fn get_source_file_priority(file_path: &str) -> (r: u32)
    ensures
        r == source_priority(file_path@),
{
    let filename = file_name_of(file_path);
    let detected_langs = find_language_codes_in_filename(filename);
    if detected_langs.len() == 0 {
        return 100;
    }
    let code = detected_langs[0].as_str();
    if str_eq(code, "en") {
        90
    } else if str_eq(code, "en_US") {
        80
    } else if str_eq(code, "en_GB") {
        70
    } else {
        10
    }
}

/// `k` is the first candidate of the highest priority.
pub open spec fn is_best_candidate(candidates: Seq<String>, k: int) -> bool {
    &&& 0 <= k < candidates.len()
    &&& forall|l: int| 0 <= l < candidates.len() ==> source_priority((#[trigger] candidates[l])@) <= source_priority(candidates[k]@)
    &&& forall|l: int| 0 <= l < k ==> source_priority((#[trigger] candidates[l])@) < source_priority(candidates[k]@)
}

/// The candidate of the highest priority, the first of them on a tie; `None` when
/// there is no candidate.
pub fn select_best_source_file(candidates: &Vec<String>) -> (r: Option<String>)
    ensures
        candidates@.len() == 0 <==> r is None,
        r is Some ==> exists|k: int| is_best_candidate(candidates@, k) && r->0 == candidates@[k],
{
    if candidates.len() == 0 {
        return None;
    }
    let mut best: usize = 0;
    let mut best_priority = get_source_file_priority(candidates[0].as_str());
    let mut i: usize = 1;
    while i < candidates.len()
        invariant
            1 <= i <= candidates@.len(),
            best < i,
            best_priority == source_priority(candidates@[best as int]@),
            forall|l: int| 0 <= l < i ==> source_priority((#[trigger] candidates@[l])@) <= best_priority,
            forall|l: int| 0 <= l < best ==> source_priority((#[trigger] candidates@[l])@) < best_priority,
        decreases candidates@.len() - i,
    {
        let priority = get_source_file_priority(candidates[i].as_str());
        if priority > best_priority {
            best = i;
            best_priority = priority;
        }
        i = i + 1;
    }
    assert(is_best_candidate(candidates@, best as int));
    Some(candidates[best].clone())
}

/// A file name that marks an English source: it holds `en_US` or `_en.`, or ends in
/// `_en.ts`, `_en.po`, `.en.ts` or `.en.po`.
pub open spec fn is_english_source_name(f: Seq<char>) -> bool {
    seq_contains(f, "en_US"@) || seq_contains(f, "_en."@) || seq_ends_with(f, "_en.ts"@)
        || seq_ends_with(f, "_en.po"@) || seq_ends_with(f, ".en.ts"@) || seq_ends_with(f, ".en.po"@)
}

pub fn is_english_source_file(filename: &str) -> (r: bool)
    ensures
        r == is_english_source_name(filename@),
{
    str_contains(filename, "en_US") || str_contains(filename, "_en.") || str_ends_with(filename, "_en.ts")
        || str_ends_with(filename, "_en.po") || str_ends_with(filename, ".en.ts") || str_ends_with(
        filename,
        ".en.po",
    )
}

/// The file name ends in a language code that is not of the English family.
pub open spec fn has_non_english_code(f: Seq<char>) -> bool {
    filename_code(f) is Some && !is_english_code(filename_code(f)->0)
}

pub fn contains_non_english_language_code(filename: &str) -> (r: bool)
    ensures
        r == has_non_english_code(filename@),
{
    let detected_langs = find_language_codes_in_filename(filename);
    if detected_langs.len() == 0 {
        false
    } else {
        !is_english_language_code(detected_langs[0].as_str())
    }
}

/// Names that Gettext projects commonly give their source catalog.
pub open spec fn is_common_source_po_name(f: Seq<char>) -> bool {
    seq_starts_with(f, "messages"@) || seq_starts_with(f, "strings"@) || seq_starts_with(f, "template"@)
        || seq_contains(f, "_template"@) || f == "default.po"@ || f == "base.po"@
}

pub fn is_common_source_po_file(filename: &str) -> (r: bool)
    ensures
        r == is_common_source_po_name(filename@),
{
    str_starts_with(filename, "messages") || str_starts_with(filename, "strings") || str_starts_with(
        filename,
        "template",
    ) || str_contains(filename, "_template") || str_eq(filename, "default.po") || str_eq(
        filename,
        "base.po",
    )
}

/// `seg` is one of the names in `confirmed`.
pub open spec fn is_confirmed(confirmed: Seq<String>, seg: Seq<char>) -> bool {
    exists|i: int| 0 <= i < confirmed.len() && (#[trigger] confirmed[i])@ == seg
}

fn contains_name(confirmed: &Vec<String>, seg: &str) -> (r: bool)
    ensures
        r == is_confirmed(confirmed@, seg@),
{
    let mut i: usize = 0;
    while i < confirmed.len()
        invariant
            i <= confirmed@.len(),
            forall|k: int| 0 <= k < i ==> (#[trigger] confirmed@[k])@ != seg@,
        decreases confirmed@.len() - i,
    {
        if str_eq(confirmed[i].as_str(), seg) {
            return true;
        }
        i = i + 1;
    }
    false
}

/// A path segment that names a language directory: a language code that is no
/// common extension, and that the caller confirmed from the file system (another
/// language directory beside it holds the same file).
pub open spec fn is_lang_folder(seg: Seq<char>, confirmed: Seq<String>) -> bool {
    !is_ext_word(seg) && is_lang_code(seg) && is_confirmed(confirmed, seg)
}

fn is_lang_folder_exec(seg: &str, confirmed: &Vec<String>) -> (r: bool)
    ensures
        r == is_lang_folder(seg@, confirmed@),
{
    !is_file_extension(seg) && is_language_code(seg) && contains_name(confirmed, seg)
}

/// `path[a..b]` is the first segment of `path` that names a language directory.
pub open spec fn first_lang_folder(path: Seq<char>, confirmed: Seq<String>, a: int, b: int) -> bool {
    &&& is_segment(path, a, b)
    &&& is_lang_folder(path.subrange(a, b), confirmed)
    &&& forall|a2: int, b2: int|
        is_segment(path, a2, b2) && a2 < a ==> !is_lang_folder(#[trigger] path.subrange(a2, b2), confirmed)
}

pub proof fn lemma_segment_unique(s: Seq<char>, a: int, b: int, b2: int)
    requires
        is_segment(s, a, b),
        is_segment(s, a, b2),
    ensures
        b == b2,
{
    if b < b2 {
        assert(s[b] == '/');
    } else if b2 < b {
        assert(s[b2] == '/');
    }
}

/// The first directory of `path` that names a language, among the names in
/// `confirmed`.
pub fn get_language_folder_in_path(path: &str, confirmed: &Vec<String>) -> (r: Option<String>)
    ensures
        r is None <==> !exists|a: int, b: int| is_segment(path@, a, b) && is_lang_folder(#[trigger] path@.subrange(a, b), confirmed@),
        r is Some ==> exists|a: int, b: int|
            first_lang_folder(path@, confirmed@, a, b) && r->0@ == #[trigger] path@.subrange(a, b),
{
    let n = path.unicode_len();
    let mut a: usize = 0;
    loop
        invariant
            n == path@.len(),
            a <= n,
            a == 0 || path@[a - 1] == '/',
            forall|a2: int, b2: int|
                is_segment(path@, a2, b2) && a2 < a ==> !is_lang_folder(#[trigger] path@.subrange(a2, b2), confirmed@),
        decreases n - a,
    {
        let b = find_char_from(path, '/', a);
        let seg = path.substring_char(a, b);
        if is_lang_folder_exec(seg, confirmed) {
            assert(is_segment(path@, a as int, b as int));
            return Some(owned(seg));
        }
        assert forall|a2: int, b2: int|
            is_segment(path@, a2, b2) && a2 < b + 1 implies !is_lang_folder(#[trigger] path@.subrange(a2, b2), confirmed@) by {
            if a2 >= a {
                if a2 > a {
                    assert(path@[a2 - 1] == '/');
                    assert(false);
                }
                lemma_segment_unique(path@, a as int, b as int, b2);
            }
        }
        if b == n {
            assert forall|a2: int, b2: int|
                is_segment(path@, a2, b2) implies !is_lang_folder(#[trigger] path@.subrange(a2, b2), confirmed@) by {
                assert(a2 < b + 1);
            }
            return None;
        }
        a = b + 1;
    }
}

/// `path[a..b]` is the first segment of `path` equal to `code`.
pub open spec fn first_segment_eq(path: Seq<char>, code: Seq<char>, a: int, b: int) -> bool {
    &&& is_segment(path, a, b)
    &&& path.subrange(a, b) == code
    &&& forall|a2: int, b2: int| is_segment(path, a2, b2) && a2 < a ==> #[trigger] path.subrange(a2, b2) != code
}

/// The template made from `path` by putting `<lang>` in place of its first segment
/// equal to `code`, if any.
pub open spec fn path_pattern(path: Seq<char>, code: Seq<char>) -> Option<Seq<char>> {
    if exists|a: int, b: int| first_segment_eq(path, code, a, b) {
        let (a, b) = choose|a: int, b: int| first_segment_eq(path, code, a, b);
        Some(path.subrange(0, a) + "<lang>"@ + path.subrange(b, path.len() as int))
    } else {
        None
    }
}

proof fn lemma_first_segment_unique(path: Seq<char>, code: Seq<char>, a: int, b: int, a2: int, b2: int)
    requires
        first_segment_eq(path, code, a, b),
        first_segment_eq(path, code, a2, b2),
    ensures
        a == a2 && b == b2,
{
    if a < a2 {
        assert(path.subrange(a, b) != code);
    } else if a2 < a {
        assert(path.subrange(a2, b2) != code);
    }
    lemma_segment_unique(path, a, b, b2);
}

/// The template made from `path` by putting `<lang>` in place of its first segment
/// equal to `lang_code`: `po/zh_CN/a.po` with `zh_CN` gives `po/<lang>/a.po`.
pub fn try_extract_pattern_from_path(path_str: &str, lang_code: &str) -> (r: Option<String>)
    ensures
        r is None <==> !exists|a: int, b: int| is_segment(path_str@, a, b) && #[trigger] path_str@.subrange(a, b) == lang_code@,
        r is Some ==> exists|a: int, b: int|
            first_segment_eq(path_str@, lang_code@, a, b) && r->0@ == path_str@.subrange(0, a) + "<lang>"@
                + path_str@.subrange(b, path_str@.len() as int),
        r is None <==> path_pattern(path_str@, lang_code@) is None,
        r is Some ==> r->0@ == path_pattern(path_str@, lang_code@)->0,
{
    let n = path_str.unicode_len();
    let mut a: usize = 0;
    loop
        invariant
            n == path_str@.len(),
            a <= n,
            a == 0 || path_str@[a - 1] == '/',
            forall|a2: int, b2: int|
                is_segment(path_str@, a2, b2) && a2 < a ==> #[trigger] path_str@.subrange(a2, b2) != lang_code@,
        decreases n - a,
    {
        let b = find_char_from(path_str, '/', a);
        let seg = path_str.substring_char(a, b);
        if str_eq(seg, lang_code) {
            assert(is_segment(path_str@, a as int, b as int));
            assert(first_segment_eq(path_str@, lang_code@, a as int, b as int));
            proof {
                let (a2, b2) = choose|a2: int, b2: int| first_segment_eq(path_str@, lang_code@, a2, b2);
                lemma_first_segment_unique(path_str@, lang_code@, a as int, b as int, a2, b2);
            }
            let head = path_str.substring_char(0, a);
            let tail = path_str.substring_char(b, n);
            return Some(concat3(head, "<lang>", tail));
        }
        assert forall|a2: int, b2: int|
            is_segment(path_str@, a2, b2) && a2 < b + 1 implies #[trigger] path_str@.subrange(a2, b2) != lang_code@ by {
            if a2 >= a {
                if a2 > a {
                    assert(path_str@[a2 - 1] == '/');
                    assert(false);
                }
                lemma_segment_unique(path_str@, a as int, b as int, b2);
            }
        }
        if b == n {
            assert forall|a2: int, b2: int|
                is_segment(path_str@, a2, b2) implies #[trigger] path_str@.subrange(a2, b2) != lang_code@ by {
                assert(a2 < b + 1);
            }
            assert(!exists|a2: int, b2: int| first_segment_eq(path_str@, lang_code@, a2, b2));
            return None;
        }
        a = b + 1;
    }
}

/// The extension of a file name, empty when it has none.
pub open spec fn ext_or_empty(name: Seq<char>) -> Seq<char> {
    if has_extension(name) {
        extension_spec(name)
    } else {
        Seq::empty()
    }
}

fn ext_or_empty_of(name: &str) -> (r: &str)
    ensures
        r@ == ext_or_empty(name@),
{
    match extension_of(name) {
        Some(e) => e,
        None => {
            let e = "";
            proof {
                reveal_strlit("");
            }
            e
        },
    }
}

/// The template that a language code in a file name gives: `_code` becomes
/// `_<lang>` throughout, else `.code` becomes `.<lang>`, else a file name
/// `code.ext` becomes `<lang>.ext` in the same directory.
pub open spec fn filename_pattern(p: Seq<char>, code: Seq<char>) -> Option<Seq<char>> {
    if seq_contains(p, seq!['_'] + code) {
        Some(replace_all(p, seq!['_'] + code, "_<lang>"@))
    } else if seq_contains(p, seq!['.'] + code) {
        Some(replace_all(p, seq!['.'] + code, ".<lang>"@))
    } else if seq_starts_with(file_name_spec(p), code + seq!['.']) {
        let ext = ext_or_empty(file_name_spec(p));
        if parent_spec(p).len() == 0 {
            Some("<lang>."@ + ext)
        } else {
            Some(parent_spec(p) + "/<lang>."@ + ext)
        }
    } else {
        None
    }
}

pub fn try_extract_pattern_from_filename(path_str: &str, lang_code: &str) -> (r: Option<String>)
    ensures
        r is None <==> filename_pattern(path_str@, lang_code@) is None,
        r is Some ==> r->0@ == filename_pattern(path_str@, lang_code@)->0,
{
    proof {
        reveal_strlit("_");
        reveal_strlit(".");
    }
    let underscored = concat2("_", lang_code);
    assert(underscored@ == seq!['_'] + lang_code@);
    if str_contains(path_str, underscored.as_str()) {
        return Some(replace_str(path_str, underscored.as_str(), "_<lang>"));
    }
    let dotted = concat2(".", lang_code);
    assert(dotted@ == seq!['.'] + lang_code@);
    if str_contains(path_str, dotted.as_str()) {
        return Some(replace_str(path_str, dotted.as_str(), ".<lang>"));
    }
    let file_name = file_name_of(path_str);
    let code_dot = concat2(lang_code, ".");
    assert(code_dot@ == lang_code@ + seq!['.']);
    if str_starts_with(file_name, code_dot.as_str()) {
        let parent = parent_of(path_str);
        let ext = ext_or_empty_of(file_name);
        if parent.unicode_len() == 0 {
            Some(concat2("<lang>.", ext))
        } else {
            Some(concat3(parent, "/<lang>.", ext))
        }
    } else {
        None
    }
}

/// The template that language code `c` gives for `path`: from the file name, else
/// from a directory.
pub open spec fn code_pattern(path: Seq<char>, c: Seq<char>) -> Option<Seq<char>> {
    if filename_pattern(path, c) is Some {
        filename_pattern(path, c)
    } else {
        path_pattern(path, c)
    }
}

fn code_pattern_exec(path: &str, c: &str) -> (r: Option<String>)
    ensures
        r is None <==> code_pattern(path@, c@) is None,
        r is Some ==> r->0@ == code_pattern(path@, c@)->0,
{
    match try_extract_pattern_from_filename(path, c) {
        Some(p) => Some(p),
        None => try_extract_pattern_from_path(path, c),
    }
}

/// `c` is a language code found in `path`: the code of its file name, or a
/// directory that names a language.
pub open spec fn is_path_code(path: Seq<char>, confirmed: Seq<String>, c: Seq<char>) -> bool {
    filename_code(file_name_spec(path)) == Some(c) || exists|a: int, b: int|
        is_segment(path, a, b) && #[trigger] path.subrange(a, b) == c && is_lang_folder(c, confirmed)
}

/// `c` is a code found among the first directories (those starting before `end`) or in the file name.
pub open spec fn is_path_code_before(path: Seq<char>, confirmed: Seq<String>, c: Seq<char>, end: int) -> bool {
    filename_code(file_name_spec(path)) == Some(c) || exists|a: int, b: int|
        is_segment(path, a, b) && a < end && #[trigger] path.subrange(a, b) == c && is_lang_folder(c, confirmed)
}

/// `c` is the least code of `path` (in string order) that gives a template.
pub open spec fn is_least_pattern_code(path: Seq<char>, confirmed: Seq<String>, c: Seq<char>) -> bool {
    &&& is_path_code(path, confirmed, c)
    &&& code_pattern(path, c) is Some
    &&& forall|c2: Seq<char>|
        is_path_code(path, confirmed, c2) && (#[trigger] code_pattern(path, c2)) is Some ==> !seq_lt(c2, c)
}

/// What the file `o` of a list tells of the template of the code-less file `p`:
/// `None` to look further, `Some(None)` to give up, `Some(Some(t))` for template `t`.
/// `o` counts when it sits in the same directory with the same extension and,
/// without its language code, has the stem of `p`.
pub open spec fn infer_step(p: Seq<char>, o: Seq<char>) -> Option<Option<Seq<char>>> {
    let (fname, oname) = (file_name_spec(p), file_name_spec(o));
    if parent_spec(o) != parent_spec(p) {
        None
    } else if !has_extension(oname) {
        Some(None)
    } else if extension_spec(oname) != ext_or_empty(fname) {
        None
    } else {
        match filename_code(oname) {
            None => None,
            Some(code) => {
                let (ostem, stem) = (file_stem_spec(oname), file_stem_spec(fname));
                if (replace_all(ostem, seq!['_'] + code, Seq::empty()) == stem || replace_all(
                    ostem,
                    seq!['.'] + code,
                    Seq::empty(),
                ) == stem) && filename_pattern(o, code) is Some {
                    Some(filename_pattern(o, code))
                } else {
                    None
                }
            },
        }
    }
}

/// The template inferred for `p` from the first file of `files` that tells one.
pub open spec fn infer_over(p: Seq<char>, files: Seq<String>) -> Option<Seq<char>>
    decreases files.len(),
{
    if files.len() == 0 {
        None
    } else {
        match infer_step(p, files[0]@) {
            None => infer_over(p, files.drop_first()),
            Some(t) => t,
        }
    }
}

/// The template inferred for a file without a language code from a sibling file
/// that has one: `app.ts` beside `app_zh_CN.ts` gives `app_<lang>.ts`.
pub open spec fn inferred_pattern(p: Seq<char>, files: Seq<String>) -> Option<Seq<char>> {
    if has_extension(file_name_spec(p)) {
        infer_over(p, files)
    } else {
        None
    }
}

fn infer_step_exec(file_path: &str, other: &str) -> (r: Option<Option<String>>)
    ensures
        r is None <==> infer_step(file_path@, other@) is None,
        r is Some ==> (r->0 is None <==> infer_step(file_path@, other@)->0 is None),
        r is Some && r->0 is Some ==> r->0->0@ == infer_step(file_path@, other@)->0->0,
{
    let filename = file_name_of(file_path);
    let other_filename = file_name_of(other);
    if !str_eq(parent_of(other), parent_of(file_path)) {
        return None;
    }
    let other_ext = match extension_of(other_filename) {
        Some(e) => e,
        None => {
            return Some(None);
        },
    };
    let file_ext = ext_or_empty_of(filename);
    if !str_eq(other_ext, file_ext) {
        return None;
    }
    let codes = find_language_codes_in_filename(other_filename);
    if codes.len() == 0 {
        return None;
    }
    let code = codes[0].as_str();
    let other_stem = file_stem_of(other_filename);
    let file_stem = file_stem_of(filename);
    proof {
        reveal_strlit("_");
        reveal_strlit(".");
        reveal_strlit("");
        assert(""@ =~= Seq::<char>::empty());
    }
    let underscored = concat2("_", code);
    let dotted = concat2(".", code);
    assert(underscored@ == seq!['_'] + code@);
    assert(dotted@ == seq!['.'] + code@);
    let base1 = replace_str(other_stem, underscored.as_str(), "");
    let base2 = replace_str(other_stem, dotted.as_str(), "");
    if str_eq(base1.as_str(), file_stem) || str_eq(base2.as_str(), file_stem) {
        match try_extract_pattern_from_filename(other, code) {
            Some(t) => Some(Some(t)),
            None => None,
        }
    } else {
        None
    }
}

fn has_ext_exec(name: &str) -> (r: bool)
    ensures
        r == has_extension(name@),
{
    extension_of(name).is_some()
}

/// The template of a code-less file inferred from a sibling file with a code.
pub fn infer_pattern_from_related_files(file_path: &str, all_files: &Vec<String>) -> (r: Option<String>)
    ensures
        r is None <==> inferred_pattern(file_path@, all_files@) is None,
        r is Some ==> r->0@ == inferred_pattern(file_path@, all_files@)->0,
{
    if !has_ext_exec(file_name_of(file_path)) {
        return None;
    }
    let mut i: usize = 0;
    assert(all_files@.skip(0) =~= all_files@);
    while i < all_files.len()
        invariant
            i <= all_files@.len(),
            has_extension(file_name_spec(file_path@)),
            infer_over(file_path@, all_files@) == infer_over(file_path@, all_files@.skip(i as int)),
        decreases all_files@.len() - i,
    {
        proof {
            assert(all_files@.skip(i as int).drop_first() =~= all_files@.skip(i + 1));
            assert(all_files@.skip(i as int)[0] == all_files@[i as int]);
        }
        match infer_step_exec(file_path, all_files[i].as_str()) {
            None => {},
            Some(t) => {
                return t;
            },
        }
        i = i + 1;
    }
    None
}

/// The template that groups `path` with its translations (its family key): the
/// template of the least language code of `path` that gives one; for a path
/// without any code, the template inferred from a sibling; else `path` itself.
#[verifier::opaque]
pub open spec fn pattern_key(path: Seq<char>, confirmed: Seq<String>, files: Seq<String>, r: Seq<char>) -> bool {
    if exists|c: Seq<char>| is_least_pattern_code(path, confirmed, c) {
        exists|c: Seq<char>| is_least_pattern_code(path, confirmed, c) && r == (#[trigger] code_pattern(path, c))->0
    } else if !(exists|c: Seq<char>| is_path_code(path, confirmed, c)) && inferred_pattern(path, files) is Some {
        r == inferred_pattern(path, files)->0
    } else {
        r == path
    }
}

/// A language code with the template it gives.
pub struct CodePattern {
    pub code: String,
    pub pattern: String,
}

/// Keeps in `best` the least code that gives a template, with its template.
fn consider_code(file_path: &str, code: &str, best: &mut Option<CodePattern>)
    ensures
        code_pattern(file_path@, code@) is None ==> *final(best) == *old(best),
        code_pattern(file_path@, code@) is Some && ((*old(best)) is None || seq_lt(code@, (*old(best))->0.code@))
            ==> (*final(best)) is Some && (*final(best))->0.code@ == code@ && (*final(best))->0.pattern@
            == code_pattern(file_path@, code@)->0,
        code_pattern(file_path@, code@) is Some && (*old(best)) is Some && !seq_lt(code@, (*old(best))->0.code@)
            ==> *final(best) == *old(best),
{
    match code_pattern_exec(file_path, code) {
        Some(pattern) => {
            let replace = match best {
                Some(cp) => lex_less(code, cp.code.as_str(), false),
                None => true,
            };
            if replace {
                *best = Some(CodePattern { code: owned(code), pattern });
            }
        },
        None => {},
    }
}

/// The family key of `file_path`: see `pattern_key`. `confirmed` lists the
/// directory names of the path that the file system confirms as language
/// directories.
pub fn get_translation_pattern_with_inference(file_path: &str, all_files: &Vec<String>, confirmed: &Vec<String>) -> (r: String)
    ensures
        pattern_key(file_path@, confirmed@, all_files@, r@),
{
    let ghost p = file_path@;
    let mut best: Option<CodePattern> = None;
    let mut any_code = false;
    let filename = file_name_of(file_path);
    let fcodes = find_language_codes_in_filename(filename);
    if fcodes.len() > 0 {
        any_code = true;
        consider_code(file_path, fcodes[0].as_str(), &mut best);
    }
    let n = file_path.unicode_len();
    let mut a: usize = 0;
    let mut done = false;
    let ghost mut cov: int = 0;
    proof {
        if fcodes@.len() > 0 {
            assert(is_path_code_before(p, confirmed@, fcodes@[0]@, 0));
            crate::text::lemma_seq_lt_irreflexive(fcodes@[0]@);
        } else {
            assert forall|c: Seq<char>| !is_path_code_before(p, confirmed@, c, 0) by {}
        }
    }
    while !done
        invariant
            n == p.len(),
            p == file_path@,
            a <= n,
            !done ==> cov == a,
            done ==> cov == n + 1,
            a == 0 || p[a - 1] == '/',
            any_code <==> exists|c: Seq<char>| is_path_code_before(p, confirmed@, c, cov),
            best is None ==> forall|c: Seq<char>|
                is_path_code_before(p, confirmed@, c, cov) ==> (#[trigger] code_pattern(p, c)) is None,
            best is Some ==> {
                &&& is_path_code_before(p, confirmed@, best->0.code@, cov)
                &&& code_pattern(p, best->0.code@) is Some
                &&& best->0.pattern@ == code_pattern(p, best->0.code@)->0
                &&& forall|c: Seq<char>|
                    is_path_code_before(p, confirmed@, c, cov) && (#[trigger] code_pattern(p, c)) is Some
                        ==> !seq_lt(c, best->0.code@)
            },
        decreases n + 1 - cov,
    {
        let b = find_char_from(file_path, '/', a);
        let seg = file_path.substring_char(a, b);
        let ghost old_best = best;
        let folder = is_lang_folder_exec(seg, confirmed);
        if folder {
            any_code = true;
            consider_code(file_path, seg, &mut best);
        }
        proof {
            let e: int = b + 1;
            assert(is_segment(p, a as int, b as int));
            assert forall|c: Seq<char>|
                is_path_code_before(p, confirmed@, c, e) implies is_path_code_before(p, confirmed@, c, a as int)
                    || (c == seg@ && folder) by {
                if filename_code(file_name_spec(p)) != Some(c) {
                    let (a2, b2) = choose|a2: int, b2: int|
                        is_segment(p, a2, b2) && a2 < e && #[trigger] p.subrange(a2, b2) == c
                            && is_lang_folder(c, confirmed@);
                    if a2 >= a {
                        if a2 > a {
                            assert(p[a2 - 1] == '/');
                            assert(false);
                        }
                        lemma_segment_unique(p, a as int, b as int, b2);
                    }
                }
            }
            assert forall|c: Seq<char>|
                is_path_code_before(p, confirmed@, c, a as int) implies is_path_code_before(p, confirmed@, c, e) by {
                if filename_code(file_name_spec(p)) != Some(c) {
                    let (a2, b2) = choose|a2: int, b2: int|
                        is_segment(p, a2, b2) && a2 < a && #[trigger] p.subrange(a2, b2) == c
                            && is_lang_folder(c, confirmed@);
                    assert(is_segment(p, a2, b2) && a2 < e && p.subrange(a2, b2) == c);
                }
            }
            if folder {
                assert(is_path_code_before(p, confirmed@, seg@, e));
            }
            if exists|c: Seq<char>| is_path_code_before(p, confirmed@, c, a as int) {
                let w = choose|c: Seq<char>| is_path_code_before(p, confirmed@, c, a as int);
                assert(is_path_code_before(p, confirmed@, w, e));
            }
            if exists|c: Seq<char>| is_path_code_before(p, confirmed@, c, e) {
                let w = choose|c: Seq<char>| is_path_code_before(p, confirmed@, c, e);
                assert(is_path_code_before(p, confirmed@, w, a as int) || (w == seg@ && folder));
            }
            if folder && code_pattern(p, seg@) is Some && (old_best is None || seq_lt(seg@, old_best->0.code@)) {
                crate::text::lemma_seq_lt_irreflexive(seg@);
                assert forall|c: Seq<char>|
                    is_path_code_before(p, confirmed@, c, e) && (#[trigger] code_pattern(p, c)) is Some
                        implies !seq_lt(c, seg@) by {
                    if is_path_code_before(p, confirmed@, c, a as int) {
                        if seq_lt(c, seg@) {
                            lemma_seq_lt_transitive(c, seg@, old_best->0.code@);
                        }
                    }
                }
            } else {
                assert(best == old_best);
                assert forall|c: Seq<char>|
                    is_path_code_before(p, confirmed@, c, e) && (#[trigger] code_pattern(p, c)) is Some
                        implies best is Some && !seq_lt(c, best->0.code@) by {
                    if is_path_code_before(p, confirmed@, c, a as int) {
                    } else {
                        assert(c == seg@ && folder);
                    }
                }
            }
        }
        if b == n {
            done = true;
            proof {
                cov = n + 1;
            }
        } else {
            a = b + 1;
            proof {
                cov = a as int;
            }
        }
    }
    proof {
        assert forall|c: Seq<char>| is_path_code(p, confirmed@, c) <==> is_path_code_before(p, confirmed@, c, cov) by {
            if is_path_code_before(p, confirmed@, c, cov) && filename_code(file_name_spec(p)) != Some(c) {
                let (a2, b2) = choose|a2: int, b2: int|
                    is_segment(p, a2, b2) && a2 < cov && #[trigger] p.subrange(a2, b2) == c
                        && is_lang_folder(c, confirmed@);
                assert(is_segment(p, a2, b2) && p.subrange(a2, b2) == c && is_lang_folder(c, confirmed@));
            }
            if is_path_code(p, confirmed@, c) && filename_code(file_name_spec(p)) != Some(c) {
                let (a2, b2) = choose|a2: int, b2: int|
                    is_segment(p, a2, b2) && #[trigger] p.subrange(a2, b2) == c && is_lang_folder(c, confirmed@);
                assert(is_segment(p, a2, b2) && a2 < cov && p.subrange(a2, b2) == c);
            }
        }
    }
    match best {
        Some(cp) => {
            reveal(pattern_key);
            assert(is_least_pattern_code(p, confirmed@, cp.code@));
            assert(exists|c: Seq<char>| is_least_pattern_code(p, confirmed@, c) && cp.pattern@ == (#[trigger] code_pattern(p, c))->0);
            cp.pattern
        },
        None => {
            proof {
                reveal(pattern_key);
                assert forall|c: Seq<char>| !is_least_pattern_code(p, confirmed@, c) by {
                    if is_path_code(p, confirmed@, c) {
                        assert(is_path_code_before(p, confirmed@, c, cov));
                    }
                }
                if any_code {
                    let w = choose|c: Seq<char>| is_path_code_before(p, confirmed@, c, cov);
                    assert(is_path_code(p, confirmed@, w));
                } else {
                    assert forall|c: Seq<char>| !is_path_code(p, confirmed@, c) by {
                        if is_path_code(p, confirmed@, c) {
                            assert(is_path_code_before(p, confirmed@, c, cov));
                        }
                    }
                }
            }
            if !any_code {
                match infer_pattern_from_related_files(file_path, all_files) {
                    Some(t) => t,
                    None => owned(file_path),
                }
            } else {
                owned(file_path)
            }
        },
    }
}

/// `s` up to its first `.`.
pub open spec fn before_dot(s: Seq<char>, k: int) -> bool {
    0 <= k <= s.len() && free_of(s, '.', 0, k) && (k == s.len() || s[k] == '.')
}

/// `f` is a translation of `src`: another file in its directory with its extension,
/// named after its stem, `_`, and a language code (`app.ts` and `app_de.ts`).
pub open spec fn is_related_file(src: Seq<char>, f: Seq<char>) -> bool {
    let (sname, fname) = (file_name_spec(src), file_name_spec(f));
    let (stem, ext) = (file_stem_spec(sname), ext_or_empty(sname));
    let suffix = fname.subrange(stem.len() as int + 1, fname.len() as int);
    &&& f != src
    &&& parent_spec(f) == parent_spec(src)
    &&& ext_or_empty(fname) == ext
    &&& seq_starts_with(fname, stem.push('_'))
    &&& !seq_starts_with(suffix, ext)
    &&& exists|k: int| before_dot(suffix, k) && is_lang_code(#[trigger] suffix.subrange(0, k))
}

fn is_related_file_exec(source_file: &str, file: &str) -> (r: bool)
    ensures
        r == is_related_file(source_file@, file@),
{
    if str_eq(file, source_file) {
        return false;
    }
    if !str_eq(parent_of(file), parent_of(source_file)) {
        return false;
    }
    let sname = file_name_of(source_file);
    let fname = file_name_of(file);
    let source_name = file_stem_of(sname);
    let source_ext = ext_or_empty_of(sname);
    if !str_eq(ext_or_empty_of(fname), source_ext) {
        return false;
    }
    proof {
        reveal_strlit("_");
    }
    let prefix = concat2(source_name, "_");
    assert(prefix@ == source_name@.push('_'));
    if !str_starts_with(fname, prefix.as_str()) {
        return false;
    }
    let n = fname.unicode_len();
    let suffix = fname.substring_char(source_name.unicode_len() + 1, n);
    if str_starts_with(suffix, source_ext) {
        return false;
    }
    let k = find_char_from(suffix, '.', 0);
    let lang_part = suffix.substring_char(0, k);
    let r = is_language_code(lang_part);
    proof {
        assert(before_dot(suffix@, k as int));
        assert forall|k2: int| before_dot(suffix@, k2) implies k2 == k by {
            if k2 < k {
                assert(suffix@[k2] == '.');
            } else if k < k2 {
                assert(suffix@[k as int] == '.');
            }
        }
        assert(lang_part@ == suffix@.subrange(0, k as int));
        let spec_suffix = fname@.subrange(source_name@.len() as int + 1, fname@.len() as int);
        assert(suffix@ == spec_suffix);
        if r {
            assert(before_dot(spec_suffix, k as int) && is_lang_code(spec_suffix.subrange(0, k as int)));
        } else {
            assert(!exists|k2: int| before_dot(spec_suffix, k2) && is_lang_code(#[trigger] spec_suffix.subrange(0, k2)));
        }
        assert(file@ != source_file@);
        assert(parent_spec(file@) == parent_spec(source_file@));
        assert(ext_or_empty(fname@) == source_ext@);
        assert(seq_starts_with(fname@, source_name@.push('_')));
        assert(!seq_starts_with(spec_suffix, source_ext@));
        assert(r == is_related_file(source_file@, file@));
    }
    r
}

/// Whether some other file of `all_files` is a translation of `source_file`.
pub fn has_related_translation_files(source_file: &str, all_files: &Vec<String>) -> (r: bool)
    ensures
        r == exists|i: int| 0 <= i < all_files@.len() && is_related_file(source_file@, (#[trigger] all_files@[i])@),
{
    let mut i: usize = 0;
    while i < all_files.len()
        invariant
            i <= all_files@.len(),
            forall|k: int| 0 <= k < i ==> !is_related_file(source_file@, (#[trigger] all_files@[k])@),
        decreases all_files@.len() - i,
    {
        if is_related_file_exec(source_file, all_files[i].as_str()) {
            return true;
        }
        i = i + 1;
    }
    false
}

/// Whether a translation file is likely a source: its name marks English; or it
/// sits under a language directory, which is English; or, with no non-English
/// code in its name, it has translations beside it, or it is a Linguist file, or
/// a Gettext file with a common source name.
pub open spec fn is_likely_source(path: Seq<char>, files: Seq<String>, confirmed: Seq<String>) -> bool {
    let fname = file_name_spec(path);
    if is_english_source_name(fname) {
        true
    } else if exists|a: int, b: int| is_segment(path, a, b) && is_lang_folder(#[trigger] path.subrange(a, b), confirmed) {
        exists|a: int, b: int|
            first_lang_folder(path, confirmed, a, b) && is_english_code(#[trigger] path.subrange(a, b))
    } else if has_non_english_code(fname) {
        false
    } else if exists|i: int| 0 <= i < files.len() && is_related_file(path, (#[trigger] files[i])@) {
        true
    } else if has_extension(fname) && extension_spec(fname) == "ts"@ {
        true
    } else if has_extension(fname) && extension_spec(fname) == "po"@ {
        is_common_source_po_name(fname)
    } else {
        false
    }
}

pub fn is_likely_source_file(file_path: &str, all_files: &Vec<String>, confirmed: &Vec<String>) -> (r: bool)
    ensures
        r == is_likely_source(file_path@, all_files@, confirmed@),
{
    let filename = file_name_of(file_path);
    if is_english_source_file(filename) {
        return true;
    }
    match get_language_folder_in_path(file_path, confirmed) {
        Some(lang_folder) => {
            let r = is_english_language_code(lang_folder.as_str());
            proof {
                let (a, b) = choose|a: int, b: int|
                    first_lang_folder(file_path@, confirmed@, a, b) && lang_folder@ == #[trigger] file_path@.subrange(a, b);
                assert forall|a2: int, b2: int| first_lang_folder(file_path@, confirmed@, a2, b2) implies a2 == a && b2 == b by {
                    if a2 < a {
                        assert(!is_lang_folder(file_path@.subrange(a2, b2), confirmed@));
                    } else if a < a2 {
                        assert(!is_lang_folder(file_path@.subrange(a, b), confirmed@));
                    }
                    lemma_segment_unique(file_path@, a, b, b2);
                }
            }
            return r;
        },
        None => {},
    }
    if contains_non_english_language_code(filename) {
        return false;
    }
    if has_related_translation_files(file_path, all_files) {
        return true;
    }
    match extension_of(filename) {
        Some(ext) => {
            if str_eq(ext, "ts") {
                true
            } else if str_eq(ext, "po") {
                is_common_source_po_file(filename)
            } else {
                false
            }
        },
        None => false,
    }
}

/// A translation file found under the project root, with the directory names of
/// its path that the file system confirms as language directories.
#[derive(Debug, Clone)]
pub struct FoundFile {
    pub path: String,
    pub language_dirs: Vec<String>,
}

pub open spec fn found_paths(files: Seq<FoundFile>) -> Seq<String> {
    files.map_values(|f: FoundFile| f.path)
}

/// File `i` is a likely source file.
#[verifier::opaque]
pub open spec fn is_candidate(files: Seq<FoundFile>, i: int) -> bool {
    is_likely_source(files[i].path@, found_paths(files), files[i].language_dirs@)
}

proof fn lemma_candidate(files: Seq<FoundFile>, i: int)
    ensures
        is_candidate(files, i) == is_likely_source(files[i].path@, found_paths(files), files[i].language_dirs@),
{
    reveal(is_candidate);
}

/// Candidate `i` is the pick of its family (the candidates with its key): no
/// member has a higher priority, and no earlier member the same.
#[verifier::opaque]
pub open spec fn is_family_pick(files: Seq<FoundFile>, keys: Seq<Seq<char>>, i: int) -> bool {
    &&& 0 <= i < files.len()
    &&& is_candidate(files, i)
    &&& forall|j: int|
        0 <= j < files.len() && is_candidate(files, j) && keys[j] == keys[i] ==> {
            &&& source_priority(files[j].path@) <= source_priority(files[i].path@)
            &&& (j < i ==> source_priority(files[j].path@) < source_priority(files[i].path@))
        }
}

/// Some element of `v` is the path `y`.
pub open spec fn has_path(v: Seq<String>, y: Seq<char>) -> bool {
    exists|i: int| 0 <= i < v.len() && (#[trigger] v[i])@ == y
}

/// Some file before `bound` is the pick of its family, with path `y`.
pub open spec fn is_pick_path(files: Seq<FoundFile>, keys: Seq<Seq<char>>, y: Seq<char>, bound: int) -> bool {
    exists|k: int| 0 <= k < bound && is_family_pick(files, keys, k) && (#[trigger] files[k]).path@ == y
}

/// `v` is in strictly increasing path order.
pub open spec fn path_sorted(v: Seq<String>) -> bool {
    forall|i: int, j: int| 0 <= i < j < v.len() ==> path_lt((#[trigger] v[i])@, (#[trigger] v[j])@)
}

/// `r` holds the picks of the families that the keys `keys` (valid family keys of
/// the candidates) define, and nothing else.
pub open spec fn source_selection(files: Seq<FoundFile>, keys: Seq<Seq<char>>, r: Seq<String>) -> bool {
    &&& keys.len() == files.len()
    &&& forall|i: int|
        0 <= i < files.len() && is_candidate(files, i) ==> pattern_key(
            files[i].path@,
            files[i].language_dirs@,
            found_paths(files),
            #[trigger] keys[i],
        )
    &&& forall|y: Seq<char>| #[trigger] has_path(r, y) <==> is_pick_path(files, keys, y, files.len() as int)
}

/// Adds `x` to the sorted list `out`, unless it is there already.
pub fn insert_sorted(out: &mut Vec<String>, x: String)
    requires
        path_sorted(old(out)@),
    ensures
        path_sorted(final(out)@),
        forall|y: Seq<char>| #[trigger] has_path(final(out)@, y) <==> (y == x@ || has_path(old(out)@, y)),
{
    let n = out.len();
    let mut k: usize = 0;
    while k < n && lex_less(out[k].as_str(), x.as_str(), true)
        invariant
            n == out@.len(),
            k <= n,
            forall|i: int| 0 <= i < k ==> path_lt((#[trigger] out@[i])@, x@),
        decreases n - k,
    {
        k = k + 1;
    }
    let ghost before = out@;
    if k < n && str_eq(out[k].as_str(), x.as_str()) {
        return;
    }
    proof {
        if k < n {
            lemma_path_lt_order(out@[k as int]@, x@, x@);
            lemma_path_lt_order(x@, out@[k as int]@, x@);
        }
    }
    out.insert(k, x);
    proof {
        assert forall|i: int, j: int| 0 <= i < j < out@.len() implies path_lt((#[trigger] out@[i])@, (#[trigger] out@[j])@) by {
            if j == k {
            } else if i == k {
                lemma_path_lt_order(x@, before[k as int]@, before[j - 1]@);
            } else if i < k && j > k {
                lemma_path_lt_order(before[i]@, x@, before[j - 1]@);
            } else if i > k {
                assert(path_lt(before[i - 1]@, before[j - 1]@));
            } else {
                assert(path_lt(before[i]@, before[j]@));
            }
        }
        assert forall|y: Seq<char>| #[trigger] has_path(out@, y) <==> (y == x@ || has_path(before, y)) by {
            if has_path(out@, y) {
                let i = choose|i: int| 0 <= i < out@.len() && (#[trigger] out@[i])@ == y;
                if i < k {
                    assert(before[i]@ == y);
                } else if i > k {
                    assert(before[i - 1]@ == y);
                }
            }
            if has_path(before, y) {
                let i = choose|i: int| 0 <= i < before.len() && (#[trigger] before[i])@ == y;
                if i < k {
                    assert(out@[i]@ == y);
                } else {
                    assert(out@[i + 1]@ == y);
                }
            }
            if y == x@ {
                assert(out@[k as int]@ == y);
            }
        }
    }
}

/// Whether file `i` is the pick of its family, given the candidacy, key and
/// priority of every file.
fn is_pick_exec(files: &Vec<FoundFile>, cand: &Vec<bool>, keys: &Vec<String>, prio: &Vec<u32>, i: usize) -> (r: bool)
    requires
        i < files@.len(),
        cand@.len() == files@.len(),
        keys@.len() == files@.len(),
        prio@.len() == files@.len(),
        forall|k: int| 0 <= k < files@.len() ==> #[trigger] cand@[k] == is_candidate(files@, k),
        forall|k: int| 0 <= k < files@.len() ==> #[trigger] prio@[k] == source_priority(files@[k].path@),
    ensures
        r == is_family_pick(files@, keys@.map_values(|k: String| k@), i as int),
{
    let ghost kv = keys@.map_values(|k: String| k@);
    reveal(is_family_pick);
    if !cand[i] {
        return false;
    }
    let n = files.len();
    let mut j: usize = 0;
    while j < n
        invariant
            n == files@.len(),
            i < n,
            j <= n,
            cand@.len() == n,
            keys@.len() == n,
            prio@.len() == n,
            kv == keys@.map_values(|k: String| k@),
            forall|k: int| 0 <= k < n ==> #[trigger] cand@[k] == is_candidate(files@, k),
            forall|k: int| 0 <= k < n ==> #[trigger] prio@[k] == source_priority(files@[k].path@),
            is_candidate(files@, i as int),
            forall|l: int|
                0 <= l < j && is_candidate(files@, l) && kv[l] == kv[i as int] ==> {
                    &&& source_priority((#[trigger] files@[l]).path@) <= source_priority(files@[i as int].path@)
                    &&& (l < i ==> source_priority(files@[l].path@) < source_priority(files@[i as int].path@))
                },
        decreases n - j,
    {
        assert(kv[j as int] == keys@[j as int]@ && kv[i as int] == keys@[i as int]@);
        if cand[j] && str_eq(keys[j].as_str(), keys[i].as_str()) {
            if prio[j] > prio[i] || (j < i && prio[j] == prio[i]) {
                assert(!is_family_pick(files@, kv, i as int)) by {
                    reveal(is_family_pick);
                    assert(is_candidate(files@, j as int) && kv[j as int] == kv[i as int]);
                }
                return false;
            }
        }
        j = j + 1;
    }
    true
}

/// The source files among `files`: the likely sources, grouped into families by
/// their template (`pattern_key`), and of each family the file of the highest
/// priority, the first of them on a tie. The result is in path order.
pub fn identify_source_files(files: &Vec<FoundFile>) -> (r: Vec<String>)
    ensures
        path_sorted(r@),
        exists|keys: Seq<Seq<char>>| #[trigger] source_selection(files@, keys, r@),
{
    let n = files.len();
    let mut paths: Vec<String> = Vec::new();
    let mut i: usize = 0;
    while i < n
        invariant
            n == files@.len(),
            i <= n,
            paths@.len() == i,
            forall|k: int| 0 <= k < i ==> #[trigger] paths@[k] == files@[k].path,
        decreases n - i,
    {
        paths.push(files[i].path.clone());
        i = i + 1;
    }
    assert(paths@ =~= found_paths(files@));
    let mut cand: Vec<bool> = Vec::new();
    let mut keys: Vec<String> = Vec::new();
    let mut prio: Vec<u32> = Vec::new();
    i = 0;
    while i < n
        invariant
            n == files@.len(),
            paths@ == found_paths(files@),
            i <= n,
            cand@.len() == i,
            keys@.len() == i,
            prio@.len() == i,
            forall|k: int| 0 <= k < i ==> #[trigger] cand@[k] == is_candidate(files@, k),
            forall|k: int| 0 <= k < i ==> #[trigger] prio@[k] == source_priority(files@[k].path@),
            forall|k: int|
                0 <= k < i && is_candidate(files@, k) ==> pattern_key(
                    files@[k].path@,
                    files@[k].language_dirs@,
                    found_paths(files@),
                    (#[trigger] keys@[k])@,
                ),
        decreases n - i,
    {
        let f = &files[i];
        let c = is_likely_source_file(f.path.as_str(), &paths, &f.language_dirs);
        proof {
            lemma_candidate(files@, i as int);
        }
        cand.push(c);
        if c {
            keys.push(get_translation_pattern_with_inference(f.path.as_str(), &paths, &f.language_dirs));
        } else {
            keys.push(String::new());
        }
        prio.push(get_source_file_priority(f.path.as_str()));
        i = i + 1;
    }
    let ghost kv = keys@.map_values(|k: String| k@);
    let mut out: Vec<String> = Vec::new();
    i = 0;
    while i < n
        invariant
            n == files@.len(),
            i <= n,
            cand@.len() == n,
            keys@.len() == n,
            prio@.len() == n,
            kv == keys@.map_values(|k: String| k@),
            forall|k: int| 0 <= k < n ==> #[trigger] cand@[k] == is_candidate(files@, k),
            forall|k: int| 0 <= k < n ==> #[trigger] prio@[k] == source_priority(files@[k].path@),
            path_sorted(out@),
            forall|y: Seq<char>| #[trigger] has_path(out@, y) <==> is_pick_path(files@, kv, y, i as int),
        decreases n - i,
    {
        let pick = is_pick_exec(files, &cand, &keys, &prio, i);
        if pick {
            insert_sorted(&mut out, files[i].path.clone());
        }
        proof {
            assert forall|y: Seq<char>| #[trigger] has_path(out@, y) <==> is_pick_path(files@, kv, y, i + 1) by {
                if is_pick_path(files@, kv, y, i + 1) {
                    let k = choose|k: int| 0 <= k < i + 1 && is_family_pick(files@, kv, k) && (#[trigger] files@[k]).path@ == y;
                    if k < i {
                        assert(is_pick_path(files@, kv, y, i as int));
                    }
                }
                if is_pick_path(files@, kv, y, i as int) {
                    let k = choose|k: int| 0 <= k < i && is_family_pick(files@, kv, k) && (#[trigger] files@[k]).path@ == y;
                    assert(0 <= k < i + 1 && is_family_pick(files@, kv, k) && files@[k].path@ == y);
                }
            }
        }
        i = i + 1;
    }
    proof {
        assert forall|k: int|
            0 <= k < files@.len() && is_candidate(files@, k) implies pattern_key(
                files@[k].path@,
                files@[k].language_dirs@,
                found_paths(files@),
                #[trigger] kv[k],
            ) by {}
        assert(source_selection(files@, kv, out@));
    }
    out
}

/// `path[a..b]` is the first segment of `path` that is an English code.
pub open spec fn first_english_segment(path: Seq<char>, a: int, b: int) -> bool {
    &&& is_segment(path, a, b)
    &&& is_english_code(path.subrange(a, b))
    &&& forall|a2: int, b2: int| is_segment(path, a2, b2) && a2 < a ==> !is_english_code(#[trigger] path.subrange(a2, b2))
}

/// The template of translation files for a source file: its English code
/// (`_en_US`, `_en.`, `.en.`) becomes `<lang>`; else its first English directory
/// does; else `_<lang>` goes before the last `.` (or at the end).
pub open spec fn translation_expression(s: Seq<char>) -> Seq<char> {
    if seq_contains(s, "_en_US"@) {
        replace_all(s, "_en_US"@, "_<lang>"@)
    } else if seq_contains(s, "_en."@) {
        replace_all(s, "_en."@, "_<lang>."@)
    } else if seq_contains(s, ".en."@) {
        replace_all(s, ".en."@, ".<lang>."@)
    } else if exists|a: int, b: int| first_english_segment(s, a, b) {
        let (a, b) = choose|a: int, b: int| first_english_segment(s, a, b);
        s.subrange(0, a) + "<lang>"@ + s.subrange(b, s.len() as int)
    } else if last_index(s, '.') >= 0 {
        s.subrange(0, last_index(s, '.')) + "_<lang>"@ + s.subrange(last_index(s, '.'), s.len() as int)
    } else {
        s + "_<lang>"@
    }
}

pub fn generate_translation_expression(source_file: &str) -> (r: String)
    ensures
        r@ == translation_expression(source_file@),
{
    proof {
        reveal_strlit("_en_US");
        reveal_strlit("_en.");
        reveal_strlit(".en.");
    }
    if str_contains(source_file, "_en_US") {
        return replace_str(source_file, "_en_US", "_<lang>");
    } else if str_contains(source_file, "_en.") {
        return replace_str(source_file, "_en.", "_<lang>.");
    } else if str_contains(source_file, ".en.") {
        return replace_str(source_file, ".en.", ".<lang>.");
    }
    let n = source_file.unicode_len();
    let mut a: usize = 0;
    loop
        invariant
            n == source_file@.len(),
            !seq_contains(source_file@, "_en_US"@),
            !seq_contains(source_file@, "_en."@),
            !seq_contains(source_file@, ".en."@),
            a <= n,
            a == 0 || source_file@[a - 1] == '/',
            forall|a2: int, b2: int|
                is_segment(source_file@, a2, b2) && a2 < a ==> !is_english_code(#[trigger] source_file@.subrange(a2, b2)),
        ensures
            n == source_file@.len(),
            !seq_contains(source_file@, "_en_US"@),
            !seq_contains(source_file@, "_en."@),
            !seq_contains(source_file@, ".en."@),
            forall|a2: int, b2: int|
                is_segment(source_file@, a2, b2) ==> !is_english_code(#[trigger] source_file@.subrange(a2, b2)),
        decreases n - a,
    {
        let b = find_char_from(source_file, '/', a);
        let seg = source_file.substring_char(a, b);
        if is_english_language_code(seg) {
            proof {
                assert(first_english_segment(source_file@, a as int, b as int));
                let (a2, b2) = choose|a2: int, b2: int| first_english_segment(source_file@, a2, b2);
                if a2 < a {
                    assert(!is_english_code(source_file@.subrange(a2, b2)));
                } else if a < a2 {
                    assert(!is_english_code(source_file@.subrange(a as int, b as int)));
                }
                lemma_segment_unique(source_file@, a as int, b as int, b2);
            }
            let head = source_file.substring_char(0, a);
            let tail = source_file.substring_char(b, n);
            return concat3(head, "<lang>", tail);
        }
        assert forall|a2: int, b2: int|
            is_segment(source_file@, a2, b2) && a2 < b + 1 implies !is_english_code(#[trigger] source_file@.subrange(a2, b2)) by {
            if a2 >= a {
                if a2 > a {
                    assert(source_file@[a2 - 1] == '/');
                    assert(false);
                }
                lemma_segment_unique(source_file@, a as int, b as int, b2);
            }
        }
        if b == n {
            assert forall|a2: int, b2: int|
                is_segment(source_file@, a2, b2) implies !is_english_code(#[trigger] source_file@.subrange(a2, b2)) by {
                assert(a2 < b + 1);
            }
            break;
        }
        a = b + 1;
    }
    proof {
        lemma_last_index(source_file@, '.');
    }
    match last_index_of(source_file, '.') {
        Some(k) => {
            let name = source_file.substring_char(0, k);
            let ext = source_file.substring_char(k, n);
            concat3(name, "_<lang>", ext)
        },
        None => concat2(source_file, "_<lang>"),
    }
}

/// Why no project description could be generated.
#[derive(Debug, Clone, PartialEq, Eq)]
pub enum CmdError {
    /// The file's extension names no translation-file kind.
    UnknownI18nFileType { path: String },
}

/// The `file_format` of a kind: `QT` for Linguist, `PO` for Gettext.
pub open spec fn format_name(k: I18nFileKind) -> Seq<char> {
    match k {
        I18nFileKind::Linguist => "QT"@,
        I18nFileKind::Gettext => "PO"@,
    }
}

/// The file filter generated for the source file `path` of kind `k`.
pub open spec fn is_generated_filter(f: Filter, path: Seq<char>, k: I18nFileKind) -> bool {
    &&& f.type_attr@ == "file"@
    &&& f.source@ == path
    &&& f.format@ == format_name(k)
    &&& f.source_lang@ == "en_US"@
    &&& f.target_pattern@ == translation_expression(path)
}

/// The `transifex.yaml` description of the given source files (relative to the
/// project root), one filter per file in order; fails on the first file whose
/// extension names no translation-file kind.
pub fn generate_transifex_yaml(translation_files: &Vec<String>) -> (r: Result<TransifexYaml, CmdError>)
    ensures
        (forall|i: int| 0 <= i < translation_files@.len() ==> (#[trigger] kind_of_ext(ext_hint(translation_files@[i]@))) is Some) <==> r is Ok,
        r is Err ==> exists|i: int|
            0 <= i < translation_files@.len() && kind_of_ext(ext_hint(translation_files@[i]@)) is None && (forall|j: int|
                0 <= j < i ==> (#[trigger] kind_of_ext(ext_hint(translation_files@[j]@))) is Some) && r->Err_0
                == (CmdError::UnknownI18nFileType { path: translation_files@[i] }),
        r is Ok ==> {
            &&& r->Ok_0.filters@.len() == translation_files@.len()
            &&& r->Ok_0.settings.branch_template@ == branch_template_spec()
            &&& forall|i: int|
                0 <= i < translation_files@.len() ==> is_generated_filter(
                    #[trigger] r->Ok_0.filters@[i],
                    translation_files@[i]@,
                    kind_of_ext(ext_hint(translation_files@[i]@))->0,
                )
        },
{
    let mut filters: Vec<Filter> = Vec::new();
    let mut i: usize = 0;
    while i < translation_files.len()
        invariant
            i <= translation_files@.len(),
            filters@.len() == i,
            forall|j: int| 0 <= j < i ==> (#[trigger] kind_of_ext(ext_hint(translation_files@[j]@))) is Some,
            forall|j: int|
                0 <= j < i ==> is_generated_filter(
                    #[trigger] filters@[j],
                    translation_files@[j]@,
                    kind_of_ext(ext_hint(translation_files@[j]@))->0,
                ),
        decreases translation_files@.len() - i,
    {
        let path = translation_files[i].as_str();
        let kind = match I18nFileKind::from_ext_hint(path) {
            Ok(k) => k,
            Err(_) => {
                return Err(CmdError::UnknownI18nFileType { path: translation_files[i].clone() });
            },
        };
        let format = match kind {
            I18nFileKind::Linguist => "QT",
            I18nFileKind::Gettext => "PO",
        };
        filters.push(
            Filter {
                type_attr: String::from_str("file"),
                source: String::from_str(path),
                format: String::from_str(format),
                source_lang: String::from_str("en_US"),
                target_pattern: generate_translation_expression(path),
            },
        );
        i = i + 1;
    }
    Ok(
        TransifexYaml {
            filters,
            settings: Settings { branch_template: String::from_str("transifex_update_<br_unique_id>") },
        },
    )
}

/// Ignore pattern `pat` (non-empty) covers the relative path `rel`: `rel` starts
/// with it, or one of its segments is it.
pub open spec fn ignored_by(rel: Seq<char>, pat: Seq<char>) -> bool {
    pat.len() > 0 && (seq_starts_with(rel, pat) || exists|a: int, b: int| is_segment(rel, a, b) && #[trigger] rel.subrange(a, b) == pat)
}

/// Whether a path relative to the project root is left out of the scan.
pub fn should_ignore_path(relative_path: &str, ignore_paths: &Vec<String>) -> (r: bool)
    ensures
        r == exists|i: int| 0 <= i < ignore_paths@.len() && ignored_by(relative_path@, (#[trigger] ignore_paths@[i])@),
{
    let mut i: usize = 0;
    while i < ignore_paths.len()
        invariant
            i <= ignore_paths@.len(),
            forall|k: int| 0 <= k < i ==> !ignored_by(relative_path@, (#[trigger] ignore_paths@[k])@),
        decreases ignore_paths@.len() - i,
    {
        let pat = ignore_paths[i].as_str();
        if pat.unicode_len() > 0 {
            if str_starts_with(relative_path, pat) || try_extract_pattern_from_path(relative_path, pat).is_some() {
                return true;
            }
        }
        i = i + 1;
    }
    false
}

/// The language codes found in `path`: the code of its file name and the
/// directories that name languages, distinct and in order.
pub fn find_language_codes_in_path(path: &str, confirmed: &Vec<String>) -> (r: Vec<String>)
    ensures
        path_sorted(r@),
        forall|y: Seq<char>| #[trigger] has_path(r@, y) <==> is_path_code(path@, confirmed@, y),
{
    let ghost p = path@;
    let mut out: Vec<String> = Vec::new();
    let fcodes = find_language_codes_in_filename(file_name_of(path));
    if fcodes.len() > 0 {
        insert_sorted(&mut out, fcodes[0].clone());
    }
    proof {
        assert forall|y: Seq<char>| #[trigger] has_path(out@, y) <==> is_path_code_before(p, confirmed@, y, 0) by {
            if fcodes@.len() > 0 && y == fcodes@[0]@ {
                assert(is_path_code_before(p, confirmed@, y, 0));
            }
        }
    }
    let n = path.unicode_len();
    let mut a: usize = 0;
    let mut done = false;
    let ghost mut cov: int = 0;
    while !done
        invariant
            n == p.len(),
            p == path@,
            a <= n,
            !done ==> cov == a,
            done ==> cov == n + 1,
            a == 0 || p[a - 1] == '/',
            path_sorted(out@),
            forall|y: Seq<char>| #[trigger] has_path(out@, y) <==> is_path_code_before(p, confirmed@, y, cov),
        decreases n + 1 - cov,
    {
        let b = find_char_from(path, '/', a);
        let seg = path.substring_char(a, b);
        let ghost before = out@;
        let folder = is_lang_folder_exec(seg, confirmed);
        if folder {
            insert_sorted(&mut out, owned(seg));
        }
        proof {
            let e: int = b + 1;
            assert(is_segment(p, a as int, b as int));
            assert forall|c: Seq<char>|
                is_path_code_before(p, confirmed@, c, e) implies is_path_code_before(p, confirmed@, c, a as int)
                    || (c == seg@ && folder) by {
                if filename_code(file_name_spec(p)) != Some(c) {
                    let (a2, b2) = choose|a2: int, b2: int|
                        is_segment(p, a2, b2) && a2 < e && #[trigger] p.subrange(a2, b2) == c
                            && is_lang_folder(c, confirmed@);
                    if a2 >= a {
                        if a2 > a {
                            assert(p[a2 - 1] == '/');
                            assert(false);
                        }
                        lemma_segment_unique(p, a as int, b as int, b2);
                    }
                }
            }
            assert forall|c: Seq<char>|
                is_path_code_before(p, confirmed@, c, a as int) implies is_path_code_before(p, confirmed@, c, e) by {
                if filename_code(file_name_spec(p)) != Some(c) {
                    let (a2, b2) = choose|a2: int, b2: int|
                        is_segment(p, a2, b2) && a2 < a && #[trigger] p.subrange(a2, b2) == c
                            && is_lang_folder(c, confirmed@);
                    assert(is_segment(p, a2, b2) && a2 < e && p.subrange(a2, b2) == c);
                }
            }
            if folder {
                assert(is_path_code_before(p, confirmed@, seg@, e));
            }
            assert forall|y: Seq<char>| #[trigger] has_path(out@, y) <==> is_path_code_before(p, confirmed@, y, e) by {
                if folder {
                    assert(has_path(out@, y) <==> (y == seg@ || has_path(before, y)));
                }
            }
        }
        if b == n {
            done = true;
            proof {
                cov = n + 1;
            }
        } else {
            a = b + 1;
            proof {
                cov = a as int;
            }
        }
    }
    proof {
        assert forall|c: Seq<char>| #[trigger] has_path(out@, c) <==> is_path_code(p, confirmed@, c) by {
            if is_path_code_before(p, confirmed@, c, cov) && filename_code(file_name_spec(p)) != Some(c) {
                let (a2, b2) = choose|a2: int, b2: int|
                    is_segment(p, a2, b2) && a2 < cov && #[trigger] p.subrange(a2, b2) == c
                        && is_lang_folder(c, confirmed@);
                assert(is_segment(p, a2, b2) && p.subrange(a2, b2) == c && is_lang_folder(c, confirmed@));
            }
            if is_path_code(p, confirmed@, c) && filename_code(file_name_spec(p)) != Some(c) {
                let (a2, b2) = choose|a2: int, b2: int|
                    is_segment(p, a2, b2) && #[trigger] p.subrange(a2, b2) == c && is_lang_folder(c, confirmed@);
                assert(is_segment(p, a2, b2) && a2 < cov && p.subrange(a2, b2) == c);
            }
        }
    }
    out
}

} // verus!
