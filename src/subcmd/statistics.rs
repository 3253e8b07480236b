//! Translation statistics of a project: per resource group, the stats of the
//! source file and of each target language, and their totals.

use vstd::prelude::*;
use crate::i18n_file::common::MessageStats;
use crate::text::{str_eq};
use crate::transifex::yaml_file::Filter;

verus! {

/// How a statistics report is written.
#[derive(Debug, Clone, Copy, PartialEq, Eq, Structural)]
pub enum StatsFormat {
    PlainTable,
    Yaml,
    Json,
}

/// How the rows of a statistics table are ordered.
#[derive(Debug, Clone, Copy, PartialEq, Eq, Structural)]
pub enum StatsSortBy {
    LanguageCode,
    Completeness,
}

/// The stats of one translation file.
#[derive(Debug, Clone)]
pub struct TsResourceStats {
    pub resource_path: String,
    pub stats: MessageStats,
}

/// The stats of a source file and of its translations, keyed by language code.
#[derive(Debug, Clone)]
pub struct TsResourceGroupStats {
    pub source_path: String,
    pub source_lang_code: String,
    pub source_stats: MessageStats,
    pub target_lang_codes: Vec<String>,
    pub target_stats: Vec<(String, TsResourceStats)>,
}

/// The stats of all resource groups of a project.
#[derive(Debug, Clone)]
pub struct ProjectResourceStats {
    pub project_path: String,
    pub target_lang_codes: Vec<String>,
    pub resource_groups: Vec<TsResourceGroupStats>,
}

/// Field `k` (finished, unfinished, vanished, obsolete, fuzzy) of `s`.
pub open spec fn stat_field(s: MessageStats, k: int) -> nat {
    if k == 0 {
        s.finished as nat
    } else if k == 1 {
        s.unfinished as nat
    } else if k == 2 {
        s.vanished as nat
    } else if k == 3 {
        s.obsolete as nat
    } else {
        s.fuzzy as nat
    }
}

/// The sum of field `k` over `ss`.
pub open spec fn field_sum(ss: Seq<MessageStats>, k: int) -> nat
    decreases ss.len(),
{
    if ss.len() == 0 {
        0
    } else {
        field_sum(ss.drop_last(), k) + stat_field(ss.last(), k)
    }
}

/// Every field sum of `ss` fits in `u64`.
pub open spec fn sums_fit(ss: Seq<MessageStats>) -> bool {
    forall|k: int| 0 <= k < 5 ==> #[trigger] field_sum(ss, k) <= u64::MAX
}

/// `r` holds the field sums of `ss`.
pub open spec fn is_sum(r: MessageStats, ss: Seq<MessageStats>) -> bool {
    forall|k: int| 0 <= k < 5 ==> #[trigger] stat_field(r, k) == field_sum(ss, k)
}

proof fn lemma_field_sum_prefix(ss: Seq<MessageStats>, i: int, k: int)
    requires
        0 <= i <= ss.len(),
    ensures
        field_sum(ss.take(i), k) <= field_sum(ss, k),
    decreases ss.len(),
{
    if i < ss.len() {
        assert(ss.drop_last().take(i) =~= ss.take(i));
        lemma_field_sum_prefix(ss.drop_last(), i, k);
    } else {
        assert(ss.take(i) =~= ss);
    }
}

/// The field-by-field sum of `ss`.
fn sum_stats(ss: &Vec<MessageStats>) -> (r: MessageStats)
    requires
        sums_fit(ss@),
    ensures
        is_sum(r, ss@),
{
    let mut total = MessageStats::new();
    let mut i: usize = 0;
    assert(ss@.take(0) =~= Seq::<MessageStats>::empty());
    while i < ss.len()
        invariant
            i <= ss@.len(),
            sums_fit(ss@),
            is_sum(total, ss@.take(i as int)),
        decreases ss@.len() - i,
    {
        proof {
            assert(ss@.take(i + 1).drop_last() =~= ss@.take(i as int));
            assert forall|k: int| 0 <= k < 5 implies #[trigger] field_sum(ss@.take(i + 1), k) <= u64::MAX by {
                lemma_field_sum_prefix(ss@, i + 1, k);
            }
            assert(field_sum(ss@.take(i + 1), 0) == stat_field(total, 0) + stat_field(ss@[i as int], 0));
            assert(field_sum(ss@.take(i + 1), 1) == stat_field(total, 1) + stat_field(ss@[i as int], 1));
            assert(field_sum(ss@.take(i + 1), 2) == stat_field(total, 2) + stat_field(ss@[i as int], 2));
            assert(field_sum(ss@.take(i + 1), 3) == stat_field(total, 3) + stat_field(ss@[i as int], 3));
            assert(field_sum(ss@.take(i + 1), 4) == stat_field(total, 4) + stat_field(ss@[i as int], 4));
        }
        total.add_stats(&ss[i]);
        i = i + 1;
    }
    assert(ss@.take(ss@.len() as int) =~= ss@);
    total
}

/// The stats of the first entry of `t` for language `code`, if any.
pub open spec fn group_target(t: Seq<(String, TsResourceStats)>, code: Seq<char>) -> Option<MessageStats>
    decreases t.len(),
{
    if t.len() == 0 {
        None
    } else if t[0].0@ == code {
        Some(t[0].1.stats)
    } else {
        group_target(t.drop_first(), code)
    }
}

/// The stats for language `code` of those groups that have it, in order.
pub open spec fn target_seq(gs: Seq<TsResourceGroupStats>, code: Seq<char>) -> Seq<MessageStats>
    decreases gs.len(),
{
    if gs.len() == 0 {
        Seq::empty()
    } else {
        let prev = target_seq(gs.drop_last(), code);
        match group_target(gs.last().target_stats@, code) {
            Some(s) => prev.push(s),
            None => prev,
        }
    }
}

pub open spec fn source_seq(gs: Seq<TsResourceGroupStats>) -> Seq<MessageStats> {
    gs.map_values(|g: TsResourceGroupStats| g.source_stats)
}

fn find_target(t: &Vec<(String, TsResourceStats)>, code: &str) -> (r: Option<MessageStats>)
    ensures
        r == group_target(t@, code@),
{
    let mut i: usize = 0;
    assert(t@.skip(0) =~= t@);
    while i < t.len()
        invariant
            i <= t@.len(),
            group_target(t@, code@) == group_target(t@.skip(i as int), code@),
        decreases t@.len() - i,
    {
        assert(t@.skip(i as int).drop_first() =~= t@.skip(i + 1));
        if str_eq(t[i].0.as_str(), code) {
            return Some(t[i].1.stats);
        }
        i = i + 1;
    }
    None
}

impl ProjectResourceStats {
    /// The number of resource groups and the sum of their source stats.
    pub fn get_source_stats(&self) -> (r: (i32, MessageStats))
        requires
            self.resource_groups@.len() <= i32::MAX,
            sums_fit(source_seq(self.resource_groups@)),
        ensures
            r.0 == self.resource_groups@.len(),
            is_sum(r.1, source_seq(self.resource_groups@)),
    {
        let mut ss: Vec<MessageStats> = Vec::new();
        let mut i: usize = 0;
        while i < self.resource_groups.len()
            invariant
                i <= self.resource_groups@.len(),
                ss@ == source_seq(self.resource_groups@).take(i as int),
            decreases self.resource_groups@.len() - i,
        {
            ss.push(self.resource_groups[i].source_stats);
            assert(ss@ =~= source_seq(self.resource_groups@).take(i + 1));
            i = i + 1;
        }
        assert(ss@ =~= source_seq(self.resource_groups@));
        (i as i32, sum_stats(&ss))
    }

    /// The number of resource groups that have a target for `language_code`, and
    /// the sum of those targets' stats.
    pub fn get_target_stats_by_language_code(&self, language_code: &String) -> (r: (i32, MessageStats))
        requires
            self.resource_groups@.len() <= i32::MAX,
            sums_fit(target_seq(self.resource_groups@, language_code@)),
        ensures
            r.0 == target_seq(self.resource_groups@, language_code@).len(),
            is_sum(r.1, target_seq(self.resource_groups@, language_code@)),
    {
        let ghost gs = self.resource_groups@;
        let mut ss: Vec<MessageStats> = Vec::new();
        let mut i: usize = 0;
        assert(gs.take(0) =~= Seq::<TsResourceGroupStats>::empty());
        while i < self.resource_groups.len()
            invariant
                gs == self.resource_groups@,
                i <= gs.len(),
                ss@ == target_seq(gs.take(i as int), language_code@),
                ss@.len() <= i,
            decreases gs.len() - i,
        {
            assert(gs.take(i + 1).drop_last() =~= gs.take(i as int));
            match find_target(&self.resource_groups[i].target_stats, language_code.as_str()) {
                Some(s) => {
                    ss.push(s);
                },
                None => {},
            }
            i = i + 1;
        }
        assert(gs.take(gs.len() as int) =~= gs);
        (ss.len() as i32, sum_stats(&ss))
    }
}

/// A language counts when the accepted list is empty or names it, and the
/// ignored list does not.
pub open spec fn counts_language(lang: Seq<char>, accept: Seq<String>, ignore: Seq<String>) -> bool {
    (accept.len() == 0 || exists|i: int| 0 <= i < accept.len() && (#[trigger] accept[i])@ == lang) && !exists|i: int|
        0 <= i < ignore.len() && (#[trigger] ignore[i])@ == lang
}

fn list_has(v: &Vec<String>, s: &str) -> (r: bool)
    ensures
        r == exists|i: int| 0 <= i < v@.len() && (#[trigger] v@[i])@ == s@,
{
    let mut i: usize = 0;
    while i < v.len()
        invariant
            i <= v@.len(),
            forall|k: int| 0 <= k < i ==> (#[trigger] v@[k])@ != s@,
        decreases v@.len() - i,
    {
        if str_eq(v[i].as_str(), s) {
            return true;
        }
        i = i + 1;
    }
    false
}

/// Whether the statistics include language `lang`.
pub fn should_count_language(lang: &str, accept_languages: &Vec<String>, ignore_languages: &Vec<String>) -> (r: bool)
    ensures
        r == counts_language(lang@, accept_languages@, ignore_languages@),
{
    (accept_languages.len() == 0 || list_has(accept_languages, lang)) && !list_has(ignore_languages, lang)
}

/// Statistics cover file filters of the Linguist (`QT`) and Gettext (`PO`) formats.
pub fn is_supported_filter(filter: &Filter) -> (r: bool)
    ensures
        r == ((filter.format@ == "QT"@ || filter.format@ == "PO"@) && filter.type_attr@ == "file"@),
{
    (str_eq(filter.format.as_str(), "QT") || str_eq(filter.format.as_str(), "PO")) && str_eq(
        filter.type_attr.as_str(),
        "file",
    )
}

proof fn lemma_group_target_index(t: Seq<(String, TsResourceStats)>, code: Seq<char>, k: int)
    requires
        0 <= k < t.len(),
        t[k].0@ == code,
        forall|j: int| 0 <= j < k ==> (#[trigger] t[j]).0@ != code,
    ensures
        group_target(t, code) == Some(t[k].1.stats),
    decreases k,
{
    if k > 0 {
        assert forall|j: int| 0 <= j < k - 1 implies (#[trigger] t.drop_first()[j]).0@ != code by {
            assert(t.drop_first()[j] == t[j + 1]);
        }
        lemma_group_target_index(t.drop_first(), code, k - 1);
    }
}

proof fn lemma_group_target_absent(t: Seq<(String, TsResourceStats)>, code: Seq<char>)
    requires
        forall|j: int| 0 <= j < t.len() ==> (#[trigger] t[j]).0@ != code,
    ensures
        group_target(t, code) is None,
    decreases t.len(),
{
    if t.len() > 0 {
        assert forall|j: int| 0 <= j < t.len() - 1 implies (#[trigger] t.drop_first()[j]).0@ != code by {
            assert(t.drop_first()[j] == t[j + 1]);
        }
        lemma_group_target_absent(t.drop_first(), code);
    }
}

proof fn lemma_group_target_frame(t: Seq<(String, TsResourceStats)>, t2: Seq<(String, TsResourceStats)>, code: Seq<char>, other: Seq<char>)
    requires
        other != code,
        t2.len() >= t.len(),
        forall|j: int| 0 <= j < t.len() ==> (#[trigger] t2[j]).0@ == t[j].0@ && (t[j].0@ != code ==> t2[j] == t[j]),
        forall|j: int| t.len() <= j < t2.len() ==> (#[trigger] t2[j]).0@ == code,
    ensures
        group_target(t2, other) == group_target(t, other),
    decreases t.len(),
{
    if t.len() == 0 {
        if t2.len() > 0 {
            assert forall|j: int| 0 <= j < t2.len() implies (#[trigger] t2[j]).0@ != other by {}
            lemma_group_target_absent(t2, other);
        }
    } else {
        assert forall|j: int| 0 <= j < t.len() - 1 implies (#[trigger] t2.drop_first()[j]).0@ == t.drop_first()[j].0@ && (
        t.drop_first()[j].0@ != code ==> t2.drop_first()[j] == t.drop_first()[j]) by {
            assert(t2.drop_first()[j] == t2[j + 1]);
            assert(t.drop_first()[j] == t[j + 1]);
        }
        assert forall|j: int| t.len() - 1 <= j < t2.len() - 1 implies (#[trigger] t2.drop_first()[j]).0@ == code by {
            assert(t2.drop_first()[j] == t2[j + 1]);
        }
        lemma_group_target_frame(t.drop_first(), t2.drop_first(), code, other);
    }
}

impl TsResourceGroupStats {
    /// Records the stats of the translation for `lang`, in place of any earlier
    /// record for it, and lists `lang` among the group's languages.
    pub fn insert_target(&mut self, lang: String, stats: TsResourceStats)
        ensures
            group_target(final(self).target_stats@, lang@) == Some(stats.stats),
            forall|c: Seq<char>|
                c != lang@ ==> #[trigger] group_target(final(self).target_stats@, c) == group_target(
                    old(self).target_stats@,
                    c,
                ),
            final(self).target_lang_codes@ == old(self).target_lang_codes@.push(lang),
            final(self).source_path == old(self).source_path,
            final(self).source_lang_code == old(self).source_lang_code,
            final(self).source_stats == old(self).source_stats,
    {
        let ghost t0 = self.target_stats@;
        let n = self.target_stats.len();
        let mut k: usize = 0;
        while k < n && !str_eq(self.target_stats[k].0.as_str(), lang.as_str())
            invariant
                n == self.target_stats@.len(),
                k <= n,
                forall|j: int| 0 <= j < k ==> (#[trigger] self.target_stats@[j]).0@ != lang@,
            decreases n - k,
        {
            k = k + 1;
        }
        let ghost l = lang@;
        self.target_lang_codes.push(lang.clone());
        if k < n {
            self.target_stats.set(k, (lang, stats));
        } else {
            self.target_stats.push((lang, stats));
        }
        proof {
            let t1 = self.target_stats@;
            assert(t1[k as int].0@ == l);
            assert forall|j: int| 0 <= j < k implies (#[trigger] t1[j]).0@ != l by {
                assert(t1[j] == t0[j]);
            }
            lemma_group_target_index(t1, l, k as int);
            assert forall|c: Seq<char>| c != l implies #[trigger] group_target(t1, c) == group_target(t0, c) by {
                lemma_group_target_frame(t0, t1, l, c);
            }
        }
    }
}

impl ProjectResourceStats {
    /// Lists `lang` among the project's languages, which stay sorted and distinct.
    pub fn add_target_language(&mut self, lang: String)
        requires
            crate::subcmd::gentxcfg::path_sorted(old(self).target_lang_codes@),
        ensures
            crate::subcmd::gentxcfg::path_sorted(final(self).target_lang_codes@),
            forall|y: Seq<char>|
                #[trigger] crate::subcmd::gentxcfg::has_path(final(self).target_lang_codes@, y) <==> (y == lang@
                    || crate::subcmd::gentxcfg::has_path(old(self).target_lang_codes@, y)),
            final(self).resource_groups == old(self).resource_groups,
    {
        crate::subcmd::gentxcfg::insert_sorted(&mut self.target_lang_codes, lang);
    }
}

} // verus!
