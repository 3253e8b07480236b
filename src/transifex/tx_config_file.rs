//! The `.tx/config` project file and the `.transifexrc` credentials, as plain data.

use vstd::prelude::*;
use super::yaml_file::{Filter, Settings, TransifexYaml};

verus! {

/// Why a `.tx/config` or `.transifexrc` file could not be loaded.
#[derive(Debug, Clone, PartialEq, Eq)]
pub enum TxConfigLoadError {
    FileNotFound,
    /// The file could not be read; the message says why.
    ReadFile(String),
    ParseError(String),
}

/// The host section of a `.transifexrc` file.
#[derive(Debug, Clone, PartialEq, Eq)]
pub struct TransifexRcSection {
    pub host_section: String,
    pub rest_hostname: String,
    pub token: String,
}

/// A `.tx/config` file: its `[main]` section and one section per resource.
#[derive(Debug)]
pub struct TxConfig {
    pub main_section: TxConfigSectionMain,
    pub resource_sections: Vec<TxConfigSectionResource>,
}

#[derive(Debug, Clone, PartialEq, Eq)]
pub struct TxConfigSectionMain {
    pub host: String,
    pub minimum_prec: Option<i64>,
    pub mode: Option<String>,
}

#[derive(Debug, Clone, PartialEq, Eq)]
pub struct TxConfigSectionResource {
    /// The section name, `o:<organization>:p:<project>:r:<resource>`.
    pub resource_full_slug: String,
    pub file_filter: String,
    pub minimum_prec: Option<i64>,
    pub source_file: String,
    pub source_lang: String,
    pub type_attr: String,
}

/// The branch name template that generated `transifex.yaml` files carry.
pub open spec fn branch_template_spec() -> Seq<char> {
    "transifex_update_<br_unique_id>"@
}

/// `y` describes the resources of `cfg`: one file filter per resource section, in
/// order, with the generated branch template.
pub open spec fn is_yaml_of(cfg: TxConfig, y: TransifexYaml) -> bool {
    &&& y.filters@.len() == cfg.resource_sections@.len()
    &&& forall|i: int|
        0 <= i < cfg.resource_sections@.len() ==> {
            let (f, s) = (#[trigger] y.filters@[i], cfg.resource_sections@[i]);
            &&& f.type_attr@ == "file"@
            &&& f.source == s.source_file
            &&& f.format == s.type_attr
            &&& f.source_lang == s.source_lang
            &&& f.target_pattern == s.file_filter
        }
    &&& y.settings.branch_template@ == branch_template_spec()
}

impl TxConfig {
    /// The `transifex.yaml` description of the same resources: one file filter per
    /// resource section, in order.
    pub fn to_transifex_yaml(&self) -> (r: TransifexYaml)
        ensures
            is_yaml_of(*self, r),
    {
        let mut filters: Vec<Filter> = Vec::new();
        let mut i: usize = 0;
        while i < self.resource_sections.len()
            invariant
                i <= self.resource_sections@.len(),
                filters@.len() == i,
                forall|k: int|
                    0 <= k < i ==> {
                        let (f, s) = (#[trigger] filters@[k], self.resource_sections@[k]);
                        &&& f.type_attr@ == "file"@
                        &&& f.source == s.source_file
                        &&& f.format == s.type_attr
                        &&& f.source_lang == s.source_lang
                        &&& f.target_pattern == s.file_filter
                    },
            decreases self.resource_sections@.len() - i,
        {
            let section = &self.resource_sections[i];
            filters.push(
                Filter {
                    type_attr: String::from_str("file"),
                    source: section.source_file.clone(),
                    format: section.type_attr.clone(),
                    source_lang: section.source_lang.clone(),
                    target_pattern: section.file_filter.clone(),
                },
            );
            i = i + 1;
        }
        TransifexYaml {
            filters,
            settings: Settings { branch_template: String::from_str("transifex_update_<br_unique_id>") },
        }
    }
}

} // verus!
