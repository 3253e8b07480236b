use deepin_translation_utils::i18n_file::common::MessageStats;
use deepin_translation_utils::subcmd::statistics::{
    is_supported_filter, should_count_language, ProjectResourceStats, TsResourceGroupStats, TsResourceStats,
};
use deepin_translation_utils::transifex::rest_api::{
    parse_link_category, Paginated, TransifexData, TransifexDataAttributes, TransifexPaginationResponse,
};
use deepin_translation_utils::transifex::yaml_file::Filter;

fn stats(finished: u64, unfinished: u64, vanished: u64, obsolete: u64, fuzzy: u64) -> MessageStats {
    MessageStats { finished, unfinished, vanished, obsolete, fuzzy }
}

fn group(source: MessageStats) -> TsResourceGroupStats {
    TsResourceGroupStats {
        source_path: "a.ts".to_string(),
        source_lang_code: "en_US".to_string(),
        source_stats: source,
        target_lang_codes: vec![],
        target_stats: vec![],
    }
}

fn target(path: &str, s: MessageStats) -> TsResourceStats {
    TsResourceStats { resource_path: path.to_string(), stats: s }
}

#[test]
fn totals_over_groups() {
    let mut g1 = group(stats(3, 1, 0, 1, 0));
    g1.insert_target("zh_CN".to_string(), target("a_zh_CN.ts", stats(2, 2, 0, 1, 0)));
    g1.insert_target("de".to_string(), target("a_de.ts", stats(1, 3, 0, 1, 0)));
    g1.insert_target("zh_CN".to_string(), target("a_zh_CN.ts", stats(4, 0, 0, 1, 0)));
    let mut g2 = group(stats(10, 0, 2, 0, 5));
    g2.insert_target("zh_CN".to_string(), target("b_zh_CN.po", stats(7, 3, 0, 0, 2)));
    let mut project = ProjectResourceStats {
        project_path: "/p".to_string(),
        target_lang_codes: vec![],
        resource_groups: vec![g1, g2],
    };
    project.add_target_language("zh_CN".to_string());
    project.add_target_language("de".to_string());
    project.add_target_language("zh_CN".to_string());
    assert_eq!(project.target_lang_codes, vec!["de".to_string(), "zh_CN".to_string()]);
    assert_eq!(project.resource_groups[0].target_lang_codes.len(), 3);
    assert_eq!(project.resource_groups[0].target_stats.len(), 2);

    assert_eq!(project.get_source_stats(), (2, stats(13, 1, 2, 1, 5)));
    assert_eq!(project.get_target_stats_by_language_code(&"zh_CN".to_string()), (2, stats(11, 3, 0, 1, 2)));
    assert_eq!(project.get_target_stats_by_language_code(&"de".to_string()), (1, stats(1, 3, 0, 1, 0)));
    assert_eq!(project.get_target_stats_by_language_code(&"fr".to_string()), (0, stats(0, 0, 0, 0, 0)));
}

#[test]
fn language_filters() {
    let none: Vec<String> = vec![];
    let accept = vec!["zh_CN".to_string(), "de".to_string()];
    let ignore = vec!["de".to_string()];
    assert!(should_count_language("fr", &none, &none));
    assert!(!should_count_language("fr", &accept, &none));
    assert!(should_count_language("zh_CN", &accept, &ignore));
    assert!(!should_count_language("de", &accept, &ignore));

    let mut f = Filter {
        type_attr: "file".to_string(),
        source: "a.ts".to_string(),
        format: "QT".to_string(),
        source_lang: "en".to_string(),
        target_pattern: "a_<lang>.ts".to_string(),
    };
    assert!(is_supported_filter(&f));
    f.format = "PO".to_string();
    assert!(is_supported_filter(&f));
    f.format = "KEYVALUEJSON".to_string();
    assert!(!is_supported_filter(&f));
}

#[test]
fn github_link_categories() {
    let data = TransifexData {
        id: "o:linuxdeepin:p:dde:r:launcher".to_string(),
        attributes: TransifexDataAttributes {
            categories: Some(vec![
                "other".to_string(),
                "github#repository:linuxdeepin/dde-shell#branch:master#path:panels/dock/translations/dock.ts".to_string(),
            ]),
        },
    };
    let e = data.parse_linked_resource_category().unwrap();
    assert_eq!(e.repository, "linuxdeepin/dde-shell");
    assert_eq!(e.branch, "master");
    assert_eq!(e.resource, "panels/dock/translations/dock.ts");
    assert_eq!(e.transifex_resource_id, "o:linuxdeepin:p:dde:r:launcher");

    assert!(parse_link_category("github#repository:org#branch:m#path:p", "id").is_none());
    assert!(parse_link_category("github#repository:/r#branch:m#path:p", "id").is_none());
    assert!(parse_link_category("github#repository:o/r#branch:m#path:", "id").is_none());
    assert!(parse_link_category("github#repository:o/r#branch:m#path:a\nb", "id").is_none());
    assert!(parse_link_category("github#repository:o/r#brunch:m#path:p", "id").is_none());
    let e = parse_link_category("github#repository:o/r/x#branch:m#path:p#q", "id").unwrap();
    assert_eq!(e.repository, "o/r/x");
    assert_eq!(e.resource, "p#q");

    let none = TransifexData { id: "x".to_string(), attributes: TransifexDataAttributes { categories: None } };
    assert!(none.parse_linked_resource_category().is_none());
}

#[test]
fn pages() {
    let page = TransifexPaginationResponse { data: vec![1, 2, 3], next: Some("https://next".to_string()) };
    assert_eq!(page.next_page_url(), Some("https://next".to_string()));
    assert_eq!(page.items(), vec![1, 2, 3]);
}
