use deepin_translation_utils::subcmd::gentxcfg::{
    contains_non_english_language_code, find_language_codes_in_filename, find_language_codes_in_path, generate_translation_expression,
    generate_transifex_yaml, get_language_folder_in_path, get_source_file_priority,
    get_translation_pattern_with_inference, has_related_translation_files, identify_source_files,
    is_common_source_po_file, is_english_language_code, is_english_source_file, is_file_extension,
    is_language_code, is_likely_source_file, select_best_source_file, try_extract_pattern_from_filename,
    try_extract_pattern_from_path, should_ignore_path, CmdError, FoundFile,
};

/// Every directory of the path, as if the file system confirmed each one.
fn all_dirs(path: &str) -> Vec<String> {
    path.split('/').map(|s| s.to_string()).collect()
}

fn strings(v: &[&str]) -> Vec<String> {
    v.iter().map(|s| s.to_string()).collect()
}

#[test]
fn test_language_code_detection() {
    assert!(is_language_code("en"));
    assert!(is_language_code("zh"));
    assert!(is_language_code("en_US"));
    assert!(is_language_code("zh_CN"));
    assert!(is_language_code("zh_TW"));
    assert!(is_language_code("pt_BR"));
    assert!(is_language_code("fr"));
    assert!(is_language_code("de"));
    assert!(is_language_code("ja"));
    assert!(is_language_code("kab"));
    assert!(is_language_code("ast"));

    assert!(!is_language_code("english"));
    assert!(!is_language_code("EN"));
    assert!(!is_language_code("en_us"));
    assert!(!is_language_code("zh_cn"));
    assert!(!is_language_code(""));

    assert!(is_language_code("so"));
    assert!(is_language_code("in"));
    assert!(is_language_code("os"));
    assert!(is_language_code("io"));

    assert!(is_file_extension("po"));
    assert!(is_file_extension("ts"));
    assert!(is_file_extension("js"));
    assert!(is_file_extension("py"));
    assert!(is_file_extension("rs"));
    assert!(!is_file_extension("zh_CN"));
    assert!(!is_file_extension("en_US"));

    assert!(is_english_source_file("messages_en_US.po"));
    assert!(is_english_source_file("strings_en.ts"));
    assert!(is_english_source_file("app.en.ts"));
    assert!(is_english_source_file("dialog.en.po"));

    assert_eq!(find_language_codes_in_filename("app_zh_CN.ts"), vec!["zh_CN"]);
    assert_eq!(find_language_codes_in_filename("messages.ja.po"), vec!["ja"]);
    assert_eq!(find_language_codes_in_filename("fr.po"), Vec::<String>::new());
    assert_eq!(find_language_codes_in_filename("app.ts"), Vec::<String>::new());
    assert_eq!(find_language_codes_in_filename("strings_so.po"), vec!["so"]);

    assert_eq!(find_language_codes_in_filename("po.po"), Vec::<String>::new());
    assert_eq!(find_language_codes_in_filename("ts.ts"), Vec::<String>::new());

    assert!(contains_non_english_language_code("app_zh_CN.ts"));
    assert!(contains_non_english_language_code("messages_zh_TW.po"));
    assert!(!contains_non_english_language_code("zh_CN.po"));
    assert!(!contains_non_english_language_code("ja.po"));
    assert!(contains_non_english_language_code("messages_ko_KR.ts"));
    assert!(!contains_non_english_language_code("app.ts"));
    assert!(!contains_non_english_language_code("messages_en.po"));

    let p = "translations/zh_CN/messages.po";
    assert_eq!(get_language_folder_in_path(p, &all_dirs(p)), Some("zh_CN".to_string()));
    let p = "locales/ja/strings.ts";
    assert_eq!(get_language_folder_in_path(p, &all_dirs(p)), Some("ja".to_string()));
    let p = "translations/messages.po";
    assert_eq!(get_language_folder_in_path(p, &all_dirs(p)), None);
    let p = "po/en/messages.po";
    assert_eq!(get_language_folder_in_path(p, &all_dirs(p)), Some("en".to_string()));

    assert!(is_english_language_code("en"));
    assert!(is_english_language_code("en_US"));
    assert!(is_english_language_code("en_GB"));
    assert!(!is_english_language_code("zh_CN"));
    assert!(!is_english_language_code("ja"));

    assert!(is_common_source_po_file("messages.po"));
    assert!(is_common_source_po_file("strings.po"));
    assert!(is_common_source_po_file("template.po"));
    assert!(is_common_source_po_file("default.po"));
    assert!(!is_common_source_po_file("zh_CN.po"));
}

#[test]
fn test_generate_translation_expression() {
    assert_eq!(generate_translation_expression("app_en_US.ts"), "app_<lang>.ts");
    assert_eq!(generate_translation_expression("messages_en.po"), "messages_<lang>.po");
    assert_eq!(generate_translation_expression("dialog.en.ts"), "dialog.<lang>.ts");

    assert_eq!(generate_translation_expression("strings.ts"), "strings_<lang>.ts");
    assert_eq!(generate_translation_expression("messages.po"), "messages_<lang>.po");

    assert_eq!(generate_translation_expression("locales/en/messages.po"), "locales/<lang>/messages.po");
    assert_eq!(generate_translation_expression("po/en_US/strings.po"), "po/<lang>/strings.po");
}

#[test]
fn test_get_translation_pattern() {
    assert_eq!(try_extract_pattern_from_filename("app_zh_CN.ts", "zh_CN"), Some("app_<lang>.ts".to_string()));
}

#[test]
fn test_source_file_priority_selection() {
    assert_eq!(get_source_file_priority("example.ts"), 100);
    assert_eq!(get_source_file_priority("example_en.ts"), 90);
    assert_eq!(get_source_file_priority("example_en_US.ts"), 80);
    assert_eq!(get_source_file_priority("example_en_GB.ts"), 70);
    assert_eq!(get_source_file_priority("example_zh_CN.ts"), 10);

    let candidates = strings(&["example_en_US.ts", "example.ts", "example_en.ts"]);
    let best = select_best_source_file(&candidates).unwrap();
    assert_eq!(best, "example.ts");

    let candidates = strings(&["example_en_GB.ts", "example_en_US.ts", "example_en.ts"]);
    let best = select_best_source_file(&candidates).unwrap();
    assert_eq!(best, "example_en.ts");

    let candidates = strings(&["example_en_GB.ts", "example_en_US.ts"]);
    let best = select_best_source_file(&candidates).unwrap();
    assert_eq!(best, "example_en_US.ts");

    assert!(select_best_source_file(&vec![]).is_none());

    let candidates = strings(&["single.ts"]);
    let best = select_best_source_file(&candidates).unwrap();
    assert_eq!(best, "single.ts");
}

#[test]
fn plain_file_wins_its_family() {
    let candidates = strings(&["app.ts", "app_en.ts", "app_en_US.ts"]);
    assert_eq!(select_best_source_file(&candidates), Some("app.ts".to_string()));
}

#[test]
fn en_us_wins_over_en_gb() {
    let candidates = strings(&["app_en_GB.ts", "app_en_US.ts"]);
    assert_eq!(select_best_source_file(&candidates), Some("app_en_US.ts".to_string()));
}

#[test]
fn dotted_and_prefix_patterns() {
    assert_eq!(try_extract_pattern_from_filename("po/messages.ja.po", "ja"), Some("po/messages.<lang>.po".to_string()));
    assert_eq!(try_extract_pattern_from_filename("po/ja.po", "ja"), Some("po/<lang>.po".to_string()));
    assert_eq!(try_extract_pattern_from_filename("ja.po", "ja"), Some("<lang>.po".to_string()));
    assert_eq!(try_extract_pattern_from_filename("po/messages.po", "ja"), None);
    assert_eq!(try_extract_pattern_from_path("po/zh_CN/a.po", "zh_CN"), Some("po/<lang>/a.po".to_string()));
    assert_eq!(try_extract_pattern_from_path("po/a.po", "zh_CN"), None);
}

#[test]
fn pattern_uses_least_code_and_inference() {
    let files = strings(&["translations/app.ts", "translations/app_zh_CN.ts", "translations/app_de.ts"]);
    let p = "translations/app_zh_CN.ts";
    assert_eq!(get_translation_pattern_with_inference(p, &files, &all_dirs(p)), "translations/app_<lang>.ts");
    let p = "translations/app.ts";
    assert_eq!(get_translation_pattern_with_inference(p, &files, &all_dirs(p)), "translations/app_<lang>.ts");
    let p = "zh_CN/app_ja.ts";
    assert_eq!(get_translation_pattern_with_inference(p, &files, &all_dirs(p)), "zh_CN/app_<lang>.ts");
    let p = "other/readme.ts";
    assert_eq!(get_translation_pattern_with_inference(p, &files, &all_dirs(p)), "other/readme.ts");
}

#[test]
fn likely_sources() {
    let files = strings(&["translations/app.ts", "translations/app_zh_CN.ts", "po/messages.po", "po/other.po"]);
    assert!(has_related_translation_files("translations/app.ts", &files));
    assert!(!has_related_translation_files("translations/app_zh_CN.ts", &files));
    assert!(is_likely_source_file("translations/app.ts", &files, &vec![]));
    assert!(!is_likely_source_file("translations/app_zh_CN.ts", &files, &vec![]));
    assert!(is_likely_source_file("po/messages.po", &files, &vec![]));
    assert!(!is_likely_source_file("po/other.po", &files, &vec![]));
    let p = "po/zh_CN/x.ts";
    assert!(!is_likely_source_file(p, &files, &all_dirs(p)));
    let p = "po/en/x.ts";
    assert!(is_likely_source_file(p, &files, &all_dirs(p)));
}

#[test]
fn identify_picks_one_source_per_family_in_path_order() {
    let mk = |p: &str| FoundFile { path: p.to_string(), language_dirs: vec![] };
    let files = vec![
        mk("b/app_en_US.ts"),
        mk("b/app.ts"),
        mk("b/app_en.ts"),
        mk("b/app_zh_CN.ts"),
        mk("a/main_en_GB.ts"),
        mk("a/main_en_US.ts"),
        mk("a/main_de.ts"),
    ];
    assert_eq!(identify_source_files(&files), strings(&["a/main_en_US.ts", "b/app.ts"]));
}

#[test]
fn generated_yaml_filters() {
    let yaml = generate_transifex_yaml(&strings(&["translations/app.ts", "po/en/messages.po"])).unwrap();
    assert_eq!(yaml.filters.len(), 2);
    assert_eq!(yaml.filters[0].format, "QT");
    assert_eq!(yaml.filters[0].target_pattern, "translations/app_<lang>.ts");
    assert_eq!(yaml.filters[0].source_lang, "en_US");
    assert_eq!(yaml.filters[1].format, "PO");
    assert_eq!(yaml.filters[1].target_pattern, "po/<lang>/messages.po");
    assert_eq!(yaml.settings.branch_template, "transifex_update_<br_unique_id>");
    assert_eq!(
        generate_transifex_yaml(&strings(&["a.ts", "readme.md"])).unwrap_err(),
        CmdError::UnknownI18nFileType { path: "readme.md".to_string() }
    );
}

#[test]
fn codes_in_paths_are_sorted_and_distinct() {
    let p = "zh_CN/po/app_ja.ts";
    assert_eq!(find_language_codes_in_path(p, &all_dirs(p)), strings(&["ja", "zh_CN"]));
    let p = "ja/app_ja.ts";
    assert_eq!(find_language_codes_in_path(p, &all_dirs(p)), strings(&["ja"]));
    let p = "ja/app.ts";
    assert_eq!(find_language_codes_in_path(p, &vec![]), Vec::<String>::new());
    let p = "ts/po/app.ts";
    assert_eq!(find_language_codes_in_path(p, &all_dirs(p)), Vec::<String>::new());
}

#[test]
fn ignored_paths() {
    let ignore = strings(&["", "build", "3rdparty/qt"]);
    assert!(should_ignore_path("build/x.ts", &ignore));
    assert!(should_ignore_path("src/build/x.ts", &ignore));
    assert!(should_ignore_path("3rdparty/qt/x.ts", &ignore));
    assert!(!should_ignore_path("src/builder/x.ts", &ignore));
    assert!(!should_ignore_path("src/x.ts", &ignore));
}

#[test]
fn empty_inputs() {
    assert_eq!(identify_source_files(&vec![]), Vec::<String>::new());
    assert_eq!(generate_transifex_yaml(&vec![]).unwrap().filters.len(), 0);
    assert_eq!(generate_translation_expression("README"), "README_<lang>");
    assert_eq!(generate_translation_expression("a.d/file"), "a_<lang>.d/file");
    assert_eq!(get_source_file_priority(""), 100);
    assert!(!is_language_code("abcd"));
    assert!(!is_language_code("en_USAB"));
    assert!(is_language_code("kab_CHN"));
}
