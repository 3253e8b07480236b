use deepin_translation_utils::transifex::project_file::{try_load_transifex_project_file, TxProjectFileLoadError};
use deepin_translation_utils::transifex::tx_config_file::{TxConfig, TxConfigSectionMain, TxConfigSectionResource};
use deepin_translation_utils::transifex::yaml_file::{
    Filter, LoadTxYamlError, Settings, TargetTemplate, TemplateError, TransifexYaml, TxResourceLookupEntry,
};

fn filter(source: &str, pattern: &str) -> Filter {
    Filter {
        type_attr: "file".to_string(),
        source: source.to_string(),
        format: "QT".to_string(),
        source_lang: "en_US".to_string(),
        target_pattern: pattern.to_string(),
    }
}

fn sample_yaml() -> TransifexYaml {
    TransifexYaml {
        filters: vec![
            filter(
                "shell-launcher-applet/translations/org.deepin.ds.dock.launcherapplet.ts",
                "shell-launcher-applet/translations/org.deepin.ds.dock.launcherapplet_<lang>.ts",
            ),
            filter("dcc-network/translations/network_en_US.ts", "dcc-network/translations/network_<lang>.ts"),
        ],
        settings: Settings { branch_template: "transifex_update_<br_unique_id>".to_string() },
    }
}

#[test]
fn tst_convert_to_tx_config() {
    let tx_yaml = sample_yaml();
    let tx_config = tx_yaml.to_tx_config("user/repo".to_string(), vec![]);
    assert_eq!(tx_config.resource_sections[0].resource_full_slug, "o:unknown-org:p:unknown-proj:r:unknown-res-1");
    assert_eq!(
        tx_config.resource_sections[0].file_filter,
        "shell-launcher-applet/translations/org.deepin.ds.dock.launcherapplet_<lang>.ts"
    );
    assert_eq!(tx_config.resource_sections[1].resource_full_slug, "o:unknown-org:p:unknown-proj:r:unknown-res-2");
}

#[test]
fn lookup_table_names_known_resources() {
    let table = vec![
        TxResourceLookupEntry {
            repository: "other/repo".to_string(),
            branch: "master".to_string(),
            resource: "shell-launcher-applet/translations/org.deepin.ds.dock.launcherapplet.ts".to_string(),
            transifex_resource_id: "o:x:p:y:r:wrong".to_string(),
        },
        TxResourceLookupEntry {
            repository: "user/repo".to_string(),
            branch: "master".to_string(),
            resource: "shell-launcher-applet/translations/org.deepin.ds.dock.launcherapplet.ts".to_string(),
            transifex_resource_id: "o:linuxdeepin:p:dde:r:launcher".to_string(),
        },
    ];
    let cfg = sample_yaml().to_tx_config("user/repo".to_string(), table);
    assert_eq!(cfg.main_section.host, "https://www.transifex.com");
    assert_eq!(cfg.resource_sections[0].resource_full_slug, "o:linuxdeepin:p:dde:r:launcher");
    assert_eq!(cfg.resource_sections[1].resource_full_slug, "o:unknown-org:p:unknown-proj:r:unknown-res-1");
    assert_eq!(cfg.resource_sections[1].source_file, "dcc-network/translations/network_en_US.ts");
    assert_eq!(cfg.resource_sections[1].type_attr, "QT");
}

#[test]
fn many_unknown_resources_are_numbered() {
    let mut yaml = sample_yaml();
    for k in 0..10 {
        yaml.filters.push(filter(&format!("x{k}.ts"), &format!("x{k}_<lang>.ts")));
    }
    let cfg = yaml.to_tx_config(String::new(), vec![]);
    assert_eq!(cfg.resource_sections[11].resource_full_slug, "o:unknown-org:p:unknown-proj:r:unknown-res-12");
}

#[test]
fn tx_config_converts_back() {
    let cfg = TxConfig {
        main_section: TxConfigSectionMain { host: "https://www.transifex.com".to_string(), minimum_prec: Some(80), mode: None },
        resource_sections: vec![TxConfigSectionResource {
            resource_full_slug: "o:a:p:b:r:c".to_string(),
            file_filter: "translations/desktop/desktop_<lang>.ts".to_string(),
            minimum_prec: None,
            source_file: "translations/desktop/desktop.ts".to_string(),
            source_lang: "en".to_string(),
            type_attr: "QT".to_string(),
        }],
    };
    let yaml = cfg.to_transifex_yaml();
    assert_eq!(yaml.filters.len(), 1);
    assert_eq!(yaml.filters[0].type_attr, "file");
    assert_eq!(yaml.filters[0].target_pattern, "translations/desktop/desktop_<lang>.ts");
    assert_eq!(yaml.settings.branch_template, "transifex_update_<br_unique_id>");

    let found = try_load_transifex_project_file(Err(LoadTxYamlError::FileNotFound), Some(Ok((".tx/config".to_string(), cfg))))
        .unwrap();
    assert_eq!(found.0, ".tx/config");
    assert_eq!(found.1.filters[0].source, "translations/desktop/desktop.ts");
    assert_eq!(
        try_load_transifex_project_file(Err(LoadTxYamlError::FileNotFound), None).unwrap_err(),
        TxProjectFileLoadError::TxYamlLoadError(LoadTxYamlError::FileNotFound)
    );
}

#[test]
fn directory_template_discovery() {
    let f = filter("locales/en/messages.po", "locales/<lang>/messages.po");
    let t = f.target_template("/proj").unwrap();
    assert_eq!(t, TargetTemplate::InPath { base: "/proj/locales/".to_string(), rest: "messages.po".to_string() });
    let entries = vec!["fr".to_string(), "zh_CN".to_string(), "x".to_string()];
    let found = f.match_target_files("/proj", &entries).unwrap();
    assert_eq!(
        found,
        vec![
            ("fr".to_string(), "/proj/locales/fr/messages.po".to_string()),
            ("zh_CN".to_string(), "/proj/locales/zh_CN/messages.po".to_string()),
        ]
    );
}

#[test]
fn file_name_template_discovery() {
    let f = filter("example/sample.ts", "example/sample_<lang>.ts");
    let t = f.target_template("/root").unwrap();
    assert_eq!(
        t,
        TargetTemplate::InFileName {
            dir: "/root/example".to_string(),
            prefix: "sample_".to_string(),
            suffix: ".ts".to_string()
        }
    );
    let entries = vec![
        "sample_zh_CN.ts".to_string(),
        "sample.ts".to_string(),
        "sample_de.ts".to_string(),
        "sample_toolongcode.ts".to_string(),
        "other_fr.ts".to_string(),
    ];
    let found = f.match_target_files("/root", &entries).unwrap();
    assert_eq!(
        found,
        vec![
            ("zh_CN".to_string(), "/root/example/sample_zh_CN.ts".to_string()),
            ("de".to_string(), "/root/example/sample_de.ts".to_string()),
        ]
    );
}

#[test]
fn template_errors() {
    assert_eq!(filter("a", "po/<lang>_<lang>.po").target_template("").unwrap_err(), TemplateError::InvalidFilterPattern);
    assert_eq!(filter("a", "po/messages.po").target_template("").unwrap_err(), TemplateError::MissingLang);
    assert_eq!(filter("a", "po/").target_template("").unwrap_err(), TemplateError::NoFileName);
}
