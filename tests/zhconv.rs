use deepin_translation_utils::i18n_file::common::{I18nFileKind, MessageStats};
use deepin_translation_utils::i18n_file::gettext::{Po, PoMessage};
use deepin_translation_utils::i18n_file::linguist::{Context, Location, Message, Translation, TranslationType, Ts};
use deepin_translation_utils::subcmd::zhconv::{
    correct_language_code, target_file_path, translate_po_content, translate_ts_content, zhconv_wrapper, CmdError,
    ZhConvFile,
};

fn message(source: &str, value: Option<&str>, type_attr: Option<TranslationType>) -> Message {
    Message {
        location: vec![],
        source: source.to_string(),
        translation: Translation { type_attr, value: value.map(|v| v.to_string()), numerus_forms: vec![] },
        comment: None,
        numerus: None,
    }
}

/// The sample document: two finished entries, an obsolete one, an unfinished one
/// and a plural one.
fn sample_ts() -> Ts {
    let mut first = message("A friend in need is a friend indeed", Some("海内存知己"), None);
    first.location.push(Location { filename: Some("../../widget/mainwindow.ui".to_string()), line: "+17".to_string() });
    let mut plural = message("%n photos", None, None);
    plural.numerus = Some("yes".to_string());
    plural.translation.numerus_forms.push("共%n张照片".to_string());
    Ts {
        language: Some("zh_CN".to_string()),
        version: "2.1".to_string(),
        contexts: vec![Context {
            name: "ts::SampleContext".to_string(),
            messages: vec![
                first,
                message(
                    "Software engineer using mouse to manipulate the cursor on the screen",
                    Some("软件开发工程师在使用鼠标操作屏幕上的光标"),
                    None,
                ),
                message("TV band", Some("电视频段"), Some(TranslationType::Obsolete)),
                message("England", None, Some(TranslationType::Unfinished)),
                plural,
            ],
        }],
    }
}

fn po_message(msgid: &str, msgstr: &str, is_fuzzy: bool) -> PoMessage {
    PoMessage { msgid: msgid.to_string(), msgstr: msgstr.to_string(), msgstr_plural: vec![], is_plural: false, is_fuzzy }
}

fn sample_po() -> Po {
    Po {
        language: "zh_CN".to_string(),
        messages: vec![
            po_message("A friend in need is a friend indeed", "海内存知己", false),
            po_message(
                "Software engineer using mouse to manipulate the cursor on the screen",
                "软件开发工程师在使用鼠标操作屏幕上的光标",
                false,
            ),
            po_message("TV band", "", true),
            po_message("England", "", false),
        ],
    }
}

#[test]
fn zhconv_tst_translate_ts_content() {
    let source_ts = sample_ts();
    let mut target_ts = source_ts.clone();
    target_ts.set_language("zh_TW");
    target_ts.clear_finished_messages();
    assert!(translate_ts_content(&source_ts, &mut target_ts).is_ok());
    assert_eq!(target_ts.get_language(), Some("zh_TW".to_string()));
    assert_eq!(target_ts.contexts.len(), 1);
    assert_eq!(target_ts.contexts[0].messages.len(), 5);
    assert_eq!(target_ts.contexts[0].messages[0].translation.value, Some(String::from("海內存知己")));
    assert_eq!(
        target_ts.contexts[0].messages[1].translation.value,
        Some(String::from("軟體開發工程師在使用滑鼠操作螢幕上的游標"))
    );
    assert_eq!(target_ts.contexts[0].messages[2].translation.value, Some(String::from("电视频段")));
    assert_eq!(target_ts.contexts[0].messages[3].translation.value, None);
}

#[test]
fn tst_translate_po_content() {
    let source_po = sample_po();
    let mut target_po = source_po.clone();
    target_po.set_language("zh_TW");
    target_po.clear_finished_messages();
    assert!(translate_po_content(&source_po, &mut target_po).is_ok());
    assert_eq!(target_po.get_language(), "zh_TW".to_string());
    assert_eq!(target_po.messages.len(), 4);
    assert_eq!(target_po.messages[0].msgstr, "海內存知己");
    assert_eq!(target_po.messages[1].msgstr, "軟體開發工程師在使用滑鼠操作螢幕上的游標");
    assert_eq!(target_po.messages[2].msgstr, "");
    assert_eq!(target_po.messages[3].msgstr, "");
}

#[test]
fn bootstrapped_zh_tw_target() {
    let source = sample_ts();
    let mut target = Ts::load_from_file_or_default(None, source.clone(), "zh_TW");
    assert_eq!(target.get_language(), Some("zh_TW".to_string()));
    let stats = target.get_message_stats();
    assert_eq!(stats, MessageStats { finished: 1, unfinished: 3, vanished: 0, obsolete: 1, fuzzy: 0 });
    assert!(translate_ts_content(&source, &mut target).is_ok());
    let msgs = &target.contexts[0].messages;
    assert!(msgs[0].translation.type_attr.is_none());
    assert!(msgs[1].translation.type_attr.is_none());
    assert_eq!(msgs[1].translation.value, Some("軟體開發工程師在使用滑鼠操作螢幕上的游標".to_string()));
    assert_eq!(msgs[2].translation.type_attr, Some(TranslationType::Obsolete));
    assert_eq!(msgs[2].translation.value, Some("电视频段".to_string()));
    assert_eq!(msgs[3].translation.type_attr, Some(TranslationType::Unfinished));
    assert_eq!(msgs[3].translation.value, None);
    assert_eq!(msgs[4].translation.numerus_forms, vec!["共%n张照片".to_string()]);
    assert_eq!(target.get_message_stats(), MessageStats { finished: 3, unfinished: 1, vanished: 0, obsolete: 1, fuzzy: 0 });
}

#[test]
fn propagating_twice_changes_nothing_more() {
    let source = sample_ts();
    let mut target = Ts::load_from_file_or_default(None, source.clone(), "zh_TW");
    translate_ts_content(&source, &mut target).unwrap();
    let once = format!("{:?}", target);
    translate_ts_content(&source, &mut target).unwrap();
    assert_eq!(format!("{:?}", target), once);
}

#[test]
fn fully_translated_target_is_left_alone_even_without_variant() {
    let source = sample_ts();
    let mut target = source.clone();
    target.set_language("fr");
    let before = format!("{:?}", target);
    assert!(translate_ts_content(&source, &mut target).is_ok());
    assert_eq!(format!("{:?}", target), before);
}

#[test]
fn plural_entries_are_not_filled() {
    let source = sample_ts();
    let mut target = source.clone();
    target.set_language("zh_TW");
    target.contexts[0].messages[4].translation.type_attr = Some(TranslationType::Unfinished);
    target.contexts[0].messages[4].translation.value = None;
    let mut source2 = source.clone();
    source2.contexts[0].messages[4].translation.value = Some("照片".to_string());
    translate_ts_content(&source2, &mut target).unwrap();
    assert_eq!(target.contexts[0].messages[4].translation.value, None);
}

#[test]
fn structural_errors() {
    let source = sample_ts();
    let mut target = source.clone();
    target.language = None;
    assert_eq!(translate_ts_content(&source, &mut target), Err(CmdError::MissingLanguageCode));

    let mut target = Ts::load_from_file_or_default(None, source.clone(), "zh_TW");
    target.contexts.push(Context { name: "extra".to_string(), messages: vec![] });
    assert_eq!(translate_ts_content(&source, &mut target), Err(CmdError::DifferentContexts("zh_TW".to_string())));

    let mut target = Ts::load_from_file_or_default(None, source.clone(), "zh_TW");
    target.contexts[0].messages.pop();
    let before = format!("{:?}", target);
    assert_eq!(translate_ts_content(&source, &mut target), Err(CmdError::DifferentMessages("zh_TW".to_string(), 5, 4)));
    assert_eq!(format!("{:?}", target), before);

    let mut target = Ts::load_from_file_or_default(None, source.clone(), "fr");
    let before = format!("{:?}", target);
    assert_eq!(translate_ts_content(&source, &mut target), Err(CmdError::ParseLanguageCode));
    assert_eq!(format!("{:?}", target), before);

    let mut po = sample_po();
    po.messages.pop();
    assert_eq!(
        translate_po_content(&sample_po(), &mut po),
        Err(CmdError::DifferentMessages("zh_CN".to_string(), 4, 3))
    );

    let mut file = ZhConvFile::Linguist(sample_ts());
    assert_eq!(
        file.translate_content_based_on(&ZhConvFile::Gettext(sample_po())),
        Err(CmdError::MismatchedI18nFileType)
    );
}

#[test]
fn document_dispatch() {
    let source = ZhConvFile::Gettext(sample_po());
    let mut target = source.clone().load_or_create_target_file(None, "zh_HK").unwrap();
    assert_eq!(target.get_language(), Some("zh_HK".to_string()));
    assert!(target.translate_content_based_on(&source).is_ok());
    match &target {
        ZhConvFile::Gettext(po) => assert_eq!(po.messages[0].msgstr, "海內存知己"),
        _ => panic!("kind changed"),
    }
    let existing = ZhConvFile::Linguist(sample_ts());
    assert_eq!(
        source.clone().load_or_create_target_file(Some(existing), "zh_HK").unwrap_err(),
        CmdError::MismatchedI18nFileType
    );
}

#[test]
fn language_codes_and_conversion() {
    assert_eq!(correct_language_code("zh_TW"), "zh-TW");
    assert_eq!(correct_language_code("zh_Hant_TW"), "zh-Hant-TW");
    assert_eq!(zhconv_wrapper("海内存知己", "zh_TW"), Ok("海內存知己".to_string()));
    assert_eq!(zhconv_wrapper("海內存知己", "zh_CN"), Ok("海内存知己".to_string()));
    assert_eq!(zhconv_wrapper("text", "fr_FR"), Err(CmdError::ParseLanguageCode));
    assert_eq!(
        target_file_path("translations/app_zh_CN.ts", "zh_CN", "zh_TW"),
        Some("translations/app_zh_TW.ts".to_string())
    );
    assert_eq!(target_file_path("zh_CN/app.ts", "zh_CN", "zh_TW"), None);
}

#[test]
fn kinds_from_extensions() {
    assert_eq!(I18nFileKind::from_ext_hint("a/b.ts").unwrap(), I18nFileKind::Linguist);
    assert_eq!(I18nFileKind::from_ext_hint("a/b.PO").unwrap(), I18nFileKind::Gettext);
    assert_eq!(I18nFileKind::from_ext_hint("b.pot").unwrap(), I18nFileKind::Gettext);
    assert_eq!(I18nFileKind::from_ext_hint("b.Md").unwrap_err().ext, "md");
    assert_eq!(I18nFileKind::from_ext_hint("a.d/README").unwrap_err().ext, "");
    assert_eq!(I18nFileKind::from_ext_hint(".ts").unwrap_err().ext, "");
}

#[test]
fn gettext_stats() {
    let po = sample_po();
    assert_eq!(po.get_language(), "zh_CN");
    assert_eq!(po.get_message_stats(), MessageStats { finished: 2, unfinished: 1, vanished: 0, obsolete: 0, fuzzy: 1 });
    let stats = po.get_message_stats();
    assert_eq!(stats.shown_translated(), 2);
    assert_eq!(stats.shown_unfinished(), 2);
    assert_eq!(stats.shown_obsolete(), 0);
}

#[test]
fn four_entry_scenario_onto_fresh_zh_tw() {
    let mut source = sample_ts();
    source.contexts[0].messages.pop();
    let mut target = Ts::load_from_file_or_default(None, source.clone(), "zh_TW");
    translate_ts_content(&source, &mut target).unwrap();
    let msgs = &target.contexts[0].messages;
    assert_eq!(msgs.len(), 4);
    assert_eq!(msgs[0].translation.value, Some("海內存知己".to_string()));
    assert!(msgs[0].translation.type_attr.is_none());
    assert_eq!(msgs[1].translation.value, Some("軟體開發工程師在使用滑鼠操作螢幕上的游標".to_string()));
    assert!(msgs[1].translation.type_attr.is_none());
    assert_eq!(msgs[2].translation.type_attr, Some(TranslationType::Obsolete));
    assert_eq!(msgs[2].translation.value, Some("电视频段".to_string()));
    assert_eq!(msgs[3].translation.type_attr, Some(TranslationType::Unfinished));
    assert_eq!(msgs[3].translation.value, None);
}
