use langsmith::imports::SimpleImportManager;
use langsmith::models::{FileType, LanguageFile, QuoteType, ReplacementStrategy, TranslationKeyWithPosition};
use langsmith::replacer::RegexReplacer;
use langsmith::workflow::ReplaceStringsUseCase;

fn record(id: &str, start: usize, end: usize) -> TranslationKeyWithPosition {
    TranslationKeyWithPosition {
        id: id.to_string(),
        source: String::new(),
        file_path: "f.js".to_string(),
        line: 1,
        start_byte: start,
        end_byte: end,
        quote_type: QuoteType::Double,
    }
}

#[test]
fn test_detect_jsx_context() {
    let content = r#"<div>"Hello"</div>"#;
    assert!(RegexReplacer::detect_jsx_context(content, 4));
    let content2 = r#"const msg = "Hello";"#;
    assert!(!RegexReplacer::detect_jsx_context(content2, 15));
}

#[test]
fn jsx_context_after_an_unmatched_angle() {
    let content = "<div>\"Save Changes\"</div>";
    assert!(RegexReplacer::detect_jsx_context(content, 4));
    assert!(!RegexReplacer::detect_jsx_context(content, 5));
    let plain = "const x = \"Save Changes\";";
    assert!(!RegexReplacer::detect_jsx_context(plain, 10));
    assert!(RegexReplacer::detect_jsx_context("<a", 99));
}

#[test]
fn test_has_import() {
    let content = "import { useTranslation } from \"react-i18next\";\nconst x = 1;";
    let import_stmt = "import { useTranslation } from \"react-i18next\";";
    assert!(SimpleImportManager::has_import(content, import_stmt));
    let content2 = "const x = 1;";
    assert!(!SimpleImportManager::has_import(content2, import_stmt));
}

#[test]
fn test_find_import_insertion_point() {
    let content = "import x from \"a\";\nimport y from \"b\";\nconst z = 1;";
    let point = SimpleImportManager::find_import_insertion_point(content);
    assert!(point > 0);
    assert_eq!(point, 37);
    assert_eq!(SimpleImportManager::find_import_insertion_point("const z = 1;"), 0);
}

#[test]
fn rewrite_round_trip() {
    let content = "const msg = \"Hello World\";";
    let keys = vec![record("hello_world", 12, 25)];
    let out = RegexReplacer.replace(content, &keys, &ReplacementStrategy::Generic);
    assert_eq!(out, "const msg = t(\"hello_world\");");
}

#[test]
fn rewrite_uses_jsx_form_inside_markup() {
    let content = "<p title=\"Hello World\">";
    let keys = vec![record("hello_world", 9, 22)];
    let out = RegexReplacer.replace(content, &keys, &ReplacementStrategy::ReactI18n);
    assert_eq!(out, "<p title={t(\"hello_world\")}>");
    let vue = RegexReplacer.replace(content, &keys, &ReplacementStrategy::VueI18n);
    assert_eq!(vue, "<p title={{ $t('hello_world') }}>");
}

#[test]
fn rewrite_back_to_front_keeps_other_bytes() {
    let content = "a \"one\" b \"two\" c";
    let keys = vec![record("k1", 2, 7), record("key2", 10, 15)];
    let out = RegexReplacer.replace(content, &keys, &ReplacementStrategy::Generic);
    assert_eq!(out, "a t(\"k1\") b t(\"key2\") c");
    let expected_len = content.len() + (7 - 5) + (9 - 5);
    assert_eq!(out.len(), expected_len);
    let reversed = vec![record("key2", 10, 15), record("k1", 2, 7)];
    assert_eq!(RegexReplacer.replace(content, &reversed, &ReplacementStrategy::Generic), out);
}

#[test]
fn rewrite_skips_bad_spans() {
    let content = "x = \"ok\";";
    let keys = vec![record("a", 5, 40), record("b", 6, 3)];
    assert_eq!(RegexReplacer.replace(content, &keys, &ReplacementStrategy::Generic), content);
    let accented = "é";
    let inside = vec![record("c", 1, 2)];
    assert_eq!(RegexReplacer.replace(accented, &inside, &ReplacementStrategy::Generic), accented);
}

#[test]
fn ensure_import_inserts_at_top_without_imports() {
    let out = SimpleImportManager.ensure_import("const x = 1;", FileType::JavaScript, &ReplacementStrategy::Generic);
    assert_eq!(out, "\nimport { t } from './i18n';\nconst x = 1;");
}

#[test]
fn ensure_import_goes_after_last_import() {
    let content = "import a from 'b';\nconst x = 1;";
    let out = SimpleImportManager.ensure_import(content, FileType::TSX, &ReplacementStrategy::ReactI18n);
    assert_eq!(
        out,
        "import a from 'b';\nimport { useTranslation } from 'react-i18next';\n\nconst x = 1;"
    );
}

#[test]
fn ensure_import_is_idempotent() {
    let texts = ["const x = 1;", "import a from 'b';\nconst x = 1;", "", "import { t } from './i18n';"];
    let strategies = [ReplacementStrategy::ReactI18n, ReplacementStrategy::VueI18n, ReplacementStrategy::Generic];
    for t in texts {
        for s in &strategies {
            let once = SimpleImportManager.ensure_import(t, FileType::JavaScript, s);
            let twice = SimpleImportManager.ensure_import(&once, FileType::JavaScript, s);
            assert_eq!(once, twice);
            assert!(SimpleImportManager::has_import(&once, s.import_statement()));
        }
    }
}

#[test]
fn rewrite_pipeline_only_touches_translated_keys() {
    let mut dict = LanguageFile::new();
    dict.insert("hello_world".to_string(), "Bonjour le monde".to_string());
    let content = "const a = \"Hello World\";\nconst b = \"Good Morning\";";
    let (text, keys) = ReplaceStringsUseCase::rewrite(content, "a.js", FileType::JavaScript, &dict, &ReplacementStrategy::Generic).unwrap();
    assert_eq!(keys.len(), 1);
    assert_eq!(keys[0].id, "hello_world");
    assert_eq!(text, "\nimport { t } from './i18n';\nconst a = t(\"hello_world\");\nconst b = \"Good Morning\";");
    let empty = LanguageFile::new();
    assert!(ReplaceStringsUseCase::rewrite(content, "a.js", FileType::JavaScript, &empty, &ReplacementStrategy::Generic).is_none());
}
