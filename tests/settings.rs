use langsmith::config::{ApiProvider, ConfigError, ConfigManager};
use langsmith::languages::{lang_code_to_name, normalize_target_lang};
use langsmith::models::{FileType, LanguageFile, ParseError, ReplacementStrategy, TranslationKey};
use langsmith::wizard::{Framework, TranslationApi, Wizard};
use langsmith::workflow::{ExtractStringsUseCase, MergeI18nUseCase, MergeFile, MergeSummary, ReplaceStringsUseCase, TranslateKeysUseCase};

#[test]
fn test_provider_from_str() {
    assert_eq!(ApiProvider::from_str("deepl").unwrap(), ApiProvider::DeepL);
    assert_eq!(ApiProvider::from_str("openai").unwrap(), ApiProvider::OpenAI);
    assert_eq!(ApiProvider::from_str("DEEPL").unwrap(), ApiProvider::DeepL);
    assert!(ApiProvider::from_str("invalid").is_err());
}

#[test]
fn test_config_cli_priority() {
    let config = ConfigManager::get_api_config("deepl", Some("cli-key"), None);
    assert!(config.is_ok());
    assert_eq!(config.unwrap().api_key, "cli-key");
}

#[test]
fn config_falls_back_to_environment_and_reports_errors() {
    let c = ConfigManager::get_api_config("OpenAI", None, Some("env-key")).unwrap();
    assert_eq!(c.provider, ApiProvider::OpenAI);
    assert_eq!(c.api_key, "env-key");
    assert_eq!(ConfigManager::get_api_config("deepl", Some(""), Some("x")).unwrap_err(), ConfigError::EmptyCliKey);
    let e = ConfigManager::get_api_config("deepl", None, Some("")).unwrap_err();
    assert_eq!(e, ConfigError::EmptyEnvKey("DEEPL_API_KEY".to_string()));
    assert_eq!(e.message(), "Environment variable DEEPL_API_KEY is empty");
    let m = ConfigManager::get_api_config("openai", None, None).unwrap_err();
    assert_eq!(m.message(), "API key not found. Set OPENAI_API_KEY environment variable or use --api-key flag");
    let u = ConfigManager::get_api_config("google", Some("k"), None).unwrap_err();
    assert_eq!(u, ConfigError::UnknownProvider("google".to_string()));
    assert_eq!(u.message(), "Unknown provider: google. Supported: deepl, openai");
    assert_eq!(ApiProvider::OpenAI.env_var_name(), "OPENAI_API_KEY");
}

#[test]
fn strategy_names_and_calls() {
    assert_eq!(ReplacementStrategy::from_str("React-I18N").unwrap(), ReplacementStrategy::ReactI18n);
    assert_eq!(ReplacementStrategy::from_str("vue-i18n").unwrap(), ReplacementStrategy::VueI18n);
    assert_eq!(ReplacementStrategy::from_str("GENERIC").unwrap(), ReplacementStrategy::Generic);
    let err = ReplacementStrategy::from_str("angular").unwrap_err();
    assert_eq!(err, ParseError::UnknownStrategy("angular".to_string()));
    assert_eq!(err.message(), "Unknown strategy: angular. Supported: react-i18n, vue-i18n, generic");
    assert_eq!(ReplacementStrategy::ReactI18n.translate_call("k", true), "{t(\"k\")}");
    assert_eq!(ReplacementStrategy::ReactI18n.translate_call("k", false), "t(\"k\")");
    assert_eq!(ReplacementStrategy::VueI18n.translate_call("k", false), "{{ $t('k') }}");
    assert_eq!(ReplacementStrategy::Generic.translate_call("k", true), "t(\"k\")");
    assert_eq!(ReplacementStrategy::VueI18n.import_statement(), "import { useI18n } from 'vue-i18n';");
}

#[test]
fn file_types_from_extensions() {
    assert_eq!(FileType::from_extension("tsx"), FileType::TSX);
    assert_eq!(FileType::from_extension("htm"), FileType::HTML);
    assert_eq!(FileType::from_extension("vue"), FileType::Vue);
    assert_eq!(FileType::from_extension("rs"), FileType::Other);
    assert!(FileType::JavaScript.is_supported());
    assert!(!FileType::Other.is_supported());
}

#[test]
fn language_file_keeps_last_value() {
    let mut f = LanguageFile::new();
    assert!(f.get("a").is_none());
    f.insert("a".to_string(), "one".to_string());
    f.insert("b".to_string(), "two".to_string());
    f.insert("a".to_string(), "three".to_string());
    assert_eq!(f.get("a").unwrap(), "three");
    assert_eq!(f.get("b").unwrap(), "two");
    assert_eq!(f.translations.len(), 2);
}

#[test]
fn aggregation_collects_keys() {
    let k = |id: &str, src: &str| TranslationKey { id: id.to_string(), source: src.to_string(), file_path: "f".to_string(), line: 1 };
    let mut f = LanguageFile::new();
    ExtractStringsUseCase::collect_into(&mut f, &vec![k("hello", "Hello"), k("bye", "Bye now"), k("hello", "HELLO")]);
    assert_eq!(f.get("hello").unwrap(), "HELLO");
    assert_eq!(f.get("bye").unwrap(), "Bye now");
}

#[test]
fn deepl_and_language_names() {
    assert_eq!(normalize_target_lang("EN"), "EN-US");
    assert_eq!(normalize_target_lang("pt"), "PT-PT");
    assert_eq!(normalize_target_lang("sv"), "SV");
    assert_eq!(lang_code_to_name("Ko"), "Korean");
    assert_eq!(lang_code_to_name("xx"), "XX");
}

#[test]
fn file_names_for_rewritten_files() {
    assert_eq!(ReplaceStringsUseCase::create_i18n_filename("App.tsx").unwrap(), "App.i18n.tsx");
    assert_eq!(ReplaceStringsUseCase::create_i18n_filename("a.b.js").unwrap(), "a.b.i18n.js");
    assert!(ReplaceStringsUseCase::create_i18n_filename("Makefile").is_none());
    assert!(ReplaceStringsUseCase::create_i18n_filename(".hidden").is_none());
    assert_eq!(MergeI18nUseCase::get_original_path("App.i18n.tsx"), "App.tsx");
    assert_eq!(MergeI18nUseCase::get_original_path("App.tsx"), "App.tsx");
    assert!(MergeI18nUseCase::is_i18n_file("App.i18n.tsx"));
    assert!(!MergeI18nUseCase::is_i18n_file("App.tsx"));
    let s = MergeSummary::new(vec![MergeFile { i18n_file: "a.i18n.js".to_string(), original_file: "a.js".to_string(), file_size: 3 }]);
    assert_eq!(s.total_files, 1);
}

#[test]
fn translation_fallbacks() {
    assert!(!TranslateKeysUseCase::needs_translation("a"));
    assert!(TranslateKeysUseCase::needs_translation("ab"));
    assert_eq!(TranslateKeysUseCase::translated_text("Hello", Some("Bonjour".to_string())), "Bonjour");
    assert_eq!(TranslateKeysUseCase::translated_text("Hello", None), "Hello");
    assert_eq!(TranslateKeysUseCase::translated_text("a", Some("x".to_string())), "a");
    assert_eq!(TranslateKeysUseCase::language_file_name("fr"), "fr.json");
}

#[test]
fn wizard_choices() {
    assert_eq!(Framework::from_index(3), Some(Framework::Vanilla));
    assert_eq!(Framework::from_index(4), None);
    assert_eq!(Framework::Vanilla.name(), "Vanilla JS");
    assert_eq!(TranslationApi::from_index(2), Some(TranslationApi::Skip));
    assert!(!TranslationApi::Skip.needs_key());
    assert_eq!(Wizard::language_code("French (fr)"), "fr");
    assert_eq!(Wizard::language_code("Odd (x"), "x");
    assert_eq!(Wizard::language_code("None"), "en");
    assert_eq!(Framework::Vue.strategy(), ReplacementStrategy::VueI18n);
    assert_eq!(Framework::Angular.strategy(), ReplacementStrategy::Generic);
    assert_eq!(TranslationApi::OpenAI.provider(), Some(ApiProvider::OpenAI));
    assert_eq!(TranslationApi::Skip.provider(), None);
    assert_eq!(ApiProvider::DeepL.name(), "deepl");
}
