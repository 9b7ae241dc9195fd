use langsmith::keys::format_key;
use langsmith::models::QuoteType;
use langsmith::scanner::SwcStringExtractor;

#[test]
fn test_format_key() {
    assert_eq!(format_key("Hello World"), "hello_world");
    assert_eq!(format_key("Click Me!"), "click_me");
    assert_eq!(format_key("user-profile"), "user_profile");
    assert_eq!(format_key("User Profile"), "user_profile");
}

#[test]
fn test_is_pascal_case() {
    let extractor = SwcStringExtractor;
    assert!(extractor.is_pascal_case("Button"));
    assert!(extractor.is_pascal_case("MyComponent"));
    assert!(extractor.is_pascal_case("React"));
    assert!(!extractor.is_pascal_case("button"));
    assert!(!extractor.is_pascal_case("hello world"));
    assert!(!extractor.is_pascal_case("user-profile"));
}

#[test]
fn test_should_extract_urls() {
    let extractor = SwcStringExtractor;
    let excluded = vec![];
    assert!(!extractor.should_extract("https://example.com", &excluded));
    assert!(!extractor.should_extract("http://example.com", &excluded));
    assert!(!extractor.should_extract("ftp://example.com", &excluded));
    assert!(!extractor.should_extract("data:image/png;base64", &excluded));
}

#[test]
fn test_should_extract_emails() {
    let extractor = SwcStringExtractor;
    let excluded = vec![];
    assert!(!extractor.should_extract("user@example.com", &excluded));
    assert!(!extractor.should_extract("test@domain.org", &excluded));
}

#[test]
fn test_should_extract_paths() {
    let extractor = SwcStringExtractor;
    let excluded = vec![];
    assert!(!extractor.should_extract("/path/to/file/name", &excluded));
    assert!(!extractor.should_extract("./relative/path/file", &excluded));
    assert!(!extractor.should_extract("../parent/path", &excluded));
}

#[test]
fn test_should_extract_component_names() {
    let extractor = SwcStringExtractor;
    let excluded = vec![];
    assert!(!extractor.should_extract("MyComponent", &excluded));
    assert!(!extractor.should_extract("Button", &excluded));
    assert!(!extractor.should_extract("UserProfile", &excluded));
}

#[test]
fn test_should_extract_valid_strings() {
    let extractor = SwcStringExtractor;
    let excluded = vec![];
    assert!(extractor.should_extract("Hello World", &excluded));
    assert!(extractor.should_extract("Click Me", &excluded));
    assert!(extractor.should_extract("Welcome to App", &excluded));
    assert!(extractor.should_extract("Please enter your name", &excluded));
}

#[test]
fn test_pascal_case_detection() {
    let extractor = SwcStringExtractor;
    assert!(extractor.is_pascal_case("Button"));
    assert!(extractor.is_pascal_case("MyComponent"));
    assert!(extractor.is_pascal_case("React"));
    assert!(extractor.is_pascal_case("UserProfile"));
    assert!(extractor.is_pascal_case("MyLongComponentName"));

    assert!(!extractor.is_pascal_case("button"));
    assert!(!extractor.is_pascal_case("hello world"));
    assert!(!extractor.is_pascal_case("user-profile"));
    assert!(!extractor.is_pascal_case(""));
    assert!(!extractor.is_pascal_case("ALLCAPS"));
}

#[test]
fn test_filtering_urls() {
    let extractor = SwcStringExtractor;
    let excluded = vec![];
    assert!(!extractor.should_extract("https://example.com", &excluded));
    assert!(!extractor.should_extract("http://example.com/page", &excluded));
    assert!(!extractor.should_extract("ftp://files.example.com", &excluded));
    assert!(!extractor.should_extract("data:image/png;base64,ABC123", &excluded));
    assert!(!extractor.should_extract("file:///path/to/file", &excluded));
}

#[test]
fn test_filtering_emails() {
    let extractor = SwcStringExtractor;
    let excluded = vec![];
    assert!(!extractor.should_extract("user@example.com", &excluded));
    assert!(!extractor.should_extract("admin@domain.org", &excluded));
    assert!(!extractor.should_extract("test.user@company.net", &excluded));
}

#[test]
fn test_filtering_file_paths() {
    let extractor = SwcStringExtractor;
    let excluded = vec![];
    assert!(!extractor.should_extract("/path/to/file/name", &excluded));
    assert!(!extractor.should_extract("./path/to/component", &excluded));
    assert!(!extractor.should_extract("../relative/path/file", &excluded));
    assert!(!extractor.should_extract("src/components/Button/index", &excluded));
    assert!(!extractor.should_extract("./file", &excluded));
    assert!(!extractor.should_extract("../file", &excluded));
}

#[test]
fn js_extractor_test_should_extract_valid_strings() {
    let extractor = SwcStringExtractor;
    let excluded = vec![];
    assert!(extractor.should_extract("Hello World", &excluded));
    assert!(extractor.should_extract("Click Me", &excluded));
    assert!(extractor.should_extract("Welcome to App", &excluded));
    assert!(extractor.should_extract("Please enter your name", &excluded));
    assert!(extractor.should_extract("Save Changes", &excluded));
    assert!(extractor.should_extract("Confirm Action", &excluded));
}

#[test]
fn test_should_extract_short_strings() {
    let extractor = SwcStringExtractor;
    let excluded = vec![];
    assert!(!extractor.should_extract("Hi", &excluded));
    assert!(!extractor.should_extract("OK", &excluded));
    assert!(!extractor.should_extract("a", &excluded));
}

#[test]
fn test_format_key_with_special_chars() {
    assert_eq!(format_key("Hello World!"), "hello_world");
    assert_eq!(format_key("Click-Me!"), "click_me");
    assert_eq!(format_key("user@profile"), "userprofile");
    assert_eq!(format_key("save_changes"), "save_changes");
    assert_eq!(format_key("SAVE_CHANGES"), "save_changes");
}

#[test]
fn test_excluded_package_names() {
    let extractor = SwcStringExtractor;
    let excluded = extractor.get_excluded_strings();
    assert!(excluded.contains(&"react"));
    assert!(excluded.contains(&"jsx"));
    assert!(excluded.contains(&"typescript"));
}

#[test]
fn test_quote_type_combinations() {
    let key1 = format_key("Hello World");
    let key2 = format_key("Hello World");
    assert_eq!(key1, key2);
    let key3 = format_key("Welcome");
    assert_ne!(key1, key3);
}

#[test]
fn test_mixed_case_filtering() {
    let extractor = SwcStringExtractor;
    let excluded = vec![];
    assert!(!extractor.should_extract("MyComponent", &excluded));
    assert!(!extractor.should_extract("FormField", &excluded));
    assert!(extractor.should_extract("Hello There", &excluded));
    assert!(extractor.should_extract("Welcome Back", &excluded));
}

#[test]
fn key_ignores_case_hyphens_and_spacing() {
    assert_eq!(format_key("Hello World"), format_key("hello   world"));
    assert_eq!(format_key("hello   world"), "hello_world");
    assert_eq!(format_key("  Save-Changes \t now "), "save_changes_now");
    assert_eq!(format_key("Save changes"), format_key("SAVE\nCHANGES"));
    assert_eq!(format_key("Grüße Welt"), "grüße_welt");
}

#[test]
fn filter_exclusions_from_the_property_list() {
    let extractor = SwcStringExtractor;
    let excluded = extractor.get_excluded_strings();
    assert!(!extractor.should_extract("https://x.com", &excluded));
    assert!(!extractor.should_extract("user@example.com", &excluded));
    assert!(!extractor.should_extract("/a/b/c/d", &excluded));
    assert!(!extractor.should_extract("MyComponent", &excluded));
    assert!(!extractor.should_extract("Hi", &excluded));
    assert!(extractor.should_extract("Please enter your name", &excluded));
}

#[test]
fn filter_rejects_listed_words_and_package_names() {
    let extractor = SwcStringExtractor;
    let excluded = extractor.get_excluded_strings();
    assert!(!extractor.should_extract("react", &excluded));
    assert!(!extractor.should_extract("node_modules", &excluded));
    assert!(!extractor.should_extract("lodash-es", &excluded));
    assert!(!extractor.should_extract("@scope/Thing Here", &excluded));
    assert!(extractor.should_extract("react is fine here", &excluded));
    assert!(extractor.should_extract("a@b c", &excluded));
    assert!(!extractor.should_extract("ab@c.de", &excluded));
    assert!(extractor.should_extract("a@b.c", &excluded));
}

#[test]
fn scanner_finds_each_quote_style() {
    let extractor = SwcStringExtractor;
    let content = "const a = \"Hello World\";\nconst b = 'Good Morning';\nconst c = `Nice Day`;";
    let found = extractor.extract_with_positions(content, "src/app.js");
    assert_eq!(found.len(), 3);
    let starts = [
        content.find("\"Hello World\"").unwrap(),
        content.find("'Good Morning'").unwrap(),
        content.find("`Nice Day`").unwrap(),
    ];
    let sources = ["Hello World", "Good Morning", "Nice Day"];
    let ids = ["hello_world", "good_morning", "nice_day"];
    let kinds = [QuoteType::Double, QuoteType::Single, QuoteType::Template];
    let lines = [1, 2, 3];
    for i in 0..3 {
        assert_eq!(found[i].source, sources[i]);
        assert_eq!(found[i].id, ids[i]);
        assert_eq!(found[i].start_byte, starts[i]);
        assert_eq!(found[i].end_byte, starts[i] + sources[i].len() + 2);
        assert_eq!(found[i].quote_type, kinds[i]);
        assert_eq!(found[i].line, lines[i]);
        assert_eq!(found[i].file_path, "src/app.js");
        assert!(found[i].end_byte <= content.len());
    }
}

#[test]
fn scanner_skips_expressions_and_duplicates() {
    let extractor = SwcStringExtractor;
    let content = "let a = `Hello ${name} there`; let b = \"Hello World\"; let c = 'Hello World';";
    let found = extractor.extract_with_positions(content, "a.ts");
    assert_eq!(found.len(), 1);
    assert_eq!(found[0].quote_type, QuoteType::Double);
    assert_eq!(found[0].source, "Hello World");
}

#[test]
fn scanner_trims_jsx_text() {
    let extractor = SwcStringExtractor;
    let content = "<div>\n  Save Changes\n</div>";
    let found = extractor.extract_with_positions(content, "a.jsx");
    assert_eq!(found.len(), 1);
    assert_eq!(found[0].quote_type, QuoteType::JsxText);
    assert_eq!(found[0].source, "Save Changes");
    assert_eq!(found[0].id, "save_changes");
    assert_eq!(found[0].start_byte, 8);
    assert_eq!(found[0].end_byte, 20);
    assert_eq!(&content[found[0].start_byte..found[0].end_byte], "Save Changes");
}

#[test]
fn scanner_reads_attribute_values() {
    let extractor = SwcStringExtractor;
    let content = "<img alt={photo} /><input title=\"Your full name\">";
    let found = extractor.extract_with_positions(content, "a.html");
    assert_eq!(found.len(), 1);
    assert_eq!(found[0].source, "Your full name");
    let quote = content.find("\"Your").unwrap();
    assert_eq!(found[0].start_byte, quote);
    assert_eq!(found[0].end_byte, quote + 16);
}

#[test]
fn scanner_counts_bytes_not_characters() {
    let extractor = SwcStringExtractor;
    let content = "const é = \"Ça marche bien\";";
    let found = extractor.extract_with_positions(content, "a.js");
    assert_eq!(found.len(), 1);
    let start = content.find('"').unwrap();
    assert_eq!(found[0].start_byte, start);
    assert_eq!(found[0].end_byte, content.len() - 1);
    assert_eq!(found[0].id, "ça_marche_bien");
}

#[test]
fn spans_stay_within_the_buffer() {
    let extractor = SwcStringExtractor;
    let content = "<p title=\"Keep going now\">Welcome back home</p> 'unterminated \"Open";
    for k in extractor.extract_with_positions(content, "p.html") {
        assert!(k.start_byte <= k.end_byte);
        assert!(k.end_byte <= content.len());
    }
}

#[test]
fn extract_drops_positions() {
    let extractor = SwcStringExtractor;
    let keys = extractor.extract("x = \"Welcome Back\"", "f.js");
    assert_eq!(keys.len(), 1);
    assert_eq!(keys[0].id, "welcome_back");
    assert_eq!(keys[0].source, "Welcome Back");
    assert_eq!(keys[0].file_path, "f.js");
    assert_eq!(keys[0].line, 1);
}
