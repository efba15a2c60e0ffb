use linguist::detect_language_by_extension;
use linguist::indexed::{build_index, LinguistIndex};
use linguist::types::{Heuristics, Language, LanguageType};

fn lang(t: LanguageType, ace: &str, tm: &str, id: i64, exts: &[&str], files: &[&str]) -> Language {
    Language {
        language_type: t,
        ace_mode: ace.to_string(),
        tm_scope: tm.to_string(),
        language_id: id,
        extensions: if exts.is_empty() {
            None
        } else {
            Some(exts.iter().map(|s| s.to_string()).collect())
        },
        filenames: if files.is_empty() {
            None
        } else {
            Some(files.iter().map(|s| s.to_string()).collect())
        },
        aliases: None,
        interpreters: None,
        color: None,
        codemirror_mode: None,
        codemirror_mime_type: None,
        group: None,
        fs_name: None,
        wrap: None,
    }
}

fn test_index() -> LinguistIndex {
    let mut python = lang(
        LanguageType::Programming,
        "python",
        "source.python",
        303,
        &[".py"],
        &[],
    );
    python.color = Some("#3572A5".to_string());
    let languages = vec![
        (
            "C".to_string(),
            lang(LanguageType::Programming, "c_cpp", "source.c", 41, &[".c", ".h"], &[]),
        ),
        (
            "C++".to_string(),
            lang(
                LanguageType::Programming,
                "c_cpp",
                "source.c++",
                43,
                &[".cpp", ".h", ".hpp"],
                &[],
            ),
        ),
        (
            "CSS".to_string(),
            lang(LanguageType::Markup, "css", "source.css", 50, &[".css"], &[]),
        ),
        (
            "Blade".to_string(),
            lang(LanguageType::Markup, "text", "text.html.php.blade", 33, &[".blade.php"], &[]),
        ),
        (
            "PHP".to_string(),
            lang(LanguageType::Programming, "php", "text.html.php", 272, &[".php"], &[]),
        ),
        (
            "Go".to_string(),
            lang(LanguageType::Programming, "golang", "source.go", 132, &[".go"], &[]),
        ),
        (
            "Java".to_string(),
            lang(LanguageType::Programming, "java", "source.java", 181, &[".java"], &[]),
        ),
        (
            "JavaScript".to_string(),
            lang(LanguageType::Programming, "javascript", "source.js", 183, &[".js"], &[]),
        ),
        (
            "Markdown".to_string(),
            lang(LanguageType::Prose, "markdown", "text.md", 222, &[".md"], &[]),
        ),
        (
            "GCC Machine Description".to_string(),
            lang(LanguageType::Programming, "lisp", "source.lisp", 121, &[".md"], &[]),
        ),
        (
            "Makefile".to_string(),
            lang(
                LanguageType::Programming,
                "makefile",
                "source.makefile",
                220,
                &[".mak", ".mk"],
                &["Makefile", "makefile"],
            ),
        ),
        ("Python".to_string(), python),
        (
            "Ruby".to_string(),
            lang(LanguageType::Programming, "ruby", "source.ruby", 326, &[".rb"], &[]),
        ),
        (
            "Rust".to_string(),
            lang(LanguageType::Programming, "rust", "source.rust", 327, &[".rs", ".rs.in"], &[]),
        ),
        (
            "RenderScript".to_string(),
            lang(LanguageType::Programming, "text", "none", 323, &[".rs", ".rsh"], &[]),
        ),
        (
            "TypeScript".to_string(),
            lang(LanguageType::Programming, "typescript", "source.ts", 378, &[".ts"], &[]),
        ),
        (
            "XML".to_string(),
            lang(LanguageType::Data, "xml", "text.xml", 399, &[".xml"], &[]),
        ),
    ];
    let heuristics = Heuristics { disambiguations: vec![], named_patterns: vec![] };
    build_index(languages, heuristics, vec![])
}

/// Helper: Assert that the detected languages contain the expected language
fn assert_detects(filename: &str, expected_language: &str) {
    let idx = test_index();
    let langs = detect_language_by_extension(&idx, filename).expect("Should not error");
    let detected_names: Vec<&str> = langs.iter().map(|lang| lang.name.as_str()).collect();
    assert!(
        detected_names.contains(&expected_language),
        "Expected '{}' to be detected for '{}', but got: {:?}",
        expected_language,
        filename,
        detected_names
    );
}

/// Helper: Assert that only one language is detected and it matches the expected language
fn assert_detects_only(filename: &str, expected_language: &str) {
    let idx = test_index();
    let langs = detect_language_by_extension(&idx, filename).expect("Should not error");
    assert_eq!(
        langs.len(),
        1,
        "Expected exactly 1 language for '{}', but got: {}",
        filename,
        langs.len()
    );
    assert_eq!(
        langs[0].name, expected_language,
        "Expected '{}' for '{}', but got '{}'",
        expected_language, filename, langs[0].name
    );
}

/// Helper: Assert that no language is detected
fn assert_detects_none(filename: &str) {
    let idx = test_index();
    let langs = detect_language_by_extension(&idx, filename).expect("Should not error");
    assert!(
        langs.is_empty(),
        "Expected no language for '{}', but got: {:?}",
        filename,
        langs.iter().map(|lang| &lang.name).collect::<Vec<_>>()
    );
}

#[test]
fn detect_rust() {
    // .rs is shared by multiple languages, but Rust should be one of them
    assert_detects("hello.rs", "Rust");
}

#[test]
fn by_extension_detect_with_path() {
    // .rs is shared by multiple languages, but Rust should be one of them
    assert_detects("src/main.rs", "Rust");
}

#[test]
fn detect_python() {
    assert_detects_only("script.py", "Python");
}

#[test]
fn detect_javascript() {
    assert_detects_only("app.js", "JavaScript");
}

#[test]
fn by_extension_no_extension() {
    assert_detects_none("Makefile");
}

#[test]
fn by_extension_unknown_extension() {
    assert_detects_none("file.xyz123");
}

#[test]
fn ambiguous_extension_h() {
    // .h is used by both C and C++
    assert_detects("header.h", "C");
    assert_detects("header.h", "C++");
}

#[test]
fn by_extension_case_sensitive() {
    // Extensions are case-sensitive
    assert_detects_none("file.RS");
}

#[test]
fn double_extension() {
    assert_detects_only("config.rs.in", "Rust");
}

#[test]
fn common_languages() {
    assert_detects_only("main.go", "Go");
    assert_detects_only("App.java", "Java");
    assert_detects_only("script.rb", "Ruby");
    assert_detects_only("styles.css", "CSS");
}

#[test]
fn compound_extensions() {
    // Test compound extensions like .blade.php, .d.ts, etc.
    assert_detects("template.blade.php", "Blade");
    assert_detects("types.d.ts", "TypeScript");
}

#[test]
fn markdown_variants() {
    // .md is ambiguous between Markdown and GCC Machine Description
    assert_detects("README.md", "Markdown");
}

#[test]
fn returns_language_objects() {
    // Verify we get full Language objects with metadata
    let idx = test_index();
    let langs = detect_language_by_extension(&idx, "script.py").expect("Should not error");
    assert_eq!(langs.len(), 1);

    let detected = &langs[0];
    assert_eq!(detected.name, "Python");
    assert_eq!(detected.definition.ace_mode, "python");
    assert_eq!(detected.definition.tm_scope, "source.python");
    assert!(
        detected
            .definition
            .extensions
            .as_ref()
            .unwrap()
            .contains(&".py".to_string())
    );
    assert!(detected.definition.color.is_some());
}
