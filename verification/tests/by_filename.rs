use linguist::detect_language_by_filename;
use linguist::indexed::{build_index, LinguistIndex};
use linguist::types::{Heuristics, Language, LanguageType};

fn lang(t: LanguageType, ace: &str, tm: &str, id: i64, exts: &[&str], files: &[&str]) -> Language {
    Language {
        language_type: t,
        ace_mode: ace.to_string(),
        tm_scope: tm.to_string(),
        language_id: id,
        extensions: if exts.is_empty() {
            None
        } else {
            Some(exts.iter().map(|s| s.to_string()).collect())
        },
        filenames: if files.is_empty() {
            None
        } else {
            Some(files.iter().map(|s| s.to_string()).collect())
        },
        aliases: None,
        interpreters: None,
        color: None,
        codemirror_mode: None,
        codemirror_mime_type: None,
        group: None,
        fs_name: None,
        wrap: None,
    }
}

fn test_index() -> LinguistIndex {
    let languages = vec![
        (
            "Alpine Abuild".to_string(),
            lang(LanguageType::Programming, "sh", "source.shell", 14, &[], &["APKBUILD"]),
        ),
        (
            "Ant Build System".to_string(),
            lang(LanguageType::Data, "xml", "text.xml.ant", 15, &[], &["build.xml"]),
        ),
        (
            "Dockerfile".to_string(),
            lang(LanguageType::Programming, "dockerfile", "source.dockerfile", 89, &[
                ".dockerfile",
            ], &["Dockerfile"]),
        ),
        (
            "Ignore List".to_string(),
            lang(LanguageType::Data, "gitignore", "source.gitignore", 162, &[], &[".gitignore"]),
        ),
        (
            "JavaScript".to_string(),
            lang(LanguageType::Programming, "javascript", "source.js", 183, &[".js"], &[]),
        ),
        (
            "Makefile".to_string(),
            lang(
                LanguageType::Programming,
                "makefile",
                "source.makefile",
                220,
                &[".mak", ".mk"],
                &["Makefile", "makefile", "GNUmakefile"],
            ),
        ),
        (
            "Python".to_string(),
            lang(LanguageType::Programming, "python", "source.python", 303, &[".py"], &[]),
        ),
        (
            "Text".to_string(),
            lang(LanguageType::Prose, "text", "none", 372, &[".txt"], &[]),
        ),
    ];
    let heuristics = Heuristics { disambiguations: vec![], named_patterns: vec![] };
    build_index(languages, heuristics, vec![])
}

/// Helper: Assert that only one language is detected and it matches the expected language
fn assert_detects_only(filename: &str, expected_language: &str) {
    let idx = test_index();
    let langs = detect_language_by_filename(&idx, filename).expect("Should not error");
    assert_eq!(
        langs.len(),
        1,
        "Expected exactly 1 language for '{}', but got: {}",
        filename,
        langs.len()
    );
    assert_eq!(
        langs[0].name, expected_language,
        "Expected '{}' for '{}', but got '{}'",
        expected_language, filename, langs[0].name
    );
}

/// Helper: Assert that no language is detected
fn assert_detects_none(filename: &str) {
    let idx = test_index();
    let langs = detect_language_by_filename(&idx, filename).expect("Should not error");
    assert!(
        langs.is_empty(),
        "Expected no language for '{}', but got: {:?}",
        filename,
        langs.iter().map(|lang| &lang.name).collect::<Vec<_>>()
    );
}

#[test]
fn detect_makefile() {
    assert_detects_only("Makefile", "Makefile");
}

#[test]
fn detect_dockerfile() {
    assert_detects_only("Dockerfile", "Dockerfile");
}

#[test]
fn detect_gitignore() {
    assert_detects_only(".gitignore", "Ignore List");
}

#[test]
fn by_filename_detect_with_path() {
    // Should work with paths, extracting just the filename
    assert_detects_only("path/to/Makefile", "Makefile");
    assert_detects_only("/etc/Dockerfile", "Dockerfile");
}

#[test]
fn no_match_for_extension() {
    // Should not match extensions - that's what detect_language_by_extension is for
    assert_detects_none("test.py");
    assert_detects_none("script.js");
}

#[test]
fn by_filename_case_sensitive() {
    // Filenames are case-sensitive exact matches
    // Both "Makefile" and "makefile" are valid (both in the Makefile language definition)
    assert_detects_only("Makefile", "Makefile");
    assert_detects_only("makefile", "Makefile");

    // But completely different case won't match
    assert_detects_none("DOCKERFILE"); // Dockerfile exists, but not DOCKERFILE
}

#[test]
fn detect_apkbuild() {
    assert_detects_only("APKBUILD", "Alpine Abuild");
}

#[test]
fn detect_build_xml() {
    assert_detects_only("build.xml", "Ant Build System");
}

#[test]
fn unknown_filename() {
    assert_detects_none("unknown_special_file");
    assert_detects_none("random.txt");
}
