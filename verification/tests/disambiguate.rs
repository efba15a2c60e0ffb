use linguist::disambiguate;
use linguist::indexed::{build_index, LinguistIndex};
use linguist::types::{Disambiguation, HeuristicRule, Heuristics, Language, LanguageType};

fn lang(t: LanguageType, ace: &str, tm: &str, id: i64, exts: &[&str]) -> Language {
    Language {
        language_type: t,
        ace_mode: ace.to_string(),
        tm_scope: tm.to_string(),
        language_id: id,
        extensions: if exts.is_empty() {
            None
        } else {
            Some(exts.iter().map(|s| s.to_string()).collect())
        },
        filenames: None,
        aliases: None,
        interpreters: None,
        color: None,
        codemirror_mode: None,
        codemirror_mime_type: None,
        group: None,
        fs_name: None,
        wrap: None,
    }
}

fn strings(items: &[&str]) -> Vec<String> {
    items.iter().map(|s| s.to_string()).collect()
}

fn rule(
    language: &[&str],
    pattern: &[&str],
    negative_pattern: &[&str],
    named_pattern: Option<&str>,
) -> HeuristicRule {
    HeuristicRule {
        language: if language.is_empty() { None } else { Some(strings(language)) },
        pattern: if pattern.is_empty() { None } else { Some(strings(pattern)) },
        negative_pattern: if negative_pattern.is_empty() {
            None
        } else {
            Some(strings(negative_pattern))
        },
        named_pattern: named_pattern.map(|s| s.to_string()),
        and: None,
    }
}

fn test_index() -> LinguistIndex {
    let languages = vec![
        (
            "C".to_string(),
            lang(LanguageType::Programming, "c_cpp", "source.c", 41, &[".c", ".h"]),
        ),
        (
            "C++".to_string(),
            lang(LanguageType::Programming, "c_cpp", "source.c++", 43, &[".cpp", ".h"]),
        ),
        (
            "Objective-C".to_string(),
            lang(LanguageType::Programming, "objectivec", "source.objc", 257, &[".m", ".h"]),
        ),
        (
            "Prolog".to_string(),
            lang(LanguageType::Programming, "prolog", "source.prolog", 301, &[".pl", ".prolog"]),
        ),
        (
            "Perl".to_string(),
            lang(LanguageType::Programming, "perl", "source.perl", 282, &[".pl", ".pm"]),
        ),
        (
            "Linux Kernel Module".to_string(),
            lang(LanguageType::Data, "text", "none", 209, &[".mod"]),
        ),
        (
            "AMPL".to_string(),
            lang(LanguageType::Programming, "text", "source.ampl", 8, &[".ampl", ".mod"]),
        ),
        (
            "Modula-2".to_string(),
            lang(LanguageType::Programming, "text", "source.modula2", 238, &[".mod"]),
        ),
        (
            "XML".to_string(),
            lang(LanguageType::Data, "xml", "text.xml", 399, &[".xml", ".ts", ".mod"]),
        ),
        (
            "TypeScript".to_string(),
            lang(LanguageType::Programming, "typescript", "source.ts", 378, &[".ts"]),
        ),
        (
            "Rust".to_string(),
            lang(LanguageType::Programming, "rust", "source.rust", 327, &[".rs"]),
        ),
        (
            "RenderScript".to_string(),
            lang(LanguageType::Programming, "text", "none", 323, &[".rs"]),
        ),
    ];
    let disambiguations = vec![
        Disambiguation {
            extensions: strings(&[".h"]),
            rules: vec![
                rule(
                    &["Objective-C"],
                    &["(?m)^\\s*(@(interface|class|protocol|property|end|implementation)|#import\\s)"],
                    &[],
                    None,
                ),
                rule(
                    &["C++"],
                    &[
                        "(?m)^\\s*#\\s*include <(cstdint|iostream|string|vector|map|list|array|queue|stack)>",
                        "std::",
                        "(?m)^\\s*template\\s*<",
                        "(?m)^\\s*using\\s+namespace\\s",
                    ],
                    &[],
                    None,
                ),
                rule(&["C"], &[], &[], None),
            ],
        },
        Disambiguation {
            extensions: strings(&[".pl"]),
            rules: vec![
                rule(&["Prolog"], &["(?m)^[^#]*:-"], &[], None),
                HeuristicRule {
                    language: Some(strings(&["Perl"])),
                    pattern: None,
                    negative_pattern: None,
                    named_pattern: None,
                    and: Some(vec![
                        rule(&[], &[], &["(?m)^\\s*use\\s+v6\\b"], None),
                        rule(&[], &[], &[], Some("perl5")),
                    ]),
                },
            ],
        },
        Disambiguation {
            extensions: strings(&[".mod"]),
            rules: vec![
                rule(&["XML"], &["<!ENTITY "], &[], None),
                rule(&["Modula-2"], &["(?mi)^\\s*(MODULE|END) [\\w\\.]+;"], &[], None),
                rule(&["Linux Kernel Module", "AMPL"], &[], &[], None),
            ],
        },
        Disambiguation {
            extensions: strings(&[".ts"]),
            rules: vec![
                rule(&["XML"], &["<TS\\b"], &[], None),
                rule(&["TypeScript"], &[], &[], None),
            ],
        },
        Disambiguation {
            extensions: strings(&[".rs"]),
            rules: vec![
                rule(
                    &["Rust"],
                    &["(?m)^(use |fn |mod |pub |macro_rules|impl|#!?\\[)"],
                    &[],
                    None,
                ),
                rule(
                    &["RenderScript"],
                    &["#include|#pragma\\s+(rs|version)|__attribute__"],
                    &[],
                    None,
                ),
            ],
        },
    ];
    let named_patterns = vec![(
        "perl5".to_string(),
        strings(&["\\buse\\s+(?:strict\\b|v?5\\b|warnings\\b)"]),
    )];
    let heuristics = Heuristics { disambiguations, named_patterns };
    build_index(languages, heuristics, vec![])
}

/// Helper: Assert that disambiguation returns the expected language
fn assert_disambiguates(filename: &str, content: &str, expected_language: &str) {
    let idx = test_index();
    let result = disambiguate(&idx, filename, content).expect("Should not error");
    assert!(
        !result.is_empty(),
        "Expected disambiguation to return a result for '{}', but got empty",
        filename
    );

    let detected_names: Vec<&str> = result.iter().map(|lang| lang.name.as_str()).collect();
    assert!(
        detected_names.contains(&expected_language),
        "Expected '{}' for '{}', but got '{:?}'",
        expected_language,
        filename,
        detected_names
    );
}

/// Helper: Assert that disambiguation returns empty vec
fn assert_no_disambiguation(filename: &str, content: &str) {
    let idx = test_index();
    let result = disambiguate(&idx, filename, content).expect("Should not error");

    assert!(
        result.is_empty(),
        "Expected no disambiguation for '{}', but got: {:?}",
        filename,
        result.iter().map(|lang| &lang.name).collect::<Vec<_>>()
    );
}

#[test]
fn detect_c_header() {
    // .h files are ambiguous between C and C++
    // Simple C-style code should be detected as C
    let c_content = "\n#include <stdio.h>\n\nint main() {\n    printf(\"Hello World\\n\");\n    return 0;\n}\n";
    assert_disambiguates("test.h", c_content, "C");
}

#[test]
fn detect_empty_h_file_as_c() {
    // Empty .h file should fall through Objective-C and C++ rules
    // and match the final C fallback rule (which has no pattern)
    assert_disambiguates("empty.h", "", "C");
}

#[test]
fn detect_cpp_header() {
    // C++ specific features like iostream and std::cout
    let cpp_content = "\n#include <iostream>\n\nint main() {\n    std::cout << \"Hello World\" << std::endl;\n    return 0;\n}\n";
    assert_disambiguates("test.h", cpp_content, "C++");
}

#[test]
fn detect_prolog_vs_perl() {
    // .pl is ambiguous between Prolog and Perl
    // Prolog code with typical patterns
    let prolog_content = "\nparent(tom, bob).\nparent(tom, liz).\nparent(bob, ann).\n\ngrandparent(X, Z) :-\n    parent(X, Y),\n    parent(Y, Z).\n";
    assert_disambiguates("test.pl", prolog_content, "Prolog");
}

#[test]
fn detect_perl_vs_prolog() {
    // Perl code with shebang
    let perl_content = "#!/usr/bin/env perl\nuse strict;\nuse warnings;\n\nprint \"Hello World\\n\";\n";
    assert_disambiguates("test.pl", perl_content, "Perl");
}

#[test]
fn detect_module_definition() {
    // .mod files can be various things
    // Linux kernel module
    let mod_content = "kernel/fs/ext4/ext4.ko\nkernel/drivers/net/ethernet/intel/e1000/e1000.ko\n";
    assert_disambiguates("modules.dep.mod", mod_content, "Linux Kernel Module");
}

#[test]
fn detect_typescript_definition() {
    // .ts files are ambiguous between TypeScript and XML
    // TypeScript with typical patterns
    let ts_content = "\ninterface User {\n    name: string;\n    age: number;\n}\n\nfunction greet(user: User): void {\n    console.log(`Hello ${user.name}`);\n}\n";
    assert_disambiguates("index.ts", ts_content, "TypeScript");
}

#[test]
fn detect_xml_as_ts() {
    // .ts extension with XML content
    let xml_content = "<?xml version=\"1.0\"?>\n<TS version=\"2.1\" language=\"en_US\">\n    <context>\n        <name>MainWindow</name>\n        <message>\n            <source>Hello</source>\n            <translation>Hello</translation>\n        </message>\n    </context>\n</TS>\n";
    assert_disambiguates("translation.ts", xml_content, "XML");
}

#[test]
fn empty_content() {
    // Empty content should still try to disambiguate
    // Depending on the rules, it might match a fallback
    let idx = test_index();
    let result = disambiguate(&idx, "test.h", "").expect("Should not error");
    // We don't assert a specific result here, as it depends on heuristic rules
    // Just verify it doesn't panic
    let _ = result;
}

#[test]
fn disambiguate_no_extension() {
    // File without extension should return an empty result
    assert_no_disambiguation("Makefile", "some content");
}

#[test]
fn disambiguate_unknown_extension() {
    // Extension that has no disambiguation rules
    assert_no_disambiguation("file.xyz123", "some content");
}

#[test]
fn with_path() {
    // Should work with full paths
    let cpp_content = "\n#include <iostream>\nusing namespace std;\n";
    assert_disambiguates("src/include/test.h", cpp_content, "C++");
}

#[test]
fn detect_renderscript() {
    // .rs is ambiguous between Rust and RenderScript
    // RenderScript has specific pragmas
    let rs_content = "\n#pragma version(1)\n#pragma rs java_package_name(com.example.app)\n\nvoid root(const uchar4 *v_in, uchar4 *v_out) {\n    *v_out = *v_in;\n}\n";
    assert_disambiguates("test.rs", rs_content, "RenderScript");
}

#[test]
fn detect_rust_vs_renderscript() {
    // Rust code should be detected correctly
    let rust_content = "fn main() {\n    println!(\"Hello, world!\");\n}\n\n#[derive(Debug)]\nstruct Point {\n    x: i32,\n    y: i32,\n}\n";
    assert_disambiguates("main.rs", rust_content, "Rust");
}
