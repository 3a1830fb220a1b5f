use typope::lang::{Language, LintableString, Mapping};
use typope::SharedSource;

#[test]
fn kotlin_exists_in_iter() {
    assert!(Language::iter(&Mapping::build()).iter().any(|lang| lang.name() == "kotlin"));
}

#[test]
fn kotlin_find_from_filenames() {
    for filename in ["file.kt", "file.kts"] {
        assert_eq!(
            "kotlin",
            Language::from_filename(&Mapping::build(), filename)
                .unwrap()
                .name()
        );
    }
}

#[test]
fn kotlin_lintable_strings() {
    let kotlin = r#"
package org.kotlinlang.play

fun f(): String {
    return "abcdef"
}

fun main() {
    var s = "foobar"
    println("Hello, World! ($s) ghijkl")
}
"#;
    let kotlin = SharedSource::new("file.kt", kotlin.as_bytes().to_vec());
    let parsed = Language::kotlin().parse(&kotlin).unwrap();
    let strings = parsed.strings(kotlin.as_bytes());
    assert_eq!(
        strings,
        [
            LintableString::new(60, "abcdef".into()),
            LintableString::new(97, "foobar".into()),
            LintableString::new(118, "Hello, World! (".into()),
            LintableString::new(135, ") ghijkl".into()),
        ]
    );
}
