use typope::lang::{Language, LintableString, Mapping};
use typope::SharedSource;

#[test]
fn cargo_toml_exists_in_iter() {
    assert!(Language::iter(&Mapping::build()).iter().any(|lang| lang.name() == "Cargo.toml"));
}

#[test]
fn cargo_toml_find_from_filename() {
    assert_eq!(
        "Cargo.toml",
        Language::from_filename(&Mapping::build(), "Cargo.toml")
            .unwrap()
            .name()
    );
}

#[test]
fn cargo_toml_lintable_strings() {
    let cargo_toml = r#"[package]
name = "typope"
edition = "2021"
description = "Pedantic source code checker for orthotypography mistakes and other typographical errors"
license = "MIT"

[dependencies]
anyhow = "1"
"#;
    let toml = SharedSource::new("Cargo.toml", cargo_toml.as_bytes().to_vec());
    let parsed = Language::cargo_toml().parse(&toml).unwrap();
    let strings = parsed.strings(toml.as_bytes());
    assert_eq!(
        strings,
        [
            LintableString::new(58, "Pedantic source code checker for orthotypography mistakes and other typographical errors".into())
        ]
    );
}
