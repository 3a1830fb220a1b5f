use typope::lang::{Language, LintableString, Mapping};
use typope::SharedSource;

#[test]
fn toml_exists_in_iter() {
    assert!(Language::iter(&Mapping::build()).iter().any(|lang| lang.name() == "toml"));
}

#[test]
fn toml_find_from_filename() {
    assert_eq!(
        "toml",
        Language::from_filename(&Mapping::build(), "file.toml")
            .unwrap()
            .name()
    );
}

#[test]
fn toml_lintable_strings() {
    let toml = r#"
s = "abcd"
d = 1234 # Hehe "foobar"
s = "efgh"

# Comments
[stuff]
key = 1234
another = "ijkl"

[foo."bar"]
required = true
"#;
    let toml = SharedSource::new("file.toml", toml.as_bytes().to_vec());
    let parsed = Language::toml().parse(&toml).unwrap();
    let strings = parsed.strings(toml.as_bytes());
    assert_eq!(
        strings,
        [
            LintableString::new(5, r#""abcd""#.into()),
            LintableString::new(41, r#""efgh""#.into()),
            LintableString::new(89, r#""ijkl""#.into())
        ]
    );
}
