use typope::lang::{Language, LintableString, Mapping};
use typope::SharedSource;

#[test]
fn yaml_exists_in_iter() {
    assert!(Language::iter(&Mapping::build()).iter().any(|lang| lang.name() == "yaml"));
}

#[test]
fn yaml_find_from_extensions() {
    for detection in Language::yaml().detections() {
        assert_eq!(
            "yaml",
            Language::from_filename(&Mapping::build(), &detection.replace('*', "file")).unwrap().name()
        );
    }
}

#[test]
fn yaml_lintable_strings() {
    let yaml = r#"---
name: "foobar"
description: "a description describing : something"
field:
    - a: "abcdef"
      b: "ghijk"
      required: false
    - a: "1234"
      b: "5678"
      required: true
"#;
    let yaml = SharedSource::new("file.yml", yaml.as_bytes().to_vec());
    let parsed = Language::yaml().parse(&yaml).unwrap();
    let strings = parsed.strings(yaml.as_bytes());
    assert_eq!(
        strings,
        [
            LintableString::new(10, r#""foobar""#.into()),
            LintableString::new(32, r#""a description describing : something""#.into()),
            LintableString::new(87, r#""abcdef""#.into()),
            LintableString::new(105, r#""ghijk""#.into()),
            LintableString::new(144, r#""1234""#.into()),
            LintableString::new(160, r#""5678""#.into())
        ]
    );
}
