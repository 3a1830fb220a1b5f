use typope::lang::{Language, LintableString, Mapping};
use typope::SharedSource;

#[test]
fn json_exists_in_iter() {
    assert!(Language::iter(&Mapping::build()).iter().any(|lang| lang.name() == "json"));
}

#[test]
fn json_find_from_extensions() {
    for detection in Language::json().detections() {
        assert_eq!(
            "json",
            Language::from_filename(&Mapping::build(), &detection.replace('*', "file")).unwrap().name()
        );
    }
}

#[test]
fn json_lintable_strings() {
    let json = r#"
{
    "field": "content",
    "another_field": 1234,
    "dict": {
        "boolean": false,
        "array": ["data"]
    }
}
"#;
    let json = SharedSource::new("file.json", json.as_bytes().to_vec());
    let parsed = Language::json().parse(&json).unwrap();
    let strings = parsed.strings(json.as_bytes());
    assert_eq!(
        strings,
        [
            LintableString::new(8, "field".into()),
            LintableString::new(17, "content".into()),
            LintableString::new(32, "another_field".into()),
            LintableString::new(59, "dict".into()),
            LintableString::new(77, "boolean".into()),
            LintableString::new(103, "array".into()),
            LintableString::new(113, "data".into())
        ]
    );
}
