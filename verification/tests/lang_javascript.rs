use typope::lang::{Language, LintableString, Mapping};
use typope::SharedSource;

#[test]
fn javascript_exists_in_iter() {
    assert!(Language::iter(&Mapping::build()).iter().any(|lang| lang.name() == "javascript"));
}

#[test]
fn javascript_find_from_filename() {
    assert_eq!(
        "javascript",
        Language::from_filename(&Mapping::build(), "file.js")
            .unwrap()
            .name()
    );
}

#[test]
fn javascript_lintable_strings() {
    let javascript = r#"
var a = "test";
button = document.createElement("button");
button.addEventListener("click", cb);
"#;
    let javascript = SharedSource::new("file.js", javascript.as_bytes().to_vec());
    let parsed = Language::javascript().parse(&javascript).unwrap();
    let strings = parsed.strings(javascript.as_bytes());
    assert_eq!(
        strings,
        [
            LintableString::new(10, "test".into()),
            LintableString::new(50, "button".into()),
            LintableString::new(85, "click".into())
        ]
    );
}
