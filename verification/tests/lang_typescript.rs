use typope::lang::{Language, LintableString, Mapping};
use typope::SharedSource;

#[test]
fn typescript_exists_in_iter() {
    assert!(Language::iter(&Mapping::build()).iter().any(|lang| lang.name() == "typescript"));
}

#[test]
fn typescript_find_from_filename() {
    assert_eq!(
        "typescript",
        Language::from_filename(&Mapping::build(), "file.ts")
            .unwrap()
            .name()
    );
}

#[test]
fn typescript_lintable_strings() {
    let typescript = r#"
let helloWorld = "Hello World";
const user = {
  name: "Hayes",
  id: 0,
};
type WindowStates = "open" | "closed" | "minimized";
"#;
    let typescript = SharedSource::new("file.ts", typescript.as_bytes().to_vec());
    let parsed = Language::typescript().parse(&typescript).unwrap();
    let strings = parsed.strings(typescript.as_bytes());
    assert_eq!(
        strings,
        [
            LintableString::new(19, "Hello World".into()),
            LintableString::new(57, "Hayes".into()),
            LintableString::new(98, "open".into()),
            LintableString::new(107, "closed".into()),
            LintableString::new(118, "minimized".into())
        ]
    );
}
