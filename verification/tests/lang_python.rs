use typope::lang::{Language, LintableString, Mapping};
use typope::SharedSource;

#[test]
fn python_exists_in_iter() {
    assert!(Language::iter(&Mapping::build()).iter().any(|lang| lang.name() == "python"));
}

#[test]
fn python_find_from_extensions() {
    for detection in Language::python().detections() {
        assert_eq!(
            "python",
            Language::from_filename(&Mapping::build(), &detection.replace('*', "file")).unwrap().name()
        );
    }
}

#[test]
fn python_lintable_strings() {
    let python = r#"
s = "abcd"
d = 1234 # Hehe "foobar"
s = "abcd" "efgh"

# Comments
def f():
    return 'ijkl'
"#;
    let python = SharedSource::new("file.py", python.as_bytes().to_vec());
    let parsed = Language::python().parse(&python).unwrap();
    let strings = parsed.strings(python.as_bytes());
    assert_eq!(
        strings,
        [
            LintableString::new(6, "abcd".into()),
            LintableString::new(42, "abcd".into()),
            LintableString::new(49, "efgh".into()),
            LintableString::new(88, "ijkl".into())
        ]
    );
}
