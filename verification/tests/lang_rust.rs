use typope::lang::{Language, LintableString, Mapping};
use typope::SharedSource;

#[test]
fn rust_exists_in_iter() {
    assert!(Language::iter(&Mapping::build()).iter().any(|lang| lang.name() == "rust"));
}

#[test]
fn rust_find_from_extensions() {
    for detection in Language::rust().detections() {
        assert_eq!(
            "rust",
            Language::from_filename(&Mapping::build(), &detection.replace('*', "file")).unwrap().name()
        );
    }
}

#[test]
fn rust_lintable_strings() {
    let rust = r#"
        /// Doc comment
        fn func() -> anyhow::Result<()> {
            anyhow::bail!("failed to do something for the following reason : foobar foo");
        }

        static STR: &str = "hello";
        static RSTR: &str = r"raw raw";
        fn f() { let a = ["a", "b", "c"];}
        fn fb() { let a = ["aaaa", "bbbb", "cccc"];}
        "#;

    let rust = SharedSource::new("file.rs", rust.as_bytes().to_vec());
    let parsed = Language::rust().parse(&rust).unwrap();
    let strings = parsed.strings(rust.as_bytes());
    assert_eq!(
        strings,
        [
            LintableString::new(94, r"failed to do something for the following reason : foobar foo".into()),
            LintableString::new(197, "hello".into()),
            LintableString::new(316, "aaaa".into()),
            LintableString::new(324, "bbbb".into()),
            LintableString::new(332, "cccc".into())
        ]
    );
}
