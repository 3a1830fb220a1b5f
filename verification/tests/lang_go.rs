use typope::lang::{Language, Mapping};
use typope::SharedSource;

#[test]
fn go_exists_in_iter() {
    assert!(Language::iter(&Mapping::build()).iter().any(|lang| lang.name() == "go"));
}

#[test]
fn go_find_from_filename() {
    assert_eq!(
        "go",
        Language::from_filename(&Mapping::build(), "file.go").unwrap().name()
    );
}

#[test]
fn go_lintable_strings() {
    let go = "package main\n\nimport \"fmt\"\n\nfunc main() {\n\tfmt.Println(\"Hello, World!\")\n\ts := `raw : string`\n\t_ = s\n}\n";
    let source = SharedSource::new("file.go", go.as_bytes().to_vec());
    let parsed = Language::go().parse(&source).unwrap();
    let strings = parsed.strings(source.as_bytes());
    let hello = strings.iter().find(|s| s.as_str().contains("Hello")).unwrap();
    assert_eq!(hello.offset(), go.find("\"Hello").unwrap());
    assert_eq!(hello.as_str(), "\"Hello, World!\"");
    assert!(strings.iter().all(|s| !s.as_str().contains("raw")));
    assert!(strings.iter().all(|s| s.as_str().len() > 3));
}

#[test]
fn registry_lists_the_languages_in_their_order() {
    let mapping = Mapping::build();
    let names: Vec<&str> = Language::iter(&mapping).iter().map(|l| l.name()).collect();
    assert_eq!(
        names,
        vec![
            "rust", "c", "cpp", "kotlin", "go", "python", "toml", "yaml", "json", "javascript",
            "typescript", "markdown", "Cargo.toml"
        ]
    );
    assert_eq!(Language::from_filename(&mapping, "Cargo.toml").unwrap().name(), "Cargo.toml");
    assert_eq!(Language::from_filename(&mapping, "other.toml").unwrap().name(), "toml");
    assert_eq!(Language::from_filename(&mapping, "file.H.in").unwrap().name(), "c");
    assert_eq!(Language::from_filename(&mapping, "file.hxx").unwrap().name(), "cpp");
    assert_eq!(Language::from_filename(&mapping, "file.yaml").unwrap().name(), "yaml");
    assert!(Language::from_filename(&mapping, "Cargo.lock").is_none());
    assert!(Language::from_filename(&mapping, "rs").is_none());
    assert!(Language::from_filename(&mapping, "").is_none());
    assert_eq!(mapping.find_from_filename("README.md").unwrap().detections(), &["*.md"]);
    assert_eq!(mapping.all().len(), 13);
    for language in mapping.all() {
        for detection in language.detections() {
            let name = detection.replace('*', "file").replace("[chH]", "c");
            assert!(mapping.find_from_filename(&name).is_some(), "{detection}");
        }
    }
}
