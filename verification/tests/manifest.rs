use typope::lang::cargo_toml::{
    Description, DescriptionField, ManifestDocument, PackageTable, ParsedManifest, WorkspaceTable,
};
use typope::lang::{Language, LintableString, ParseError};
use typope::pattern::IgnorePattern;
use typope::SharedSource;

fn strings(manifest: &str) -> Result<Vec<LintableString>, ParseError> {
    let source = SharedSource::new("Cargo.toml", manifest.as_bytes().to_vec());
    let parsed = Language::cargo_toml().parse(&source)?;
    Ok(parsed.strings(source.as_bytes()))
}

#[test]
fn manifest_without_package_has_no_strings() {
    assert_eq!(strings("[dependencies]\nanyhow = \"1\"\n"), Ok(vec![]));
    assert_eq!(strings(""), Ok(vec![]));
}

#[test]
fn manifest_gives_the_description_of_the_package_and_of_the_workspace() {
    let manifest = "[package]\ndescription = \"one two\"\n\n[workspace.package]\ndescription = \"three four\"\n";
    let found = strings(manifest).unwrap();
    assert_eq!(
        found,
        vec![
            LintableString::new(manifest.find("one").unwrap(), "one two".into()),
            LintableString::new(manifest.find("three").unwrap(), "three four".into()),
        ]
    );
}

#[test]
fn manifest_that_is_no_toml_is_refused() {
    assert_eq!(strings("invaliddddddd").unwrap_err(), ParseError::InvalidManifest);
    assert_eq!(ParseError::InvalidManifest.message(), "Invalid manifest");
}

#[test]
fn package_without_description_is_refused() {
    assert_eq!(strings("[package]\nname = \"abc\"\n").unwrap_err(), ParseError::InvalidManifest);
    assert_eq!(strings("[package]\ndescription = 3\n").unwrap_err(), ParseError::InvalidManifest);
    assert_eq!(strings("package = 3\n").unwrap_err(), ParseError::InvalidManifest);
    assert_eq!(strings("workspace = 3\n").unwrap_err(), ParseError::InvalidManifest);
    assert_eq!(
        strings("[workspace.package]\nname = \"abc\"\n").unwrap_err(),
        ParseError::InvalidManifest
    );
    assert_eq!(strings("[workspace]\nmembers = []\n"), Ok(vec![]));
}

#[test]
fn short_descriptions_are_not_checked() {
    assert_eq!(strings("[package]\ndescription = \"abc\"\n"), Ok(vec![]));
    assert_eq!(
        strings("[package]\ndescription = \"abcd\"\n"),
        Ok(vec![LintableString::new(25, "abcd".into())])
    );
    let manifest = ParsedManifest {
        package: Some(Description { start: usize::MAX, text: "too far away".into() }),
        workspace: Some(Description { start: 7, text: "near".into() }),
    };
    assert_eq!(manifest.strings(), vec![LintableString::new(8, "near".into())]);
}

#[test]
fn patterns_keep_their_text() {
    let pattern = IgnorePattern::new(r"foo\w+bar").unwrap();
    assert_eq!(pattern.as_str(), r"foo\w+bar");
    assert!(pattern.is_match("a foooobar b"));
    assert!(!pattern.is_match("a foobar b"));
    assert_eq!(pattern.clone(), pattern);
    assert!(pattern.clone().is_match("fooxbar"));
    assert!(IgnorePattern::new(r"foo(bar").is_none());
    assert_ne!(IgnorePattern::new("a").unwrap(), IgnorePattern::new("b").unwrap());
}

fn text(start: usize, text: &str) -> DescriptionField {
    DescriptionField::Text(Description { start, text: text.into() })
}

fn description(start: usize, text: &str) -> Option<Description> {
    Some(Description { start, text: text.into() })
}

#[test]
fn documents_give_their_descriptions() {
    let document = |package, workspace| ManifestDocument { package, workspace };
    assert_eq!(
        ParsedManifest::from_document(document(PackageTable::Missing, WorkspaceTable::Missing)),
        Ok(ParsedManifest { package: None, workspace: None })
    );
    assert_eq!(
        ParsedManifest::from_document(document(
            PackageTable::Table(text(3, "one")),
            WorkspaceTable::Table(PackageTable::Table(text(9, "two")))
        )),
        Ok(ParsedManifest { package: description(3, "one"), workspace: description(9, "two") })
    );
    assert_eq!(
        ParsedManifest::from_document(document(
            PackageTable::Missing,
            WorkspaceTable::Table(PackageTable::Missing)
        )),
        Ok(ParsedManifest { package: None, workspace: None })
    );
    let refused = [
        document(PackageTable::NotATable, WorkspaceTable::Missing),
        document(PackageTable::Table(DescriptionField::Missing), WorkspaceTable::Missing),
        document(PackageTable::Table(DescriptionField::NotText), WorkspaceTable::Missing),
        document(PackageTable::Missing, WorkspaceTable::NotATable),
        document(PackageTable::Table(text(3, "one")), WorkspaceTable::NotATable),
        document(PackageTable::Missing, WorkspaceTable::Table(PackageTable::NotATable)),
        document(
            PackageTable::Table(text(3, "one")),
            WorkspaceTable::Table(PackageTable::Table(DescriptionField::Missing)),
        ),
        document(
            PackageTable::Missing,
            WorkspaceTable::Table(PackageTable::Table(DescriptionField::NotText)),
        ),
    ];
    for document in refused {
        assert_eq!(ParsedManifest::from_document(document), Err(ParseError::InvalidManifest));
    }
}
