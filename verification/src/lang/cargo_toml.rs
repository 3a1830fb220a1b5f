//! The manifest of a Rust package: of all that it holds, its description is
//! prose.
use vstd::prelude::*;

use super::{
    string_views, CustomParser, Language, LintableString, LintableStringView, Mode, ParseError,
    Strategy, MIN_LEN,
};
use crate::text::{lossy_text, lossy_utf8, words_of};

verus! {

/// `toml::Spanned`: a value with its place in the document.
#[verifier::external_type_specification]
#[verifier::external_body]
#[verifier::reject_recursive_types(T)]
pub struct ExSpanned<T>(::toml::Spanned<T>);

/// `toml::de::DeValue`: a value of a TOML document.
#[verifier::external_type_specification]
#[verifier::external_body]
pub struct ExDeValue<'i>(::toml::de::DeValue<'i>);

/// `toml::de::Error`: why a text is no TOML document.
#[verifier::external_type_specification]
#[verifier::external_body]
pub struct ExError(::toml::de::Error);

/// What kind of value stands at a place of a TOML document.
pub enum TomlKind {
    /// A table.
    Table,
    /// A string, with its text.
    Text(Seq<char>),
    /// Any other value.
    Other,
}

/// A value of a TOML document, as far as a manifest is read.
pub struct TomlItem {
    /// The byte offset at which the value starts in the document.
    pub start: nat,
    /// What kind of value it is.
    pub kind: TomlKind,
}

/// What `value` holds: itself under the empty path and, where it is a table,
/// under a path of keys the value that is reached by looking up these keys one
/// after the other, each in the table that the one before it gave.
pub uninterp spec fn toml_contents(value: ::toml::Spanned<::toml::de::DeValue<'_>>) -> Map<
    Seq<Seq<char>>,
    TomlItem,
>;

/// What `DeTable::parse` makes of `text`: what the table of the document
/// holds, or nothing where `text` is no TOML document.
pub uninterp spec fn toml_document(text: Seq<char>) -> Option<Map<Seq<Seq<char>>, TomlItem>>;

/// What the value under `key` holds, where `contents` is what a value holds.
pub open spec fn under(contents: Map<Seq<Seq<char>>, TomlItem>, key: Seq<char>) -> Map<
    Seq<Seq<char>>,
    TomlItem,
> {
    Map::new(
        |path: Seq<Seq<char>>| contents.dom().contains(seq![key] + path),
        |path: Seq<Seq<char>>| contents[seq![key] + path],
    )
}

/// What the value under `key` holds, if there is one.
pub open spec fn lookup(contents: Map<Seq<Seq<char>>, TomlItem>, key: Seq<char>) -> Option<
    Map<Seq<Seq<char>>, TomlItem>,
> {
    if contents.dom().contains(seq![key]) {
        Some(under(contents, key))
    } else {
        None
    }
}

/// The value itself among what it holds.
pub open spec fn itself(contents: Map<Seq<Seq<char>>, TomlItem>) -> TomlItem {
    contents[Seq::empty()]
}

/// `DeTable::parse`: the table that the TOML document `text` holds, as a
/// value with its place in the text, or why `text` is no TOML document.
#[verifier::external_body]
fn parse_document<'i>(text: &'i str) -> (document: Result<
    ::toml::Spanned<::toml::de::DeValue<'i>>,
    ::toml::de::Error,
>)
    ensures
        match document {
            Ok(d) => toml_document(text@) == Some(toml_contents(d)),
            Err(_) => toml_document(text@) is None,
        },
{
    ::toml::de::DeTable::parse(text).map(
        |table| ::toml::Spanned::new(table.span(), ::toml::de::DeValue::Table(table.into_inner())),
    )
}

/// `DeValue::get`: what the table `value` holds under `key`; nothing where
/// `value` is no table or has no such key.
#[verifier::external_body]
fn entry<'r, 'i>(value: &'r ::toml::Spanned<::toml::de::DeValue<'i>>, key: &str) -> (found: Option<
    &'r ::toml::Spanned<::toml::de::DeValue<'i>>,
>)
    ensures
        match found {
            Some(f) => lookup(toml_contents(*value), key@) == Some(toml_contents(*f)),
            None => lookup(toml_contents(*value), key@) is None,
        },
{
    value.get_ref().get(key)
}

/// `DeValue::is_table`: whether `value` is a table.
#[verifier::external_body]
fn is_table(value: &::toml::Spanned<::toml::de::DeValue<'_>>) -> (table: bool)
    ensures
        table == (itself(toml_contents(*value)).kind is Table),
{
    value.get_ref().is_table()
}

/// `DeValue::as_str`: the text of `value`, if it is a string.
#[verifier::external_body]
fn text_of<'r>(value: &'r ::toml::Spanned<::toml::de::DeValue<'_>>) -> (text: Option<&'r str>)
    ensures
        match text {
            Some(t) => itself(toml_contents(*value)).kind == TomlKind::Text(t@),
            None => !(itself(toml_contents(*value)).kind is Text),
        },
{
    value.get_ref().as_str()
}

/// `Spanned::span`: the byte offset at which `value` starts in the document.
#[verifier::external_body]
fn start_of(value: &::toml::Spanned<::toml::de::DeValue<'_>>) -> (start: usize)
    ensures
        start == itself(toml_contents(*value)).start,
{
    value.span().start
}

/// A description as a manifest holds it.
#[derive(Debug, PartialEq, Eq)]
pub struct Description {
    /// The byte offset of the quote that opens the description.
    pub start: usize,
    /// The text between the quotes.
    pub text: String,
}

/// Parser for `Cargo.toml` files that only returns relevant lintable strings (e.g., the description field)
#[derive(Debug, PartialEq, Eq)]
pub struct ParsedManifest {
    /// The description of the package.
    pub package: Option<Description>,
    /// The description that the packages of the workspace share.
    pub workspace: Option<Description>,
}

/// The string to check in `description`, if it is long enough: its text, from
/// the byte after the opening quote on.
pub open spec fn description_string(description: Option<Description>) -> Seq<LintableStringView> {
    match description {
        Some(d) => if vstd::utf8::encode_utf8(d.text@).len() > MIN_LEN && d.start < usize::MAX {
            seq![LintableStringView { offset: (d.start + 1) as nat, value: d.text@ }]
        } else {
            Seq::empty()
        },
        None => Seq::empty(),
    }
}

/// The strings to check in a manifest: the description of the package, then
/// the one of the workspace.
pub open spec fn manifest_strings(manifest: ParsedManifest) -> Seq<LintableStringView> {
    description_string(manifest.package) + description_string(manifest.workspace)
}

/// What a package table holds under `description`.
#[derive(Debug)]
pub enum DescriptionField {
    /// Nothing.
    Missing,
    /// A value that is no string.
    NotText,
    /// A string.
    Text(Description),
}

/// What a manifest holds under `package`.
#[derive(Debug)]
pub enum PackageTable {
    /// Nothing.
    Missing,
    /// A value that is no table.
    NotATable,
    /// A table, with what it holds under `description`.
    Table(DescriptionField),
}

/// What a manifest holds under `workspace`.
#[derive(Debug)]
pub enum WorkspaceTable {
    /// Nothing.
    Missing,
    /// A value that is no table.
    NotATable,
    /// A table, with what it holds under `package`.
    Table(PackageTable),
}

/// What a manifest holds of its descriptions.
#[derive(Debug)]
pub struct ManifestDocument {
    pub package: PackageTable,
    pub workspace: WorkspaceTable,
}

/// The description that `package` gives. A package needs none to exist, but a
/// package that exists must be a table with a description that is a string.
pub open spec fn described(package: PackageTable) -> Result<Option<Description>, ParseError> {
    match package {
        PackageTable::Missing => Ok(None),
        PackageTable::Table(DescriptionField::Text(description)) => Ok(Some(description)),
        _ => Err(ParseError::InvalidManifest),
    }
}

/// The descriptions that `document` gives, or why it is refused: the
/// workspace, where there is one, must be a table, and each package must have
/// its description.
pub open spec fn descriptions(document: ManifestDocument) -> Result<ParsedManifest, ParseError> {
    match described(document.package) {
        Err(e) => Err(e),
        Ok(package) => match document.workspace {
            WorkspaceTable::Missing => Ok(ParsedManifest { package, workspace: None }),
            WorkspaceTable::NotATable => Err(ParseError::InvalidManifest),
            WorkspaceTable::Table(shared) => match described(shared) {
                Err(e) => Err(e),
                Ok(workspace) => Ok(ParsedManifest { package, workspace }),
            },
        },
    }
}

/// What a [`Description`] holds.
pub struct DescriptionView {
    /// The byte offset of the quote that opens the description.
    pub start: nat,
    /// The text between the quotes.
    pub text: Seq<char>,
}

/// What a [`ParsedManifest`] holds.
pub struct ManifestView {
    /// The description of the package.
    pub package: Option<DescriptionView>,
    /// The description that the packages of the workspace share.
    pub workspace: Option<DescriptionView>,
}

/// What `description` holds.
pub open spec fn description_view(description: Option<Description>) -> Option<DescriptionView> {
    match description {
        Some(d) => Some(DescriptionView { start: d.start as nat, text: d.text@ }),
        None => None,
    }
}

impl View for ParsedManifest {
    type V = ManifestView;

    open spec fn view(&self) -> ManifestView {
        ManifestView {
            package: description_view(self.package),
            workspace: description_view(self.workspace),
        }
    }
}

/// What `parsed` holds, or why there is nothing.
pub open spec fn outcome_view(parsed: Result<ParsedManifest, ParseError>) -> Result<
    ManifestView,
    ParseError,
> {
    match parsed {
        Ok(manifest) => Ok(manifest@),
        Err(e) => Err(e),
    }
}

/// Whether `package` is what a manifest holds for a package, where `table` is
/// what the value under `package` holds, if there is one.
pub open spec fn is_package(package: PackageTable, table: Option<Map<Seq<Seq<char>>, TomlItem>>) -> bool {
    match table {
        None => package is Missing,
        Some(table) => {
            if !(itself(table).kind is Table) {
                package is NotATable
            } else {
                match lookup(table, "description"@) {
                    None => package matches PackageTable::Table(DescriptionField::Missing),
                    Some(value) => match itself(value).kind {
                        TomlKind::Text(text) => {
                            &&& package matches PackageTable::Table(DescriptionField::Text(d))
                            &&& d.start == itself(value).start
                            &&& d.text@ == text
                        },
                        _ => package matches PackageTable::Table(DescriptionField::NotText),
                    },
                }
            }
        },
    }
}

/// Whether `read` is what the manifest holds of its descriptions, where
/// `document` is what the table of the manifest holds.
pub open spec fn is_document(read: ManifestDocument, document: Map<Seq<Seq<char>>, TomlItem>) -> bool {
    &&& is_package(read.package, lookup(document, "package"@))
    &&& match lookup(document, "workspace"@) {
        None => read.workspace is Missing,
        Some(workspace) => {
            if !(itself(workspace).kind is Table) {
                read.workspace is NotATable
            } else {
                &&& read.workspace matches WorkspaceTable::Table(shared)
                &&& is_package(shared, lookup(workspace, "package"@))
            }
        },
    }
}

/// The description of the package whose table holds `table`, if there is such
/// a table. A package that exists must be a table with a description that is
/// a string.
pub open spec fn description_in(table: Option<Map<Seq<Seq<char>>, TomlItem>>) -> Result<
    Option<DescriptionView>,
    ParseError,
> {
    match table {
        None => Ok(None),
        Some(table) => {
            if !(itself(table).kind is Table) {
                Err(ParseError::InvalidManifest)
            } else {
                match lookup(table, "description"@) {
                    None => Err(ParseError::InvalidManifest),
                    Some(value) => match itself(value).kind {
                        TomlKind::Text(text) => Ok(
                            Some(DescriptionView { start: itself(value).start, text }),
                        ),
                        _ => Err(ParseError::InvalidManifest),
                    },
                }
            }
        },
    }
}

/// The descriptions of the manifest whose table holds `document`, or why the
/// manifest is refused: the description of `package`, and that of `package`
/// under `workspace`, which must be a table where it exists.
pub open spec fn manifest_in(document: Map<Seq<Seq<char>>, TomlItem>) -> Result<
    ManifestView,
    ParseError,
> {
    match description_in(lookup(document, "package"@)) {
        Err(e) => Err(e),
        Ok(package) => match lookup(document, "workspace"@) {
            None => Ok(ManifestView { package, workspace: None }),
            Some(workspace) => {
                if !(itself(workspace).kind is Table) {
                    Err(ParseError::InvalidManifest)
                } else {
                    match description_in(lookup(workspace, "package"@)) {
                        Err(e) => Err(e),
                        Ok(workspace) => Ok(ManifestView { package, workspace }),
                    }
                }
            },
        },
    }
}

/// The descriptions of the manifest `text`, or why it is refused: the text,
/// with what is no UTF-8 replaced, must be a TOML document whose packages have
/// their descriptions.
pub open spec fn manifest_of(text: Seq<u8>) -> Result<ManifestView, ParseError> {
    match toml_document(lossy_utf8(text)) {
        Some(document) => manifest_in(document),
        None => Err(ParseError::InvalidManifest),
    }
}

/// What is read of a package gives the description that its table holds.
proof fn lemma_described(package: PackageTable, table: Option<Map<Seq<Seq<char>>, TomlItem>>)
    requires
        is_package(package, table),
    ensures
        match described(package) {
            Ok(description) => description_in(table) == Ok::<Option<DescriptionView>, ParseError>(
                description_view(description),
            ),
            Err(e) => description_in(table) == Err::<Option<DescriptionView>, ParseError>(e),
        },
{
}

/// What is read of a manifest gives the descriptions that its table holds.
proof fn lemma_descriptions(read: ManifestDocument, document: Map<Seq<Seq<char>>, TomlItem>)
    requires
        is_document(read, document),
    ensures
        outcome_view(descriptions(read)) == manifest_in(document),
{
    lemma_described(read.package, lookup(document, "package"@));
    match lookup(document, "workspace"@) {
        Some(workspace) => {
            if itself(workspace).kind is Table {
                let shared = read.workspace->Table_0;
                lemma_described(shared, lookup(workspace, "package"@));
            }
        },
        None => {},
    }
}

/// What `entry`, found under `package`, holds.
fn read_package(entry: Option<&::toml::Spanned<::toml::de::DeValue<'_>>>) -> (package: PackageTable)
    ensures
        is_package(
            package,
            match entry {
                Some(value) => Some(toml_contents(*value)),
                None => None,
            },
        ),
{
    match entry {
        None => PackageTable::Missing,
        Some(package) => {
            if !is_table(package) {
                PackageTable::NotATable
            } else {
                match self::entry(package, "description") {
                    None => PackageTable::Table(DescriptionField::Missing),
                    Some(value) => match text_of(value) {
                        None => PackageTable::Table(DescriptionField::NotText),
                        Some(text) => PackageTable::Table(
                            DescriptionField::Text(
                                Description { start: start_of(value), text: text.to_owned() },
                            ),
                        ),
                    },
                }
            }
        },
    }
}

/// What `document` holds of its descriptions.
fn read_document(document: &::toml::Spanned<::toml::de::DeValue<'_>>) -> (read: ManifestDocument)
    ensures
        is_document(read, toml_contents(*document)),
{
    let package = read_package(entry(document, "package"));
    let workspace = match entry(document, "workspace") {
        None => WorkspaceTable::Missing,
        Some(workspace) => {
            if !is_table(workspace) {
                WorkspaceTable::NotATable
            } else {
                WorkspaceTable::Table(read_package(entry(workspace, "package")))
            }
        },
    };
    ManifestDocument { package, workspace }
}

/// The description that `package` gives.
fn describe(package: PackageTable) -> (description: Result<Option<Description>, ParseError>)
    ensures
        description == described(package),
{
    match package {
        PackageTable::Missing => Ok(None),
        PackageTable::Table(DescriptionField::Text(description)) => Ok(Some(description)),
        _ => Err(ParseError::InvalidManifest),
    }
}

/// Puts the string of `description` at the end of `strings`, if it is long
/// enough.
fn push_description(strings: &mut Vec<LintableString>, description: &Option<Description>)
    ensures
        string_views(final(strings)@) == string_views(old(strings)@)
            + description_string(*description),
{
    let ghost before = strings@;
    match description {
        Some(d) => {
            if d.text.as_str().as_bytes().len() > MIN_LEN && d.start < usize::MAX {
                strings.push(LintableString::new(d.start + 1, d.text.clone()));
                assert(string_views(strings@) =~= string_views(before)
                    + description_string(*description));
            } else {
                assert(string_views(strings@) =~= string_views(before)
                    + description_string(*description));
            }
        },
        None => {
            assert(string_views(strings@) =~= string_views(before)
                + description_string(*description));
        },
    }
}

impl ParsedManifest {
    /// Reads the descriptions out of the manifest `text`.
    ///
    /// The text must be TOML, and where it has a `package` table, or a
    /// `package` table under `workspace`, that table must hold a description.
    pub fn new(text: &[u8]) -> (parsed: Result<Self, ParseError>)
        ensures
            outcome_view(parsed) == manifest_of(text@),
            parsed matches Err(e) ==> e == ParseError::InvalidManifest,
    {
        let text = lossy_text(text);
        match parse_document(text.as_str()) {
            Ok(document) => {
                let read = read_document(&document);
                proof {
                    lemma_descriptions(read, toml_contents(document));
                }
                Self::from_document(read)
            },
            Err(_) => Err(ParseError::InvalidManifest),
        }
    }

    /// The descriptions that `document` gives, or why it is refused.
    pub fn from_document(document: ManifestDocument) -> (parsed: Result<Self, ParseError>)
        ensures
            parsed == descriptions(document),
    {
        let package = match describe(document.package) {
            Ok(package) => package,
            Err(e) => {
                return Err(e);
            },
        };
        match document.workspace {
            WorkspaceTable::Missing => Ok(ParsedManifest { package, workspace: None }),
            WorkspaceTable::NotATable => Err(ParseError::InvalidManifest),
            WorkspaceTable::Table(shared) => match describe(shared) {
                Ok(workspace) => Ok(ParsedManifest { package, workspace }),
                Err(e) => Err(e),
            },
        }
    }

    /// The strings to check: the descriptions that hold more than
    /// [`MIN_LEN`] bytes.
    pub fn strings(&self) -> (strings: Vec<LintableString>)
        ensures
            string_views(strings@) == manifest_strings(*self),
    {
        let mut strings: Vec<LintableString> = Vec::new();
        assert(string_views(strings@) =~= Seq::empty());
        push_description(&mut strings, &self.package);
        push_description(&mut strings, &self.workspace);
        strings
    }
}

impl Language {
    /// Creates a language parser for `Cargo.toml` files
    pub fn cargo_toml() -> (language: Self)
        ensures
            language@.name == "Cargo.toml"@,
            language@.detections == seq!["Cargo.toml"@],
            language@.strategy == Strategy::Custom(CustomParser::Manifest),
    {
        let detections = vec!["Cargo.toml"];
        assert(words_of(detections@) =~= seq!["Cargo.toml"@]);
        Language::new("Cargo.toml", detections, Mode::Custom(CustomParser::Manifest))
    }
}

} // verus!
