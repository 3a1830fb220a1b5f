use typope::lang::{Language, Mapping};
use typope::lint::punctuation::TypoSpaceBeforePunctuationMarks;
use typope::lint::{apply_fixes, Fix, FixError, Linter, SourceSpan, Typo, TypoFixer};
use typope::pattern::IgnorePattern;

fn collect(linter: &mut Linter) -> Vec<TypoSpaceBeforePunctuationMarks> {
    let mut iter = linter.iter();
    let mut typos = Vec::new();
    while let Some(typo) = iter.next() {
        typos.push(typo);
    }
    typos
}

#[test]
fn from_path_unknown_extension() {
    assert!(
        Linter::from_path(&Mapping::build(), "file.with_unknown_extension", vec![], "file.with_unknown_extension")
            .unwrap()
            .is_none()
    );
}

#[test]
fn unknown_file_type() {
    assert!(Language::from_filename(&Mapping::build(), "file.withextensionthatdoesnotexist").is_none());
}

#[test]
fn typo_rust_string() {
    let rust = r#"
        /// Doc comment
        fn func() -> anyhow::Result<()> {
            anyhow::bail!("failed to do something for the following reason : foobar foo");
        }
        "#;
    let mut linter = Linter::new(&Language::rust(), rust.into(), "file.rs").unwrap();

    let mut typos = collect(&mut linter);
    assert_eq!(typos.len(), 1);
    let typo = typos.pop().unwrap();
    assert_eq!(typo.code(), "typope::space-before-punctuation-mark");
    assert_eq!(typo.span(), (141, 1).into());
}

#[test]
fn typo_rust_into_report() {
    let rust = r#"
        /// Doc comment
        fn func() -> anyhow::Result<()> {
            anyhow::bail!("failed to do something for the following reason : foobar foo");
        }
        "#;
    let mut linter = Linter::new(&Language::rust(), rust.into(), "file.rs").unwrap();

    let mut typos = collect(&mut linter);
    assert_eq!(typos.len(), 1);
    let typo = typos.pop().unwrap();
    assert_eq!(typo.code(), "typope::space-before-punctuation-mark");
    assert_eq!(typo.label(), "Invalid space here");
    assert_eq!(typo.span(), SourceSpan::new(141, 1));
    assert_eq!(typo.help(), "remove the space before `:`");
    assert!(typo.url().starts_with("https://docs.rs"));
    assert!(typo.source_code().is_some());
    assert_eq!(typo.source_code().unwrap().name(), "file.rs");
    assert_eq!(typo.source_code().unwrap().as_bytes(), rust.as_bytes());
}

#[test]
fn typo_rust_from_path() {
    let rust = r#"
        /// Doc comment
        fn func() -> anyhow::Result<()> {
            anyhow::bail!("failed to do something for the following reason : foobar foo");
        }
        "#;
    let mut linter = Linter::from_path(&Mapping::build(), "tmp1234.rs", rust.into(), "/tmp/tmp1234.rs")
        .unwrap()
        .unwrap();

    let mut typos = collect(&mut linter);
    assert_eq!(typos.len(), 1);
    let typo = typos.pop().unwrap();
    assert_eq!(typo.code(), "typope::space-before-punctuation-mark");
    assert_eq!(typo.span(), (141, 1).into());
}

#[test]
fn typo_rust_string_ignored() {
    let rust = r#"
        /// Doc comment
        fn func() -> anyhow::Result<()> {
            anyhow::bail!("failed to do something for the following reason : foobar foo");
        }
        "#;
    let mut linter = Linter::new(&Language::rust(), rust.into(), "file.rs").unwrap();
    linter.extend_ignore_re(&[IgnorePattern::new(r"foobar foo").unwrap()]);

    let typos = collect(&mut linter).len();
    assert_eq!(typos, 0);
}

#[test]
fn typo_rust_rawstring() {
    let rust = r#"
        fn regex() -> &str {
            r"a ?regex.that ?match ?something ?"
        }
        "#;
    let mut linter = Linter::new(&Language::rust(), rust.into(), "file.rs").unwrap();

    let typos = collect(&mut linter).len();
    assert_eq!(typos, 0);
}

#[test]
fn typo_rust_doctest() {
    let rust = r"
        /// Doc comment
        ///
        /// The example below should not trigger a warning since this is code:
        /// ```
        /// let english_words : u8 = 1;
        /// ```
        fn func() -> bool {
            true
        }
        ";
    let mut linter = Linter::new(&Language::rust(), rust.into(), "file.rs").unwrap();

    let typos = collect(&mut linter).len();
    assert_eq!(typos, 0);
}

#[test]
fn typo_markdown_inline() {
    let markdown = r"# Hello
Hello mate `this should not trigger the rule : foobar` abc
        ";
    let mut linter = Linter::new(&Language::markdown(), markdown.as_bytes().to_vec(), "file.md").unwrap();

    let typos = collect(&mut linter).len();
    assert_eq!(typos, 0);
}

#[test]
fn apply_with_offset() {
    let mut content = b"123456".to_vec();

    let fix = Fix::Remove { span: (1, 2).into() };
    fix.apply_with_offset(&mut content, 0).unwrap();
    assert_eq!("1456", String::from_utf8_lossy(&content));

    let fix = Fix::Remove { span: (1, 1).into() };
    fix.apply_with_offset(&mut content, 2).unwrap();
    assert_eq!("145", String::from_utf8_lossy(&content));
}

#[test]
fn typo_markdown_apply_multiple_fixes() {
    let markdown = r#"This should trigger the rule : foobar This one ! Annnnnd here ??? And !!! what about ! or this! and this ?? "another test with ! in it, but nothing else""#;
    let markdown_fixed = r#"This should trigger the rule: foobar This one! Annnnnd here??? And!!! what about! or this! and this?? "another test with! in it, but nothing else""#;

    let mut linter = Linter::from_path(&Mapping::build(), "file.md", markdown.as_bytes().to_vec(), "file.md")
        .unwrap()
        .unwrap();

    let typos = collect(&mut linter);
    assert_eq!(typos.len(), 7);

    let mut fixer = TypoFixer::new(markdown.as_bytes().to_vec());
    for typo in typos.into_iter().rev() {
        fixer.fix(&typo).unwrap();
    }

    assert_eq!(markdown_fixed.as_bytes(), fixer.into_bytes());
}

#[test]
fn strings() {
    let rust = r#"
        /// Docstring
        fn regex() -> &str {
            let _unused = String::from("abcd");
            "something"
        }
        "#;
    let linter = Linter::new(&Language::rust(), rust.into(), "file.rs").unwrap();

    let strings = linter.strings();
    assert_eq!(strings, &["abcd", "something"]);
}

#[test]
fn apply_with_offset_unknown_changes_nothing() {
    let mut content = b"123456".to_vec();
    assert_eq!(Fix::Unknown.apply_with_offset(&mut content, 3), Ok(0));
    assert_eq!(content, b"123456");
}

#[test]
fn apply_with_offset_returns_the_bytes_moved() {
    let mut content = b"123456".to_vec();
    let fix = Fix::Remove { span: SourceSpan::new(1, 2) };
    assert_eq!(fix.apply_with_offset(&mut content, 0), Ok(-2));
    assert_eq!(content, b"1456");
}

#[test]
fn apply_with_offset_out_of_bounds() {
    let mut content = b"123456".to_vec();
    let fix = Fix::Remove { span: SourceSpan::new(5, 2) };
    assert_eq!(fix.apply_with_offset(&mut content, 0), Err(FixError::OutOfBounds));
    assert_eq!(content, b"123456");
    let fix = Fix::Remove { span: SourceSpan::new(6, 0) };
    assert_eq!(fix.apply_with_offset(&mut content, 0), Ok(0));
    assert_eq!(content, b"123456");
}

#[test]
fn apply_with_offset_out_of_range() {
    let mut content = b"123456".to_vec();
    let fix = Fix::Remove { span: SourceSpan::new(1, 2) };
    assert_eq!(fix.apply_with_offset(&mut content, -2), Err(FixError::OutOfRange));
    let fix = Fix::Remove { span: SourceSpan::new(usize::MAX, 1) };
    assert_eq!(fix.apply_with_offset(&mut content, 0), Err(FixError::OutOfRange));
    let fix = Fix::Remove { span: SourceSpan::new(0, usize::MAX) };
    assert_eq!(fix.apply_with_offset(&mut content, 0), Err(FixError::OutOfRange));
    let fix = Fix::Remove { span: SourceSpan::new(isize::MAX as usize, 1) };
    assert_eq!(fix.apply_with_offset(&mut content, 1), Err(FixError::OutOfRange));
    assert_eq!(content, b"123456");
}

#[test]
fn fixer_takes_typos_from_left_to_right() {
    let text = b"footest ! barfoobar : oh no ?".to_vec();
    let mut linter = Linter::new(&Language::markdown(), text.clone(), "file.md").unwrap();
    let mut typos = collect(&mut linter);
    assert_eq!(typos.len(), 3);
    // The typos of a string come out from right to left.
    assert_eq!(typos[0].span(), SourceSpan::new(27, 1));
    assert_eq!(typos[1].span(), SourceSpan::new(19, 1));
    assert_eq!(typos[2].span(), SourceSpan::new(7, 1));
    typos.reverse();
    let mut fixer = TypoFixer::new(text);
    for typo in &typos {
        assert_eq!(typo.fix(), Fix::Remove { span: typo.span() });
        fixer.fix(typo).unwrap();
    }
    assert_eq!(fixer.buffer(), b"footest! barfoobar: oh no?");
}

#[test]
fn typos_come_string_after_string() {
    let rust = r#"
        fn f() {
            let a = "first ! second ?";
            let b = "third : fourth";
        }
        "#;
    let mut linter = Linter::new(&Language::rust(), rust.into(), "file.rs").unwrap();
    let typos = collect(&mut linter);
    let offsets: Vec<usize> = typos.iter().map(|t| t.span().offset()).collect();
    let first = rust.find("first").unwrap();
    let third = rust.find("third").unwrap();
    assert_eq!(offsets, vec![first + 14, first + 5, third + 5]);
    for typo in &typos {
        assert_eq!(rust.as_bytes()[typo.span().offset()], b' ');
        assert_eq!(typo.span().len(), 1);
    }
}

#[test]
fn typos_are_listed_in_the_order_of_the_file() {
    let rust = r#"
        fn f() {
            let a = "first ! second ?";
            let b = "third : fourth";
        }
        "#;
    let linter = Linter::new(&Language::rust(), rust.into(), "file.rs").unwrap();
    let typos = linter.typos();
    let offsets: Vec<usize> = typos.iter().map(|t| t.span().offset()).collect();
    let first = rust.find("first").unwrap();
    let third = rust.find("third").unwrap();
    assert_eq!(offsets, vec![first + 5, first + 14, third + 5]);
    assert!(typos.iter().all(|t| t.source_code().unwrap().name() == "file.rs"));

    let mended = apply_fixes(rust.as_bytes().to_vec(), &typos).unwrap();
    assert_eq!(String::from_utf8(mended).unwrap(), rust.replace(" !", "!").replace(" ?", "?").replace(" :", ":"));
}

#[test]
fn typos_of_ignored_strings_are_not_listed() {
    let rust = r#"
        fn f() {
            let a = "first ! second ?";
            let b = "third : fourth";
        }
        "#;
    let mut linter = Linter::new(&Language::rust(), rust.into(), "file.rs").unwrap();
    linter.extend_ignore_re(&[IgnorePattern::new("^first").unwrap()]);
    let offsets: Vec<usize> = linter.typos().iter().map(|t| t.span().offset()).collect();
    assert_eq!(offsets, vec![rust.find("third").unwrap() + 5]);
    assert_eq!(collect(&mut linter).len(), 1);
    assert_eq!(linter.strings(), vec!["first ! second ?", "third : fourth"]);
}

#[test]
fn apply_fixes_removes_every_flagged_byte_and_no_other() {
    let markdown = r#"This should trigger the rule : foobar This one ! Annnnnd here ??? And !!! what about ! or this! and this ?? "another test with ! in it, but nothing else""#;
    let markdown_fixed = r#"This should trigger the rule: foobar This one! Annnnnd here??? And!!! what about! or this! and this?? "another test with! in it, but nothing else""#;
    let linter = Linter::new(&Language::markdown(), markdown.as_bytes().to_vec(), "file.md").unwrap();
    let typos = linter.typos();
    assert_eq!(typos.len(), 7);
    assert_eq!(apply_fixes(markdown.as_bytes().to_vec(), &typos), Ok(markdown_fixed.as_bytes().to_vec()));
    assert_eq!(apply_fixes(markdown.as_bytes().to_vec(), &Vec::<TypoSpaceBeforePunctuationMarks>::new()), Ok(markdown.as_bytes().to_vec()));
}

#[test]
fn apply_fixes_refuses_typos_out_of_order() {
    let typo = |offset: usize, length: usize| TypoSpaceBeforePunctuationMarks::new(SourceSpan::new(offset, length), '!');
    let text = b"ab ! cd ? ef".to_vec();
    assert_eq!(apply_fixes(text.clone(), &vec![typo(2, 1), typo(7, 1)]), Ok(b"ab! cd? ef".to_vec()));
    assert_eq!(apply_fixes(text.clone(), &vec![typo(7, 1), typo(2, 1)]), Err(FixError::OutOfOrder));
    assert_eq!(apply_fixes(text.clone(), &vec![typo(2, 2), typo(3, 1)]), Err(FixError::OutOfOrder));
    assert_eq!(apply_fixes(text.clone(), &vec![typo(2, 1), typo(2, 1)]), Err(FixError::OutOfOrder));
    assert_eq!(apply_fixes(text.clone(), &vec![typo(11, 2)]), Err(FixError::OutOfOrder));
    assert_eq!(apply_fixes(text.clone(), &vec![typo(13, 0)]), Err(FixError::OutOfOrder));
    assert_eq!(apply_fixes(text.clone(), &vec![typo(2, 1), typo(3, 0), typo(3, 1)]), Ok(b"ab cd ? ef".to_vec()));
    assert_eq!(apply_fixes(text.clone(), &vec![typo(0, 12)]), Ok(vec![]));
}

#[test]
fn fixer_applies_a_fix_where_the_bytes_now_stand() {
    let mut fixer = TypoFixer::new(b"ab ! cd ? ef".to_vec());
    assert_eq!(fixer.apply(Fix::Remove { span: SourceSpan::new(2, 1) }), Ok(()));
    assert_eq!(fixer.buffer(), b"ab! cd ? ef");
    assert_eq!(fixer.apply(Fix::Unknown), Ok(()));
    assert_eq!(fixer.apply(Fix::Remove { span: SourceSpan::new(12, 1) }), Err(FixError::OutOfBounds));
    assert_eq!(fixer.buffer(), b"ab! cd ? ef");
    assert_eq!(fixer.apply(Fix::Remove { span: SourceSpan::new(7, 1) }), Ok(()));
    assert_eq!(fixer.into_bytes(), b"ab! cd? ef");
}

#[test]
fn a_string_that_a_pattern_matches_gives_no_typo() {
    let rust = r#"
        fn f() {
            let a = "first ! second ?";
            let b = "third : fourth";
        }
        "#;
    let mut linter = Linter::new(&Language::rust(), rust.into(), "file.rs").unwrap();
    assert_eq!(linter.typos().len(), 3);
    linter.extend_ignore_re(&[IgnorePattern::new("fourth$").unwrap()]);
    assert_eq!(linter.typos().len(), 2);
    linter.extend_ignore_re(&[IgnorePattern::new("nothing"), IgnorePattern::new("^f")]
        .into_iter()
        .flatten()
        .collect::<Vec<_>>());
    assert_eq!(linter.typos().len(), 0);
    assert_eq!(collect(&mut linter).len(), 0);
    assert_eq!(linter.strings().len(), 2);
}
