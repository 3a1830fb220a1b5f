use typope::lint::punctuation::{
    followed_by, found_at, is_excluded, mark_at, scan, Heuristics, Mark, Punctuation,
    TypoSpaceBeforePunctuationMarks,
};
use typope::lint::space_before::SpaceBeforePunctuationMarks;
use typope::lint::{Fix, Rule, SourceSpan, Typo};
use typope::SharedSource;

fn offsets(typos: &[TypoSpaceBeforePunctuationMarks]) -> Vec<usize> {
    typos.iter().map(|t| t.span().offset()).collect()
}

#[test]
fn typos_come_from_left_to_right() {
    let typos = Punctuation.check(b"footest ! barfoobar : oh no ?");
    assert_eq!(offsets(&typos), vec![7, 19, 27]);
    for typo in &typos {
        assert_eq!(typo.span().len(), 1);
        assert!(!typo.span().is_empty());
        assert!(typo.source_code().is_none());
    }
}

#[test]
fn text_without_a_space_before_a_mark_has_no_typo() {
    for text in ["test: foobar", "x != y", "", " ", "a", "no marks here", "wow!? really?!"] {
        assert!(Punctuation.check(text.as_bytes()).is_empty(), "{text}");
        assert!(SpaceBeforePunctuationMarks.check(text.as_bytes()).is_empty(), "{text}");
    }
}

#[test]
fn the_help_names_the_mark() {
    let typos = Punctuation.check("a : b ! c ? d \u{203D} e \u{2E18}".as_bytes());
    let helps: Vec<&str> = typos.iter().map(|t| t.help()).collect();
    assert_eq!(
        helps,
        vec![
            "remove the space before `:`",
            "remove the space before `!`",
            "remove the space before `?`",
            "remove the space before `\u{203D}`",
            "remove the space before `\u{2E18}`",
        ]
    );
    assert_eq!(offsets(&typos), vec![1, 5, 9, 13, 19]);
    assert_eq!(
        typos[0].message(),
        "In English typography there is no space before a punctuation mark"
    );
}

#[test]
fn only_the_space_that_touches_the_mark_is_reported() {
    assert_eq!(offsets(&Punctuation.check(b"test   ! foobar")), vec![6]);
    assert_eq!(offsets(&Punctuation.check(b"test   ? foobar")), vec![6]);
    assert_eq!(offsets(&Punctuation.check("test   \u{203D}".as_bytes())), vec![6]);
    assert!(Punctuation.check(b"test   : foobar").is_empty());
    assert_eq!(offsets(&SpaceBeforePunctuationMarks.check(b"test   ! foobar")), vec![6]);
    assert_eq!(offsets(&SpaceBeforePunctuationMarks.check(b"test   ? foobar")), vec![6]);
    assert!(SpaceBeforePunctuationMarks.check(b"test   : foobar").is_empty());
    let typos = SpaceBeforePunctuationMarks.check(b"foo  ? bar");
    assert_eq!(typos.len(), 1);
    assert_eq!(typos[0].span(), (4, 1).into());
    let typos = Punctuation.check(b"foo  ? bar");
    assert_eq!(typos.len(), 1);
    assert_eq!(typos[0].span(), (4, 1).into());
}

#[test]
fn a_space_at_the_start_is_reported() {
    assert_eq!(offsets(&Punctuation.check(b" ! foo")), vec![0]);
    assert_eq!(offsets(&Punctuation.check(b" : foo")), vec![0]);
    assert_eq!(offsets(&Punctuation.check(b"a : b")), vec![1]);
    assert_eq!(offsets(&Punctuation.check(b"a !b ?")), vec![1, 4]);
}

#[test]
fn exclusions_of_the_colon() {
    assert!(Punctuation.check(b"> : quoted").is_empty());
    assert_eq!(offsets(&SpaceBeforePunctuationMarks.check(b"> : quoted")), vec![1]);
    assert!(Punctuation.check(b"a :b").is_empty());
    assert_eq!(offsets(&Punctuation.check(b"a :")), vec![1]);
    assert_eq!(offsets(&Punctuation.check(b"a : ")), vec![1]);
}

#[test]
fn exclusions_of_the_exclamation_mark() {
    for text in [
        "a & !b", "a = !b", "a > !b", "a | !b", "a !(b)", "a != b", "T: !Send", "T: !Sync",
        "if !defined(X)", "[ ! -e f ]", "[ ! -b f ]", "[ ! -h f ]", "[ ! -G f ]", "[ ! -x f ]",
        "[ ! -S f ]",
    ] {
        assert!(Punctuation.check(text.as_bytes()).is_empty(), "{text}");
    }
    for text in ["a !Sen", "a !defined", "[ ! -a f ]", "[ ! -i f ]", "[ ! -", "[ ! e ]", "a !sync"] {
        assert_eq!(Punctuation.check(text.as_bytes()).len(), 1, "{text}");
    }
    for text in ["a != b", "T: !Send", "T: !Sync", "[ ! -e f ]"] {
        assert!(SpaceBeforePunctuationMarks.check(text.as_bytes()).is_empty(), "{text}");
    }
    for text in ["a & !b", "a !(b)", "if !defined(X)"] {
        assert_eq!(SpaceBeforePunctuationMarks.check(text.as_bytes()).len(), 1, "{text}");
    }
}

#[test]
fn exclusions_of_the_question_mark() {
    for text in ["T: ?Sized", "add ?a=1", "add ?abc123=1", "c = ?1", "c = ?12x"] {
        assert!(Punctuation.check(text.as_bytes()).is_empty(), "{text}");
    }
    for text in ["T: ?Size", "add ?=1", "add ?a-b=1", "add ?abc", "what ?"] {
        assert_eq!(Punctuation.check(text.as_bytes()).len(), 1, "{text}");
    }
    assert!(SpaceBeforePunctuationMarks.check(b"T: ?Sized").is_empty());
    assert_eq!(SpaceBeforePunctuationMarks.check(b"add ?a=1").len(), 1);
    assert_eq!(SpaceBeforePunctuationMarks.check(b"c = ?1").len(), 1);
}

#[test]
fn marks_are_told_by_their_bytes() {
    assert_eq!(mark_at(b"a:b", 1), Some(Mark::Colon));
    assert_eq!(mark_at(b"a!b", 1), Some(Mark::Exclamation));
    assert_eq!(mark_at(b"a?b", 1), Some(Mark::Question));
    assert_eq!(mark_at("a\u{203D}".as_bytes(), 1), Some(Mark::Interrobang));
    assert_eq!(mark_at("a\u{2E18}".as_bytes(), 1), Some(Mark::InvertedInterrobang));
    assert_eq!(mark_at(b"a\xE2\x80", 1), None);
    assert_eq!(mark_at(b"abc", 1), None);
    assert_eq!(mark_at(b"a:", 2), None);
    assert_eq!(mark_at(b"a:", 9), None);
    assert_eq!(Mark::Interrobang.as_char(), '\u{203D}');
    assert_eq!(Mark::Colon.as_char(), ':');
}

#[test]
fn patterns_are_found_where_they_stand() {
    assert!(found_at(b"hello", 1, b"ell"));
    assert!(!found_at(b"hello", 2, b"ell"));
    assert!(!found_at(b"hello", 3, b"low"));
    assert!(found_at(b"hello", 5, b""));
    assert!(!found_at(b"hello", 6, b""));
    assert!(followed_by(b"a !Send", 3, "Send"));
    assert!(!followed_by(b"a !Send", 3, "Sync"));
    assert!(is_excluded(Heuristics::Extended, b"a & !b", 3, Mark::Exclamation));
    assert!(!is_excluded(Heuristics::Basic, b"a & !b", 3, Mark::Exclamation));
    assert_eq!(scan(Heuristics::Basic, b"a & !b").len(), 1);
}

#[test]
fn rebasing_moves_the_span_and_keeps_its_length() {
    let source = SharedSource::new("fake.rs", b"\"test : foobar\"".to_vec());
    let mut typo = TypoSpaceBeforePunctuationMarks::new(SourceSpan::new(4, 1), ':');
    assert_eq!(typo.fix(), Fix::Remove { span: SourceSpan::new(4, 1) });
    typo.with_source(source.share(), 1);
    assert_eq!(typo.span(), SourceSpan::new(5, 1));
    assert_eq!(typo.fix(), Fix::Remove { span: SourceSpan::new(5, 1) });
    assert_eq!(typo.source_code().unwrap().name(), "fake.rs");
    assert_eq!(typo.source_code().unwrap().as_bytes(), source.as_bytes());
    assert_eq!(typo.help(), "remove the space before `:`");

    let mut typo = TypoSpaceBeforePunctuationMarks::new(SourceSpan::from((0, 3)), '!');
    typo.with_source(source, 0);
    assert_eq!(typo.span(), (0, 3).into());
}
