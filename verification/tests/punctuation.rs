use typope::lint::punctuation::Punctuation;
use typope::lint::{Rule, SourceSpan, Typo};
use typope::SharedSource;

#[test]
fn punctuation_empty() {
    assert!(Punctuation.check(br"").is_empty());
}

#[test]
fn punctuation_space_after_colon() {
    let typos = Punctuation.check(br"test: foobar");
    assert!(typos.is_empty());
}

#[test]
fn punctuation_typo_colon() {
    let mut typos = Punctuation.check(br"test : foobar");
    let typo = typos.pop().unwrap();
    assert_eq!(typo.span(), (4, 1).into());
    assert!(typos.is_empty());
}

#[test]
fn punctuation_typo_question_mark() {
    let mut typos = Punctuation.check(br"footest ? foobar ?fooooo");
    let typo = typos.pop().unwrap();
    assert_eq!(typo.span(), (16, 1).into());
    let typo = typos.pop().unwrap();
    assert_eq!(typo.span(), (7, 1).into());
    assert!(typos.is_empty());
}

#[test]
fn punctuation_typo_exclamation_mark() {
    let mut typos = Punctuation.check(br"footest ! barfoobar");
    let typo = typos.pop().unwrap();
    assert_eq!(typo.span(), (7, 1).into());
    assert!(typos.is_empty());
}

#[test]
fn punctuation_typo_exclamation_mark_repeated() {
    let mut typos = Punctuation.check(br"footest !!!! barfoobar");
    let typo = typos.pop().unwrap();
    assert_eq!(typo.span(), (7, 1).into());
    assert!(typos.is_empty());
}

#[test]
fn punctuation_typo_neq() {
    assert!(Punctuation.check(br"maybe 0 != 1?").is_empty());
}

#[test]
fn punctuation_typo_before_end_of_line() {
    let mut typos = Punctuation.check(br"footest !");
    let typo = typos.pop().unwrap();
    assert_eq!(typo.span(), (7, 1).into());
    assert!(typos.is_empty());

    let mut typos = Punctuation.check(br"footest ?");
    let typo = typos.pop().unwrap();
    assert_eq!(typo.span(), (7, 1).into());
    assert!(typos.is_empty());

    let mut typos = Punctuation.check(br"footest :");
    let typo = typos.pop().unwrap();
    assert_eq!(typo.span(), (7, 1).into());
    assert!(typos.is_empty());
}

#[test]
fn punctuation_multiple_typos() {
    let mut typos = Punctuation.check(br"footest ! barfoobar : oh no ?");

    let typo = typos.pop().unwrap();
    assert_eq!(typo.span(), (27, 1).into());
    let typo = typos.pop().unwrap();
    assert_eq!(typo.span(), (19, 1).into());
    let typo = typos.pop().unwrap();
    assert_eq!(typo.span(), (7, 1).into());

    assert!(typos.is_empty());
}

#[test]
fn punctuation_typo_colon_multiple_spaces() {
    let typos = Punctuation.check(br"test     : foobar");
    assert!(typos.is_empty());
}

#[test]
fn punctuation_typo_rust_sized() {
    let typos = Punctuation.check(br"test: ?Sized foobar");
    assert!(typos.is_empty());
}

#[test]
fn punctuation_emoji() {
    assert!(Punctuation.check(br":waving_hand:").is_empty());
    assert!(Punctuation.check(br"footest :fire: bar").is_empty());
    assert!(Punctuation.check(br"foobar :)").is_empty());
    assert!(Punctuation.check(br":D").is_empty());
    assert!(Punctuation.check(br" :> ").is_empty());
    assert!(Punctuation.check(br"foo :'( bar").is_empty());
}

#[test]
fn punctuation_typo_source() {
    let source = r#""test : foobar""#;
    let mut typos = Punctuation.check(source.trim_matches('"').as_bytes());
    let mut typo = typos.pop().unwrap();
    assert_eq!(typo.span(), (4, 1).into());
    let source = SharedSource::new("fake.rs", source.to_owned().into_bytes());
    typo.with_source(source, 1);
    assert_eq!(typo.span(), (5, 1).into());
    assert!(typos.is_empty());
}

#[test]
fn punctuation_interrobang() {
    assert!(Punctuation.check(r"test‽".as_bytes()).is_empty());
    assert!(Punctuation.check(br"test?!").is_empty());
    assert!(Punctuation.check(br"test!?").is_empty());
    assert!(Punctuation.check(r"test⸘".as_bytes()).is_empty());

    let mut typos = Punctuation.check(r"test ‽".as_bytes());
    let typo = typos.pop().unwrap();
    assert_eq!(typo.span(), (4, 1).into());
    assert!(typos.is_empty());

    let mut typos = Punctuation.check(r"test ?! abc ⸘".as_bytes());
    let typo = typos.pop().unwrap();
    assert_eq!(typo.span(), (11, 1).into());
    let typo = typos.pop().unwrap();
    assert_eq!(typo.span(), (4, 1).into());
    assert!(typos.is_empty());
}

#[test]
fn punctuation_looks_like_shell() {
    assert!(Punctuation
        .check(br"[ ! -e /run/dbus ] || mount -t tmpfs none /run/dbus")
        .is_empty());
}

#[test]
fn looks_like_c_macro_generated() {
    assert!(Punctuation
        .check(br"#  elif !defined(missing_arch_template)")
        .is_empty());
}

#[test]
fn looks_like_url_parameter() {
    assert!(Punctuation
        .check(br"Add ?var=1&var2=44 to the URL")
        .is_empty());
}

#[test]
fn sqlite_prepared_statement() {
    assert!(Punctuation
        .check(br"SELECT a FROM b WHERE c = ?1 AND d = ?2")
        .is_empty());
}

#[test]
fn fn_return() {
    assert!(Punctuation.check(br"fn() -> !").is_empty());
}

#[test]
fn condition() {
    assert!(Punctuation
        .check(br"a & !b & !c | !z  or !(y | w)")
        .is_empty());
}
