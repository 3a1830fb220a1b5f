use typope::lang::{Language, LintableString, Mapping};
use typope::SharedSource;

#[test]
fn c_exists_in_iter() {
    assert!(Language::iter(&Mapping::build()).iter().any(|lang| lang.name() == "c"));
}

#[test]
fn c_find_from_filenames() {
    for filename in ["file.c", "file.h", "file.c.in"] {
        assert_eq!(
            "c",
            Language::from_filename(&Mapping::build(), filename)
                .unwrap()
                .name()
        );
    }
}

#[test]
fn c_lintable_strings() {
    let c = r#"
#include <stdio.h>

#define MACRO "not handled by the parser yet"

const char *f() {
    return "abcdef" MACRO;
}

int main() {
    char *s = "foobar";

    printf("Hello world! %s", s);
    return 0;
}
"#;
    let c = SharedSource::new("file.c", c.as_bytes().to_vec());
    let parsed = Language::c().parse(&c).unwrap();
    let strings = parsed.strings(c.as_bytes());
    assert_eq!(
        strings,
        [
            LintableString::new(98, "abcdef".into()),
            LintableString::new(144, "foobar".into()),
            LintableString::new(166, "Hello world! %s".into())
        ]
    );
}
