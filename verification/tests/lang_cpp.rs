use typope::lang::{Language, LintableString, Mapping};
use typope::SharedSource;

#[test]
fn cpp_exists_in_iter() {
    assert!(Language::iter(&Mapping::build()).iter().any(|lang| lang.name() == "cpp"));
}

#[test]
fn cpp_find_from_extensions() {
    for detection in Language::cpp().detections() {
        assert_eq!(
            "cpp",
            Language::from_filename(&Mapping::build(), &detection.replace('*', "file")).unwrap().name()
        );
    }
}

#[test]
fn cpp_lintable_strings() {
    let cpp = r#"
#include <iostream>
#include <string>

#define MACRO "not handled by the parser yet"

std::string f() {
    return std::string("abcdef" MACRO);
}

int main() {
    std::string s("foobar");

    std::cout << "Hello world!" << s << std::endl;
    return 0;
}
"#;
    let cpp = SharedSource::new("file.cpp", cpp.as_bytes().to_vec());
    let parsed = Language::cpp().parse(&cpp).unwrap();
    let strings = parsed.strings(cpp.as_bytes());
    assert_eq!(
        strings,
        [
            LintableString::new(129, "abcdef".into()),
            LintableString::new(180, "foobar".into()),
            LintableString::new(209, "Hello world!".into())
        ]
    );
}
