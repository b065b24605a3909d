use checkdigit::util;
use checkdigit::Error;

#[test]
fn split_protected_tail_n() {
    let (head, tail) = util::split_protected_tail_n("helloworld", 5).unwrap();
    assert_eq!(head, "hello");
    assert_eq!(tail, "world");
}

#[test]
fn build_protected_apend() {
    let ss = util::build_protected_apend("hello", "world");
    assert_eq!(ss, Ok(String::from("helloworld")));
}

#[test]
fn split_counts_characters_not_bytes() {
    let (head, tail) = util::split_protected_tail_n("añb€", 2).unwrap();
    assert_eq!(head, "añ");
    assert_eq!(tail, "b€");
}

#[test]
fn split_whole_string_and_nothing() {
    assert_eq!(util::split_protected_tail_n("abc", 3), Ok(("", "abc")));
    assert_eq!(util::split_protected_tail_n("abc", 0), Ok(("abc", "")));
}

#[test]
fn split_too_short_string_fails() {
    assert_eq!(
        util::split_protected_tail_n("ab", 3),
        Err(Error::InvalidProtectedString(String::from("ab")))
    );
    assert_eq!(
        util::split_protected_tail_n("", 1),
        Err(Error::InvalidProtectedString(String::new()))
    );
}

#[test]
fn error_messages() {
    assert_eq!(
        Error::InvalidProtectedString(String::from("")).message(),
        "invalid protected string ''"
    );
    assert_eq!(
        Error::UnknownCharInString(String::from("+")).message(),
        "unknown character '+' in string"
    );
}

#[test]
fn strict_decoding_rejects_unmapped() {
    let cm = checkdigit::util::CharMap::<u8>::from("01");
    assert_eq!(cm.convert_chars("012"), Err(Error::UnknownCharInString(String::from("2"))));
}
