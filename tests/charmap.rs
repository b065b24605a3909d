use checkdigit::util::CharMap;
use checkdigit::Error;

const ALPHABETIC: &str = "ABCDEFGHIJKLMNOPQRSTUVWXYZ";

#[test]
fn from_str() {
    assert_eq!(
        CharMap::<u8>::from("ABCD"),
        CharMap::with_numset("ABCD", &vec![0, 1, 2, 3])
    );
    assert_eq!(
        CharMap::<u16>::from("ABCD"),
        CharMap::with_numset("ABCD", &vec![0, 1, 2, 3])
    );
    assert_eq!(
        CharMap::<u32>::from("ABCD"),
        CharMap::with_numset("ABCD", &vec![0, 1, 2, 3])
    );
}

#[test]
fn with_numset() {
    assert_eq!(
        CharMap::with_numset("0123", &[5u8, 6, 7, 8]),
        CharMap::with_numset("0123", &vec![5u8, 6, 7, 8]),
    );
}

#[test]
fn convert_chars() {
    let cm: CharMap<u8> = CharMap::<u8>::from(ALPHABETIC);
    assert_eq!(
        cm.convert_chars("ACBDADBC"),
        Ok(vec![0, 2, 1, 3, 0, 3, 1, 2])
    );
    assert_eq!(
        cm.convert_chars("AB+CD-CB"),
        Err(Error::UnknownCharInString(String::from("+")))
    );
}

#[test]
fn convert_chars_lossy() {
    let cm: CharMap<u8> = CharMap::<u8>::from(ALPHABETIC);
    assert_eq!(
        cm.convert_chars_lossy("ACBDADBC"),
        vec![0, 2, 1, 3, 0, 3, 1, 2]
    );
    assert_eq!(cm.convert_chars_lossy("AB+CD-CB"), vec![0, 1, 2, 3, 2, 1]);
}

#[test]
fn convert_nums() {
    let cm: CharMap<u8> = CharMap::<u8>::from(ALPHABETIC);
    assert_eq!(cm.convert_nums(&[0, 2, 1, 3, 0, 3, 1, 2]), "ACBDADBC");
}

#[test]
fn explicit_values_encode() {
    let cm = CharMap::with_numset("ABCD", &[5u8, 6, 7, 8]);
    assert_eq!(cm.convert_nums(&[7, 6]), "CB");
    assert_eq!(cm.convert_chars("DA"), Ok(vec![8, 5]));
}

#[test]
fn symbol_round_trip_each_symbol() {
    let cm = CharMap::<u16>::from(ALPHABETIC);
    for c in ALPHABETIC.chars() {
        let s = c.to_string();
        let vs = cm.convert_chars(&s).unwrap();
        assert_eq!(cm.convert_nums(&vs), s);
    }
}

#[test]
fn lossy_and_strict_agree_on_clean_input() {
    let cm = CharMap::<u32>::from(ALPHABETIC);
    for s in ["", "Z", "HELLOWORLD", "QWERTYUIOPASDFGHJKLZXCVBNM"] {
        assert_eq!(cm.convert_chars(s), Ok(cm.convert_chars_lossy(s)));
    }
}

#[test]
fn strict_reports_first_unknown_char() {
    let cm = CharMap::<u8>::from("0123456789");
    assert_eq!(
        cm.convert_chars("12€4-5"),
        Err(Error::UnknownCharInString(String::from("€")))
    );
    assert_eq!(cm.convert_chars_lossy("12€4-5"), vec![1, 2, 4, 5]);
}
