use checkdigit::{ref_luhn, CheckDigitAlgo, Error, RefLuhn};

fn check_valid(protected: &str, unprotected: &str, check_char: &str) {
    let algo = ref_luhn();
    assert_eq!(algo.validate(protected), Ok(true));
    assert_eq!(algo.compute(unprotected), Ok(check_char.to_string()));
    assert_eq!(algo.generate(unprotected), Ok(protected.to_string()));
}

#[test]
fn known_vector_generate() {
    assert_eq!(
        ref_luhn().generate("7992739871"),
        Ok(String::from("79927398713"))
    );
}

#[test]
fn known_vector_validate() {
    let algo = ref_luhn();
    assert_eq!(algo.validate("79927398713"), Ok(true));
    assert_eq!(algo.validate("79927398710"), Ok(false));
}

#[test]
fn card_number_fixture() {
    // The card number 4417 1234 5678 9113 ends in its check digit 3.
    assert_eq!(ref_luhn().compute("441712345678911"), Ok(String::from("3")));
    assert_eq!(ref_luhn().validate("4417123456789113"), Ok(true));
    assert_eq!(ref_luhn().compute("4417123456789112"), Ok(String::from("8")));
}

#[test]
fn valid_cases() {
    check_valid("79927398713", "7992739871", "3");
    check_valid("4417123456789113", "441712345678911", "3");
    check_valid("00", "0", "0");
    check_valid("18", "1", "8");
    check_valid("0", "", "0");
}

#[test]
fn empty_input_boundaries() {
    let algo = ref_luhn();
    assert_eq!(algo.compute(""), Ok(String::from("0")));
    assert_eq!(
        algo.validate(""),
        Err(Error::InvalidProtectedString(String::new()))
    );
    assert_eq!(algo.validate("5"), Ok(false));
    assert_eq!(algo.validate("0"), Ok(true));
}

#[test]
fn doubling_above_nine() {
    // 9 doubled is 18, counted as 9; sum 9 gives check digit 1.
    assert_eq!(ref_luhn().compute("9"), Ok(String::from("1")));
    // 5 doubled is 10, counted as 1; 4 is kept; sum 5 gives check digit 5.
    assert_eq!(ref_luhn().compute("45"), Ok(String::from("5")));
}

#[test]
fn last_digit_tamper_detected() {
    let algo = ref_luhn();
    let head = "7992739871";
    let mut valid = 0;
    for d in "0123456789".chars() {
        let protected = format!("{}{}", head, d);
        if algo.validate(&protected) == Ok(true) {
            valid += 1;
            assert_eq!(d, '3');
        } else {
            assert_eq!(algo.validate(&protected), Ok(false));
        }
    }
    assert_eq!(valid, 1);
}

#[test]
fn round_trip_on_digit_strings() {
    let algo = ref_luhn();
    for u in ["", "1", "12", "000000", "8763", "4417123456789112", "9999999999999"] {
        let p = algo.generate(u).unwrap();
        assert_eq!(algo.validate(&p), Ok(true));
    }
}

#[test]
fn compute_is_repeatable() {
    let algo = RefLuhn::default();
    assert_eq!(algo.compute("123456"), algo.compute("123456"));
    assert_eq!(algo.compute("123456"), Ok(String::from("6")));
}

#[test]
fn lossy_skips_other_characters() {
    let algo = ref_luhn();
    assert_eq!(algo.compute("7992-7398 71"), Ok(String::from("3")));
    assert_eq!(algo.generate("79-9"), Ok(String::from("79-97")));
    assert_eq!(algo.validate("7992-7398 713"), Ok(true));
    assert_eq!(algo.validate("79927398 71-3"), Ok(true));
    assert_eq!(algo.validate("7992739871-3-"), Ok(false));
}

#[test]
fn strict_policy_rejects_other_characters() {
    let algo = RefLuhn::with_policy(false);
    assert_eq!(algo.compute("7992739871"), Ok(String::from("3")));
    assert_eq!(
        algo.compute("7992-739871"),
        Err(Error::UnknownCharInString(String::from("-")))
    );
    assert_eq!(
        algo.generate("79a2"),
        Err(Error::UnknownCharInString(String::from("a")))
    );
    assert_eq!(
        algo.validate("79x27398713"),
        Err(Error::UnknownCharInString(String::from("x")))
    );
    assert_eq!(
        algo.validate(""),
        Err(Error::InvalidProtectedString(String::new()))
    );
    assert_eq!(algo.validate("79927398713"), Ok(true));
}
