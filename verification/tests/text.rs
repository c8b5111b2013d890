use redscript_dap::text::{chars_of, decimal, text_before, to_lowercase};

#[test]
fn decimal_digits() {
    assert_eq!(decimal(0), "0");
    assert_eq!(decimal(7), "7");
    assert_eq!(decimal(10), "10");
    assert_eq!(decimal(90210), "90210");
    assert_eq!(decimal(u64::MAX), u64::MAX.to_string());
}

#[test]
fn lower_case_of_ascii() {
    assert_eq!(to_lowercase("C:\\Game/Scripts.REDS"), "c:\\game/scripts.reds");
    assert_eq!(to_lowercase(""), "");
    assert_eq!(to_lowercase("a@[`{z09"), "a@[`{z09");
}

#[test]
fn lower_case_of_other_letters() {
    assert_eq!(to_lowercase("É.REDS"), "é.reds");
    assert_eq!(to_lowercase("ŁÓDŹ"), "łódź");
    assert_eq!(to_lowercase("İ"), "i\u{307}");
}

#[test]
fn lower_case_twice() {
    let once = to_lowercase("R6\\Scripts\\Main.Reds");
    assert_eq!(to_lowercase(&once), once);
}

#[test]
fn text_up_to_a_mark() {
    assert_eq!(text_before("OnUpdate;Float", ';'), "OnUpdate");
    assert_eq!(text_before("a;b;c", ';'), "a");
    assert_eq!(text_before(";b", ';'), "");
    assert_eq!(text_before("plain", ';'), "plain");
    assert_eq!(text_before("", '$'), "");
    assert_eq!(text_before("ź$1", '$'), "ź");
}

#[test]
fn characters_of_a_text() {
    assert_eq!(chars_of("aé\\"), vec!['a', 'é', '\\']);
    assert_eq!(chars_of(""), Vec::<char>::new());
}
