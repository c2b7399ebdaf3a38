use csub::lang::lang_code_to_name;

#[test]
fn three_letter_bibliographic_code() {
    // "chi" stands only in the bibliographic table; the terminology
    // table spells Chinese "zho".
    assert_eq!(lang_code_to_name("chi"), "Chinese");
}

#[test]
fn three_letter_terminology_code() {
    assert_eq!(lang_code_to_name("zho"), "Chinese");
    assert_eq!(lang_code_to_name("eng"), "English");
}

#[test]
fn terminology_table_resolves_before_bibliographic() {
    // "deu" is German's terminology code; "ger" its bibliographic one.
    assert_eq!(lang_code_to_name("deu"), "German");
    assert_eq!(lang_code_to_name("ger"), "German");
}

#[test]
fn two_letter_code() {
    assert_eq!(lang_code_to_name("en"), "English");
    assert_eq!(lang_code_to_name("zh"), "Chinese");
}

#[test]
fn unknown_codes_pass_through() {
    assert_eq!(lang_code_to_name(""), "");
    assert_eq!(lang_code_to_name("zz"), "zz");
    assert_eq!(lang_code_to_name("qqq"), "qqq");
    assert_eq!(lang_code_to_name("undetermined"), "undetermined");
}
