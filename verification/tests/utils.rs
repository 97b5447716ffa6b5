use sql_engine::utils::{
    find_word, is_and, is_by, is_delete, is_from, is_insert, is_into,
    is_left_paren, is_not, is_number, is_or, is_order, is_right_paren, is_select, is_set,
    is_update, is_values, is_where,
};

#[test]
fn words_are_recognised() {
    assert!(is_and("AND"));
    assert!(is_or("OR"));
    assert!(is_not("NOT"));
    assert!(is_left_paren("("));
    assert!(is_right_paren(")"));
    assert!(is_where("WHERE"));
    assert!(is_select("SELECT"));
    assert!(is_update("UPDATE"));
    assert!(is_insert("INSERT"));
    assert!(is_into("INTO"));
    assert!(is_from("FROM"));
    assert!(is_order("ORDER"));
    assert!(is_by("BY"));
    assert!(is_delete("DELETE"));
    assert!(is_set("SET"));
    assert!(is_values("VALUES"));
}

#[test]
fn words_are_told_apart_by_case_and_length() {
    assert!(!is_and("and"));
    assert!(!is_and("AN"));
    assert!(!is_and("ANDY"));
    assert!(!is_and(""));
    assert!(!is_or("AND"));
    assert!(!is_not("not"));
    assert!(!is_left_paren(")"));
    assert!(!is_right_paren("("));
    assert!(!is_where("Where"));
    assert!(!is_select("SELEC"));
    assert!(!is_update("UPDATES"));
    assert!(!is_insert("INSERT "));
    assert!(!is_into("IN"));
    assert!(!is_from("FORM"));
    assert!(!is_order("BY"));
    assert!(!is_by("ORDER"));
    assert!(!is_delete("DELETED"));
    assert!(!is_set("="));
    assert!(!is_values("VALUE"));
}

#[test]
fn numbers_are_recognised() {
    assert!(is_number("0"));
    assert!(is_number("42"));
    assert!(is_number("-42"));
    assert!(is_number("+42"));
    assert!(is_number("007"));
    assert!(is_number("2147483647"));
    assert!(is_number("-2147483648"));
    assert!(is_number("+2147483647"));
    assert!(is_number("00000000002147483647"));
}

#[test]
fn what_is_no_number_is_told_apart() {
    assert!(!is_number(""));
    assert!(!is_number("-"));
    assert!(!is_number("+"));
    assert!(!is_number("12a"));
    assert!(!is_number("a12"));
    assert!(!is_number(" 12"));
    assert!(!is_number("12 "));
    assert!(!is_number("1.5"));
    assert!(!is_number("--1"));
    assert!(!is_number("1-"));
    assert!(!is_number("2147483648"));
    assert!(!is_number("+2147483648"));
    assert!(!is_number("-2147483649"));
    assert!(!is_number("99999999999999999999999999"));
    assert!(!is_number("٣"));
}

#[test]
fn find_word_gives_the_first_position() {
    let tokens: Vec<String> =
        ["a", "FROM", "b", "FROM"].iter().map(|s| s.to_string()).collect();
    assert_eq!(find_word(&tokens, 0, "FROM"), 1);
    assert_eq!(find_word(&tokens, 1, "FROM"), 1);
    assert_eq!(find_word(&tokens, 2, "FROM"), 3);
    assert_eq!(find_word(&tokens, 4, "FROM"), 4);
    assert_eq!(find_word(&tokens, 9, "FROM"), 9);
    assert_eq!(find_word(&tokens, 0, "WHERE"), 4);
}
