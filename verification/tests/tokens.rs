use sql_engine::tokens::{tokenize, tokens_from_query};

#[test]
fn words_numbers_and_symbols() {
    assert_eq!(
        tokens_from_query("SELECT name, age FROM people WHERE age > 18;"),
        ["SELECT", "name", "age", "FROM", "people", "WHERE", "age", ">", "18"]
    );
    assert_eq!(tokens_from_query("SELECT * FROM t"), ["SELECT", "*", "FROM", "t"]);
}

#[test]
fn runs_end_where_the_kind_changes() {
    assert_eq!(tokens_from_query("age>=18"), ["age", ">=", "18"]);
    assert_eq!(tokens_from_query("col1=x_y"), ["col", "1", "=", "x_y"]);
    assert_eq!(tokens_from_query("a<b"), ["a", "<", "b"]);
}

#[test]
fn separators_give_no_token() {
    let none: Vec<String> = Vec::new();
    assert_eq!(tokens_from_query(""), none);
    assert_eq!(tokens_from_query(" ,;\t\n"), none);
    assert_eq!(tokens_from_query("a,b;c  d"), ["a", "b", "c", "d"]);
}

#[test]
fn quotes_enclose_one_token() {
    assert_eq!(
        tokens_from_query("WHERE city = 'Puerto Madryn, Chubut'"),
        ["WHERE", "city", "=", "Puerto Madryn, Chubut"]
    );
    assert_eq!(tokens_from_query("a = ''"), ["a", "=", ""]);
    assert_eq!(tokens_from_query("'(x)' y"), ["(x)", "y"]);
}

#[test]
fn a_quote_that_is_not_closed_reaches_to_the_end() {
    assert_eq!(tokens_from_query("a = 'Gai man"), ["a", "=", "Gai man"]);
    assert_eq!(tokens_from_query("a = '"), ["a", "=", ""]);
}

#[test]
fn parentheses_of_an_insert_enclose_lists() {
    assert_eq!(
        tokens_from_query("INSERT INTO people (name, age) VALUES ('Alen', 25);"),
        ["INSERT", "INTO", "people", "name, age", "VALUES", "'Alen', 25"]
    );
    assert_eq!(
        tokens_from_query("INSERT INTO people (name"),
        ["INSERT", "INTO", "people", "name"]
    );
    assert_eq!(tokens_from_query("INSERT ) x"), ["INSERT", ")", "x"]);
}

#[test]
fn parentheses_elsewhere_are_tokens_of_their_own() {
    assert_eq!(
        tokens_from_query("SELECT a FROM t WHERE (a = 1 OR b = 2) AND NOT ((c < 3))"),
        [
            "SELECT", "a", "FROM", "t", "WHERE", "(", "a", "=", "1", "OR", "b", "=", "2", ")",
            "AND", "NOT", "(", "(", "c", "<", "3", ")", ")"
        ]
    );
    assert_eq!(tokens_from_query("insert (a, b)"), ["insert", "(", "a", "b", ")"]);
}

#[test]
fn letters_beyond_ascii_stay_in_their_word() {
    assert_eq!(tokens_from_query("año = 'Pérez'"), ["año", "=", "Pérez"]);
    assert_eq!(tokens_from_query("a\u{a0}b"), ["a", "b"]);
}

#[test]
fn tokenize_reads_parentheses_as_told() {
    assert_eq!(tokenize("x (a, b) y", true), ["x", "a, b", "y"]);
    assert_eq!(tokenize("x (a, b) y", false), ["x", "(", "a", "b", ")", "y"]);
}
