use sql_engine::errors::SqlError;
use sql_engine::insert_sql::Insert;
use sql_engine::into_sql::Into;

fn texts(items: &[&str]) -> Vec<String> {
    items.iter().map(|s| s.to_string()).collect()
}

#[test]
fn new_1_token() {
    let tokens = vec![String::from("INSERT")];
    let result = Insert::new_from_tokens(tokens);
    assert_eq!(result, Err(SqlError::InvalidSyntax));
}

#[test]
fn insert_sql_new_3_tokens() {
    let tokens = vec![
        String::from("INSERT"),
        String::from("INTO"),
        String::from("table"),
    ];

    let result = Insert::new_from_tokens(tokens);
    assert_eq!(result, Err(SqlError::InvalidSyntax));
}

#[test]
fn new_6_tokens() {
    let tokens = vec![
        String::from("INSERT"),
        String::from("INTO"),
        String::from("table"),
        String::from("name"),
        String::from("VALUES"),
        String::from("Alen"),
    ];
    let result = Insert::new_from_tokens(tokens).unwrap();
    assert_eq!(
        result,
        Insert {
            values: vec![String::from("Alen")],
            into_clause: Into {
                table_name: String::from("table"),
                columns: vec![String::from("name")]
            }
        }
    );
}

#[test]
fn new_more_values() {
    let tokens = vec![
        String::from("INSERT"),
        String::from("INTO"),
        String::from("table"),
        String::from("name, age"),
        String::from("VALUES"),
        String::from("Alen, 25"),
    ];
    let result = Insert::new_from_tokens(tokens).unwrap();
    assert_eq!(
        result,
        Insert {
            values: vec![String::from("Alen"), String::from("25")],
            into_clause: Into {
                table_name: String::from("table"),
                columns: vec![String::from("name"), String::from("age")]
            }
        }
    );
}

#[test]
fn insert_with_missing_values() {
    let mut insert = Insert {
        values: vec![String::from("Alen")],
        into_clause: Into {
            table_name: String::from("testing"),
            columns: vec![String::from("nombre")],
        },
    };

    assert_eq!(insert.apply_to_table("nombre,apellido,edad\n"), "Alen,,");
}

#[test]
fn insert_all_values() {
    let mut insert = Insert {
        values: vec![
            String::from("Alen"),
            String::from("Davies"),
            String::from("25"),
        ],
        into_clause: Into {
            table_name: String::from("testing"),
            columns: vec![
                String::from("nombre"),
                String::from("apellido"),
                String::from("edad"),
            ],
        },
    };

    assert_eq!(insert.apply_to_table("nombre,apellido,edad\n"), "Alen,Davies,25");
}

#[test]
fn insert_in_desorder() {
    let mut insert = Insert {
        values: vec![
            String::from("Davies"),
            String::from("25"),
            String::from("Alen"),
        ],
        into_clause: Into {
            table_name: String::from("testing"),
            columns: vec![
                String::from("apellido"),
                String::from("edad"),
                String::from("nombre"),
            ],
        },
    };

    assert_eq!(insert.apply_to_table("nombre,apellido,edad\n"), "Alen,Davies,25");
}

#[test]
fn new_takes_quotes_out_of_the_values() {
    let tokens = texts(&["INSERT", "INTO", "people", "name,city", "VALUES", "'Alen', 'Gaiman'"]);
    let result = Insert::new_from_tokens(tokens).unwrap();
    assert_eq!(result.values, ["Alen", "Gaiman"]);
    assert_eq!(result.into_clause.columns, ["name", "city"]);
    assert_eq!(result.into_clause.table_name, "people");
}

#[test]
fn new_keeps_empty_items() {
    let tokens = texts(&["INSERT", "INTO", "people", "a,,b", "VALUES", ",1,"]);
    let result = Insert::new_from_tokens(tokens).unwrap();
    assert_eq!(result.values, ["", "1", ""]);
    assert_eq!(result.into_clause.columns, ["a", "", "b"]);
}

#[test]
fn new_ignores_what_follows_the_values() {
    let tokens = texts(&["INSERT", "INTO", "t", "a", "VALUES", "1", "x", "y"]);
    let result = Insert::new_from_tokens(tokens).unwrap();
    assert_eq!(result.values, ["1"]);
}

#[test]
fn insert_rejects_malformed_statements() {
    // Not an INSERT.
    let tokens = texts(&["SELECT", "INTO", "t", "a", "VALUES", "1"]);
    assert_eq!(Insert::new_from_tokens(tokens), Err(SqlError::InvalidSyntax));
    // No VALUES.
    let tokens = texts(&["INSERT", "INTO", "t", "a", "b", "c"]);
    assert_eq!(Insert::new_from_tokens(tokens), Err(SqlError::InvalidSyntax));
    // VALUES is the last token.
    let tokens = texts(&["INSERT", "INTO", "t", "a", "b", "VALUES"]);
    assert_eq!(Insert::new_from_tokens(tokens), Err(SqlError::InvalidSyntax));
    // No INTO.
    let tokens = texts(&["INSERT", "IN", "t", "a", "VALUES", "1"]);
    assert_eq!(Insert::new_from_tokens(tokens), Err(SqlError::InvalidSyntax));
    // No list of columns between the table and VALUES.
    let tokens = texts(&["INSERT", "INTO", "t", "VALUES", "1", "2"]);
    assert_eq!(Insert::new_from_tokens(tokens), Err(SqlError::InvalidSyntax));
    // VALUES right behind INSERT.
    let tokens = texts(&["INSERT", "VALUES", "t", "a", "b", "c"]);
    assert_eq!(Insert::new_from_tokens(tokens), Err(SqlError::InvalidSyntax));
}

#[test]
fn reorder_follows_the_header() {
    let mut insert = Insert {
        values: texts(&["25", "Alen"]),
        into_clause: Into { table_name: String::from("people"), columns: texts(&["age", "name"]) },
    };
    insert.reorder_values(texts(&["name", "age"]));
    assert_eq!(insert.values, ["Alen", "25"]);
    assert_eq!(insert.into_clause.columns, ["name", "age"]);
    assert_eq!(insert.into_clause.table_name, "people");
}

#[test]
fn reorder_fills_unnamed_columns_with_the_empty_text() {
    let mut insert = Insert {
        values: texts(&["Alen"]),
        into_clause: Into { table_name: String::from("people"), columns: texts(&["name"]) },
    };
    insert.reorder_values(texts(&["name", "age"]));
    assert_eq!(insert.values, ["Alen", ""]);
    assert_eq!(insert.into_clause.columns, ["name", "age"]);
}

#[test]
fn written_row_follows_the_header() {
    let mut insert = Insert {
        values: texts(&["25", "Alen"]),
        into_clause: Into { table_name: String::from("people"), columns: texts(&["age", "name"]) },
    };
    assert_eq!(insert.apply_to_table("name,age"), "Alen,25");

    let mut insert = Insert {
        values: texts(&["Alen"]),
        into_clause: Into { table_name: String::from("people"), columns: texts(&["name"]) },
    };
    assert_eq!(insert.apply_to_table("name,age"), "Alen,");
}

#[test]
fn reorder_drops_columns_the_table_lacks() {
    let mut insert = Insert {
        values: texts(&["1", "2", "3"]),
        into_clause: Into { table_name: String::from("t"), columns: texts(&["x", "a", "y"]) },
    };
    insert.reorder_values(texts(&["a", "b"]));
    assert_eq!(insert.values, ["2", ""]);
}

#[test]
fn reorder_takes_the_first_mention_of_a_column() {
    let mut insert = Insert {
        values: texts(&["1", "2"]),
        into_clause: Into { table_name: String::from("t"), columns: texts(&["a", "a"]) },
    };
    insert.reorder_values(texts(&["a"]));
    assert_eq!(insert.values, ["1"]);
}

#[test]
fn reorder_without_a_value_at_the_position_gives_the_empty_text() {
    let mut insert = Insert {
        values: texts(&["1"]),
        into_clause: Into { table_name: String::from("t"), columns: texts(&["a", "b"]) },
    };
    insert.reorder_values(texts(&["b", "a"]));
    assert_eq!(insert.values, ["", "1"]);
}

#[test]
fn into_reads_table_and_columns() {
    let into = Into::new_from_tokens(vec!["INTO", "people", " name ,age,  city"]).unwrap();
    assert_eq!(into.table_name, "people");
    assert_eq!(into.columns, ["name", "age", "city"]);
}

#[test]
fn into_rejects_malformed_targets() {
    assert_eq!(Into::new_from_tokens(vec!["INTO", "people"]), Err(SqlError::InvalidSyntax));
    assert_eq!(Into::new_from_tokens(Vec::new()), Err(SqlError::InvalidSyntax));
    assert_eq!(
        Into::new_from_tokens(vec!["FROM", "people", "name"]),
        Err(SqlError::InvalidSyntax)
    );
}
