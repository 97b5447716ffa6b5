use sql_engine::errors::SqlError;
use sql_engine::query::{exec_query, Outcome, Query};
use sql_engine::tokens::tokens_from_query;

fn file(items: &[&str]) -> Vec<String> {
    items.iter().map(|s| s.to_string()).collect()
}

fn customers() -> Vec<String> {
    file(&[
        "id,name,city",
        "1,Ana,Trelew",
        "2,Beto,Gaiman",
        "3,Caro,Trelew",
    ])
}

fn run(query: &str, lines: Vec<String>) -> Result<Outcome, SqlError> {
    let statement = Query::new_from_tokens(tokens_from_query(query))?;
    exec_query(statement, lines)
}

#[test]
fn messages() {
    assert_eq!(
        SqlError::InvalidTable.message(),
        "[InvalidTable]: [Error to open or process table]"
    );
    assert_eq!(SqlError::InvalidColumn.message(), "[InvalidColumn]: [Error to process column]");
    assert_eq!(SqlError::InvalidSyntax.message(), "[InvalidSyntax]: [Error to process query]");
    assert_eq!(SqlError::Error.message(), "[Error]: [Error]");
}

#[test]
fn query_is_told_by_its_first_word() {
    let query = Query::new_from_tokens(tokens_from_query("SELECT * FROM customers")).unwrap();
    assert!(matches!(query, Query::Select(_)));
    assert_eq!(query.table_name(), "customers");
    let query =
        Query::new_from_tokens(tokens_from_query("INSERT INTO orders (id) VALUES (1)")).unwrap();
    assert!(matches!(query, Query::Insert(_)));
    assert_eq!(query.table_name(), "orders");
    let query = Query::new_from_tokens(tokens_from_query("UPDATE stock SET n = 1")).unwrap();
    assert!(matches!(query, Query::Update(_)));
    assert_eq!(query.table_name(), "stock");
    let query = Query::new_from_tokens(tokens_from_query("DELETE FROM logs")).unwrap();
    assert!(matches!(query, Query::Delete(_)));
    assert_eq!(query.table_name(), "logs");
}

#[test]
fn query_fails_on_an_unknown_first_word() {
    assert_eq!(Query::new_from_tokens(Vec::new()), Err(SqlError::InvalidSyntax));
    assert_eq!(Query::new_from_tokens(tokens_from_query("")), Err(SqlError::InvalidSyntax));
    assert_eq!(
        Query::new_from_tokens(tokens_from_query("DROP TABLE customers")),
        Err(SqlError::InvalidSyntax)
    );
    assert_eq!(
        Query::new_from_tokens(tokens_from_query("select * from customers")),
        Err(SqlError::InvalidSyntax)
    );
    assert_eq!(
        Query::new_from_tokens(tokens_from_query("SELECT name FROM")),
        Err(SqlError::InvalidSyntax)
    );
}

#[test]
fn select_shows_the_rows_found() {
    assert_eq!(
        run("SELECT name, id FROM customers WHERE city = 'Trelew' ORDER BY name DESC;", customers()),
        Ok(Outcome::Show(file(&["name,id", "Caro,3", "Ana,1"])))
    );
    assert_eq!(run("SELECT * FROM customers", customers()), Ok(Outcome::Show(customers())));
    assert_eq!(
        run("SELECT * FROM customers WHERE id > 5", customers()),
        Ok(Outcome::Show(file(&["id,name,city"])))
    );
}

#[test]
fn select_with_grouped_conditions() {
    assert_eq!(
        run(
            "SELECT name FROM customers WHERE (city = 'Gaiman' OR id = 1) AND NOT name = 'Ana'",
            customers()
        ),
        Ok(Outcome::Show(file(&["name", "Beto"])))
    );
    assert_eq!(
        run("SELECT name FROM customers WHERE NOT city = 'Trelew' AND id = 5", customers()),
        Ok(Outcome::Show(file(&["name", "Ana", "Beto", "Caro"])))
    );
}

#[test]
fn select_fails_on_an_unknown_column() {
    assert_eq!(run("SELECT phone FROM customers", customers()), Err(SqlError::InvalidColumn));
    assert_eq!(
        run("SELECT name FROM customers WHERE phone = 1", customers()),
        Err(SqlError::Error)
    );
}

#[test]
fn insert_adds_a_line_in_the_order_of_the_header() {
    assert_eq!(
        run("INSERT INTO customers (city, name, id) VALUES ('Rawson', 'Dante', 4)", customers()),
        Ok(Outcome::Append(String::from("4,Dante,Rawson")))
    );
    assert_eq!(
        run("INSERT INTO customers (name) VALUES ('Dante')", customers()),
        Ok(Outcome::Append(String::from(",Dante,")))
    );
    assert_eq!(
        run("INSERT INTO customers (name) VALUES ('Dante')", file(&["id,name,city\n"])),
        Ok(Outcome::Append(String::from(",Dante,")))
    );
}

#[test]
fn insert_into_a_file_without_a_header() {
    assert_eq!(
        run("INSERT INTO customers (name) VALUES ('Dante')", Vec::new()),
        Ok(Outcome::Append(String::new()))
    );
}

#[test]
fn update_replaces_the_table() {
    assert_eq!(
        run("UPDATE customers SET city = 'Rawson' WHERE id = 2", customers()),
        Ok(Outcome::Replace(file(&[
            "id,name,city",
            "1,Ana,Trelew",
            "2,Beto,Rawson",
            "3,Caro,Trelew"
        ])))
    );
    assert_eq!(
        run("UPDATE customers SET city = 'Rawson', name = 'X'", customers()),
        Ok(Outcome::Replace(file(&[
            "id,name,city",
            "1,X,Rawson",
            "2,X,Rawson",
            "3,X,Rawson"
        ])))
    );
}

#[test]
fn update_of_a_short_row_fails_to_be_written() {
    assert_eq!(
        run("UPDATE customers SET name = 'X'", file(&["id,name,city", "1,Ana"])),
        Err(SqlError::Error)
    );
}

#[test]
fn delete_replaces_the_table() {
    assert_eq!(
        run("DELETE FROM customers WHERE id = 2", customers()),
        Ok(Outcome::Replace(file(&["id,name,city", "1,Ana,Trelew", "3,Caro,Trelew"])))
    );
    assert_eq!(run("DELETE FROM customers", customers()), Ok(Outcome::Replace(customers())));
    assert_eq!(
        run("DELETE FROM customers WHERE phone = 2", customers()),
        Err(SqlError::Error)
    );
}
