use sql_engine::condition::{Condition, Operator};
use sql_engine::errors::SqlError;
use sql_engine::orderby_sql::OrderBy;
use sql_engine::select_sql::Select;
use sql_engine::table::table_to_csv;

fn strings(items: &[&str]) -> Vec<String> {
    items.iter().map(|s| s.to_string()).collect()
}

fn people() -> Vec<String> {
    strings(&[
        "name,city,age",
        "Ana,Trelew,30",
        "Beto,Gaiman,25",
        "Caro,Trelew,25",
        "Dante,Gaiman,41",
    ])
}

fn select(query: &[&str]) -> Select {
    Select::new_from_tokens(strings(query)).unwrap()
}

fn shown(select: &Select, lines: Vec<String>) -> Vec<String> {
    let table = select.apply_to_table(lines).unwrap();
    if select.columns[0] == "*" {
        table_to_csv(&table, &table.columns).unwrap()
    } else {
        table_to_csv(&table, &select.columns).unwrap()
    }
}

#[test]
fn new_1_tokens() {
    let tokens = vec![String::from("SELECT")];
    let select = Select::new_from_tokens(tokens);
    assert_eq!(select, Err(SqlError::InvalidSyntax));
}

#[test]
fn new_2_tokens() {
    let tokens = vec![String::from("SELECT"), String::from("col")];
    let select = Select::new_from_tokens(tokens);
    assert_eq!(select, Err(SqlError::InvalidSyntax));
}

#[test]
fn select_sql_new_3_tokens() {
    let tokens = vec![
        String::from("SELECT"),
        String::from("col"),
        String::from("FROM"),
    ];
    let select = Select::new_from_tokens(tokens);
    assert_eq!(select, Err(SqlError::InvalidSyntax));
}

#[test]
fn new_4_tokens() {
    let tokens = vec![
        String::from("SELECT"),
        String::from("col"),
        String::from("FROM"),
        String::from("table"),
    ];
    let select = Select::new_from_tokens(tokens).unwrap();
    assert_eq!(select.columns, ["col"]);
    assert_eq!(select.table_name, "table");
    assert_eq!(select.where_clause, None);
    assert_eq!(select.orderby_clause, None);
}

#[test]
fn new_with_where() {
    let tokens = vec![
        String::from("SELECT"),
        String::from("col"),
        String::from("FROM"),
        String::from("table"),
        String::from("WHERE"),
        String::from("cantidad"),
        String::from(">"),
        String::from("1"),
    ];
    let select = Select::new_from_tokens(tokens).unwrap();
    assert_eq!(select.columns, ["col"]);
    assert_eq!(select.table_name, "table");
    let where_clause = select.where_clause.unwrap();
    assert_eq!(
        where_clause.condition,
        Condition::Simple {
            field: String::from("cantidad"),
            operator: Operator::Greater,
            value: String::from("1"),
        }
    );
    assert_eq!(select.orderby_clause, None);
}

#[test]
fn new_with_orderby() {
    let tokens = vec![
        String::from("SELECT"),
        String::from("col"),
        String::from("FROM"),
        String::from("table"),
        String::from("WHERE"),
        String::from("cantidad"),
        String::from(">"),
        String::from("1"),
    ];
    let select = Select::new_from_tokens(tokens).unwrap();
    assert_eq!(select.columns, ["col"]);
    assert_eq!(select.table_name, "table");
    let where_clause = select.where_clause.unwrap();
    assert_eq!(
        where_clause.condition,
        Condition::Simple {
            field: String::from("cantidad"),
            operator: Operator::Greater,
            value: String::from("1"),
        }
    );
    assert_eq!(select.orderby_clause, None);
}

#[test]
fn new_with_where_orderby() {
    let tokens = vec![
        String::from("SELECT"),
        String::from("col"),
        String::from("FROM"),
        String::from("table"),
        String::from("WHERE"),
        String::from("cantidad"),
        String::from(">"),
        String::from("1"),
        String::from("ORDER"),
        String::from("BY"),
        String::from("email"),
    ];
    let select = Select::new_from_tokens(tokens).unwrap();
    assert_eq!(select.columns, ["col"]);
    assert_eq!(select.table_name, "table");
    let where_clause = select.where_clause.unwrap();
    assert_eq!(
        where_clause.condition,
        Condition::Simple {
            field: String::from("cantidad"),
            operator: Operator::Greater,
            value: String::from("1"),
        }
    );
    let orderby_clause = select.orderby_clause.unwrap();
    let mut columns = Vec::new();
    columns.push(String::from("email"));
    assert_eq!(
        orderby_clause,
        OrderBy {
            columns,
            order: String::new()
        }
    );
}

#[test]
fn new_with_orderby_only() {
    let select = select(&["SELECT", "a", "b", "FROM", "t", "ORDER", "BY", "b", "a", "DESC"]);
    assert_eq!(select.columns, ["a", "b"]);
    assert_eq!(select.where_clause, None);
    assert_eq!(
        select.orderby_clause,
        Some(OrderBy { columns: strings(&["b", "a"]), order: String::from("DESC") })
    );
}

#[test]
fn select_rejects_malformed_statements() {
    // Not a SELECT.
    let tokens = strings(&["UPDATE", "a", "FROM", "t"]);
    assert_eq!(Select::new_from_tokens(tokens), Err(SqlError::InvalidSyntax));
    // No column.
    let tokens = strings(&["SELECT", "FROM", "t", "x"]);
    assert_eq!(Select::new_from_tokens(tokens), Err(SqlError::InvalidSyntax));
    // No FROM.
    let tokens = strings(&["SELECT", "a", "b", "c"]);
    assert_eq!(Select::new_from_tokens(tokens), Err(SqlError::InvalidSyntax));
    // No table behind FROM.
    let tokens = strings(&["SELECT", "a", "b", "FROM"]);
    assert_eq!(Select::new_from_tokens(tokens), Err(SqlError::InvalidSyntax));
    // An empty table name.
    let tokens = strings(&["SELECT", "a", "FROM", ""]);
    assert_eq!(Select::new_from_tokens(tokens), Err(SqlError::InvalidSyntax));
    // ORDER without BY, and ORDER BY without a column.
    let tokens = strings(&["SELECT", "a", "FROM", "t", "ORDER", "a"]);
    assert_eq!(Select::new_from_tokens(tokens), Err(SqlError::InvalidSyntax));
    let tokens = strings(&["SELECT", "a", "FROM", "t", "ORDER", "BY"]);
    assert_eq!(Select::new_from_tokens(tokens), Err(SqlError::InvalidSyntax));
}

#[test]
fn new_passes_on_the_failures_of_the_filter() {
    // A token is missing: the parser's generic failure.
    let tokens = strings(&["SELECT", "a", "FROM", "t", "WHERE", "a", "="]);
    assert_eq!(Select::new_from_tokens(tokens), Err(SqlError::Error));
    // An operator that is none.
    let tokens = strings(&["SELECT", "a", "FROM", "t", "WHERE", "a", "<>", "1"]);
    assert_eq!(Select::new_from_tokens(tokens), Err(SqlError::InvalidSyntax));
    // The filter fails before the ordering is looked at.
    let tokens = strings(&["SELECT", "a", "FROM", "t", "WHERE", "a", "ORDER", "a"]);
    assert_eq!(Select::new_from_tokens(tokens), Err(SqlError::Error));
}

#[test]
fn execute_keeps_the_row_on_all_columns() {
    let select = select(&["SELECT", "name", "FROM", "people", "WHERE", "age", ">", "26"]);
    let columns = strings(&["name", "city", "age"]);
    let row = select.execute(String::from("Ana,Trelew,30"), &columns).unwrap();
    assert_eq!(row.to_csv(&columns), Ok(String::from("Ana,Trelew,30")));
    let row = select.execute(String::from("Beto,Gaiman,25"), &columns).unwrap();
    assert!(row.is_empty());
}

#[test]
fn execute_fills_a_short_line_with_empty_texts() {
    let select = select(&["SELECT", "name", "FROM", "people"]);
    let columns = strings(&["name", "city", "age"]);
    let row = select.execute(String::from("Ana"), &columns).unwrap();
    assert_eq!(row.to_csv(&columns), Ok(String::from("Ana,,")));
}

#[test]
fn execute_fails_on_an_unknown_column() {
    let select = select(&["SELECT", "name", "phone", "FROM", "people"]);
    let columns = strings(&["name", "city", "age"]);
    assert!(matches!(
        select.execute(String::from("Ana,Trelew,30"), &columns),
        Err(SqlError::InvalidColumn)
    ));
}

#[test]
fn execute_fails_when_the_filter_names_an_unknown_column() {
    let select = select(&["SELECT", "name", "FROM", "people", "WHERE", "phone", "=", "1"]);
    let columns = strings(&["name", "city", "age"]);
    assert!(matches!(
        select.execute(String::from("Ana,Trelew,30"), &columns),
        Err(SqlError::Error)
    ));
}

#[test]
fn select_all_columns() {
    let select = select(&["SELECT", "*", "FROM", "people"]);
    assert_eq!(shown(&select, people()), people());
}

#[test]
fn select_projects_in_the_order_of_the_statement() {
    let select = select(&["SELECT", "age", "name", "FROM", "people"]);
    assert_eq!(
        shown(&select, people()),
        ["age,name", "30,Ana", "25,Beto", "25,Caro", "41,Dante"]
    );
    let table = select.apply_to_table(people()).unwrap();
    // The table keeps the header of the stored table; its rows hold the
    // columns of the statement only.
    assert_eq!(table.columns, ["name", "city", "age"]);
    assert!(table.registers[0].get("city").is_none());
    assert_eq!(table.registers[0].get("age"), Some(&String::from("30")));
}

#[test]
fn select_filters_rows() {
    let select = select(&["SELECT", "name", "FROM", "people", "WHERE", "city", "=", "Trelew"]);
    assert_eq!(shown(&select, people()), ["name", "Ana", "Caro"]);
}

#[test]
fn select_without_ordering_keeps_the_order_of_the_table() {
    let select = select(&["SELECT", "name", "FROM", "people", "WHERE", "age", "<", "41"]);
    assert_eq!(shown(&select, people()), ["name", "Ana", "Beto", "Caro"]);
}

#[test]
fn select_orders_rows() {
    let select = select(&["SELECT", "name", "FROM", "people", "ORDER", "BY", "age"]);
    assert_eq!(shown(&select, people()), ["name", "Beto", "Caro", "Ana", "Dante"]);
    let select = select_asc();
    assert_eq!(shown(&select, people()), ["name", "Beto", "Caro", "Ana", "Dante"]);
}

fn select_asc() -> Select {
    select(&["SELECT", "name", "FROM", "people", "ORDER", "BY", "age", "ASC"])
}

#[test]
fn select_orders_rows_downwards_and_keeps_ties_in_place() {
    let select = select(&["SELECT", "name", "FROM", "people", "ORDER", "BY", "age", "DESC"]);
    // Beto and Caro tie: reversing the order does not exchange them.
    assert_eq!(shown(&select, people()), ["name", "Dante", "Ana", "Beto", "Caro"]);
}

#[test]
fn select_orders_by_several_columns() {
    let select = select(&["SELECT", "*", "FROM", "people", "ORDER", "BY", "city", "age"]);
    assert_eq!(
        shown(&select, people()),
        [
            "name,city,age",
            "Beto,Gaiman,25",
            "Dante,Gaiman,41",
            "Caro,Trelew,25",
            "Ana,Trelew,30"
        ]
    );
}

#[test]
fn select_filters_then_orders() {
    let select = select(&[
        "SELECT", "name", "age", "FROM", "people", "WHERE", "city", "=", "Gaiman", "ORDER", "BY",
        "name", "DESC",
    ]);
    assert_eq!(shown(&select, people()), ["name,age", "Dante,41", "Beto,25"]);
}

#[test]
fn select_fails_on_an_unknown_column_even_without_rows() {
    let select = select(&["SELECT", "phone", "FROM", "people"]);
    assert!(matches!(select.apply_to_table(people()), Err(SqlError::InvalidColumn)));
    assert!(matches!(
        select.apply_to_table(strings(&["name,city,age"])),
        Err(SqlError::InvalidColumn)
    ));
    assert!(matches!(select.apply_to_table(Vec::new()), Err(SqlError::InvalidColumn)));
}

#[test]
fn select_fails_when_the_filter_cannot_be_decided() {
    let select = select(&["SELECT", "name", "FROM", "people", "WHERE", "phone", "=", "1"]);
    assert!(matches!(select.apply_to_table(people()), Err(SqlError::Error)));
    // Without rows nothing is decided, and nothing fails.
    let table = select.apply_to_table(strings(&["name,city,age"])).unwrap();
    assert!(table.registers.is_empty());
}

#[test]
fn select_of_an_empty_table() {
    let select = select(&["SELECT", "*", "FROM", "people"]);
    let table = select.apply_to_table(Vec::new()).unwrap();
    assert!(table.columns.is_empty());
    assert!(table.registers.is_empty());
}

#[test]
fn filter_columns_cuts_rows_down() {
    let select = select(&["SELECT", "age", "FROM", "people"]);
    let columns = strings(&["name", "city", "age"]);
    let row = select.execute(String::from("Ana,Trelew,30"), &columns).unwrap();
    let rows = select.filter_columns(&columns, vec![row]);
    assert_eq!(rows.len(), 1);
    assert_eq!(rows[0].get("age"), Some(&String::from("30")));
    assert!(rows[0].get("name").is_none());
    assert!(rows[0].get("city").is_none());
}
