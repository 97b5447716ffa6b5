use sql_engine::errors::SqlError;
use sql_engine::register::Register;
use sql_engine::table::{
    complete, convert_line_to_register, project, read_header, table_to_csv, Table,
};

fn cols(items: &[&str]) -> Vec<String> {
    items.iter().map(|s| s.to_string()).collect()
}

fn record(pairs: &[(&str, &str)]) -> Register {
    let mut register = Register::new();
    for (column, value) in pairs {
        register.insert(column.to_string(), value.to_string());
    }
    register
}

#[test]
fn register_holds_what_was_put_in() {
    let mut register = Register::new();
    assert!(register.is_empty());
    assert!(register.get("name").is_none());
    register.insert(String::from("name"), String::from("Ana"));
    assert!(!register.is_empty());
    assert_eq!(register.get("name"), Some(&String::from("Ana")));
    assert!(register.get("age").is_none());
    register.insert(String::from("name"), String::from("Beto"));
    assert_eq!(register.get("name"), Some(&String::from("Beto")));
}

#[test]
fn register_writes_its_values_in_the_order_asked() {
    let register = record(&[("name", "Ana"), ("city", "Trelew"), ("age", "30")]);
    assert_eq!(register.to_csv(&cols(&["name", "city", "age"])), Ok(String::from("Ana,Trelew,30")));
    assert_eq!(register.to_csv(&cols(&["age", "name"])), Ok(String::from("30,Ana")));
    assert_eq!(register.to_csv(&cols(&["age", "age"])), Ok(String::from("30,30")));
    assert_eq!(register.to_csv(&cols(&["city"])), Ok(String::from("Trelew")));
    assert_eq!(register.to_csv(&cols(&[])), Ok(String::new()));
}

#[test]
fn register_fails_on_a_column_it_lacks() {
    let register = record(&[("name", "Ana")]);
    assert_eq!(register.to_csv(&cols(&["name", "age"])), Err(SqlError::Error));
    assert_eq!(register.to_csv(&cols(&["age"])), Err(SqlError::Error));
}

#[test]
fn new_table_is_empty() {
    let table = Table::new();
    assert!(table.columns.is_empty());
    assert!(table.registers.is_empty());
}

#[test]
fn header_is_the_first_line() {
    assert_eq!(read_header(&cols(&["name,city,age", "Ana,Trelew,30"])), ["name", "city", "age"]);
    assert_eq!(read_header(&cols(&["id"])), ["id"]);
    assert_eq!(read_header(&cols(&[""])), [""]);
    assert!(read_header(&Vec::new()).is_empty());
}

#[test]
fn line_is_read_position_by_position() {
    let columns = cols(&["name", "city", "age"]);
    let register = convert_line_to_register("Ana,Trelew,30", &columns);
    assert_eq!(register.get("name"), Some(&String::from("Ana")));
    assert_eq!(register.get("city"), Some(&String::from("Trelew")));
    assert_eq!(register.get("age"), Some(&String::from("30")));
}

#[test]
fn line_and_header_are_paired_as_far_as_both_go() {
    let columns = cols(&["name", "city", "age"]);
    let short = convert_line_to_register("Ana", &columns);
    assert_eq!(short.get("name"), Some(&String::from("Ana")));
    assert!(short.get("city").is_none());
    let long = convert_line_to_register("Ana,Trelew,30,x,y", &columns);
    assert_eq!(long.to_csv(&columns), Ok(String::from("Ana,Trelew,30")));
    let twice = convert_line_to_register("1,2", &cols(&["a", "a"]));
    assert_eq!(twice.get("a"), Some(&String::from("2")));
}

#[test]
fn complete_fills_with_empty_texts() {
    let register = record(&[("name", "Ana"), ("phone", "1")]);
    let columns = cols(&["name", "age"]);
    let full = complete(&register, &columns);
    assert_eq!(full.get("name"), Some(&String::from("Ana")));
    assert_eq!(full.get("age"), Some(&String::new()));
    assert!(full.get("phone").is_none());
}

#[test]
fn project_keeps_the_columns_asked_for() {
    let register = record(&[("name", "Ana"), ("city", "Trelew"), ("age", "30")]);
    let part = project(&register, &cols(&["age", "phone"]));
    assert_eq!(part.get("age"), Some(&String::from("30")));
    assert!(part.get("name").is_none());
    assert!(part.get("phone").is_none());
}

#[test]
fn table_is_written_as_lines() {
    let table = Table {
        columns: cols(&["name", "age"]),
        registers: vec![
            record(&[("name", "Ana"), ("age", "30")]),
            record(&[("name", "Beto"), ("age", "25")]),
        ],
    };
    assert_eq!(
        table_to_csv(&table, &table.columns),
        Ok(cols(&["name,age", "Ana,30", "Beto,25"]))
    );
    assert_eq!(
        table_to_csv(&table, &cols(&["age"])),
        Ok(cols(&["age", "30", "25"]))
    );
    assert_eq!(table_to_csv(&Table::new(), &cols(&["a", "b"])), Ok(cols(&["a,b"])));
    assert_eq!(table_to_csv(&Table::new(), &Vec::new()), Ok(cols(&[""])));
}

#[test]
fn table_fails_to_be_written_when_a_row_lacks_a_column() {
    let table = Table {
        columns: cols(&["name", "age"]),
        registers: vec![record(&[("name", "Ana"), ("age", "30")]), record(&[("name", "Beto")])],
    };
    assert_eq!(table_to_csv(&table, &table.columns), Err(SqlError::Error));
    assert_eq!(table_to_csv(&table, &cols(&["name"])), Ok(cols(&["name", "Ana", "Beto"])));
}

#[test]
fn written_table_reads_back() {
    let columns = cols(&["name", "city", "age"]);
    let rows = vec![
        record(&[("name", "Ana"), ("city", "Puerto Madryn"), ("age", "30")]),
        record(&[("name", ""), ("city", ""), ("age", "")]),
        record(&[("name", "Pérez"), ("city", "'x'"), ("age", " 7 ")]),
    ];
    let table = Table { columns: columns.clone(), registers: rows };
    let lines = table_to_csv(&table, &columns).unwrap();
    let header = read_header(&lines);
    assert_eq!(header, columns);
    for (i, register) in table.registers.iter().enumerate() {
        let back = convert_line_to_register(&lines[i + 1], &header);
        for column in &columns {
            assert_eq!(back.get(column), register.get(column));
        }
        assert_eq!(back.to_csv(&columns), register.to_csv(&columns));
    }
}
