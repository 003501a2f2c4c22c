use minidb::database::DataBase;
use minidb::disk::Disk;
use minidb::lexer::Lexer;
use minidb::parser::Parser;
use minidb::processor::Processor;
use minidb::table::{Column, ColumnType, DataType, Page, Table};

fn setup_processor() -> Processor {
    Processor::new(DataBase::new(Disk::new(Vec::new())).unwrap())
}

fn parse_command(processor: &mut Processor, input: &str) -> Result<(), String> {
    let lexer = Lexer::new(input);
    let mut parser = Parser::new(lexer, processor);
    match parser.parse() {
        Err(error) => println!("{}", error),
        _ => {}
    }
    Ok(())
}

fn run(processor: &mut Processor, sql: &str) -> Result<(), String> {
    let lexer = Lexer::new(sql);
    let mut parser = Parser::new(lexer, processor);
    parser.parse()
}

fn field(name: &str, data_type: DataType) -> Column {
    let size = match data_type {
        DataType::INT => 4,
        DataType::STRING => 200,
        DataType::UUID => 16,
    };
    Column::new(name.to_string(), size, ColumnType::FIELD, data_type)
}

fn pairs(items: &[(&str, &str)]) -> Vec<(String, String)> {
    items.iter().map(|(k, v)| (k.to_string(), v.to_string())).collect()
}

fn all() -> Vec<String> {
    vec!["*".to_string()]
}

fn is_uuid_text(text: &str) -> bool {
    text.len() == 36 && uuid::Uuid::parse_str(text).is_ok()
}

#[test]
fn test_insert_and_read_from_multiple_tables() {
    let mut processor = setup_processor();

    parse_command(&mut processor, "CREATE TABLE users (id INT, name TEXT)").unwrap();
    parse_command(&mut processor, "CREATE TABLE orders (order_id INT, user_id INT, amount INT)").unwrap();

    parse_command(&mut processor, "INSERT INTO users VALUES (1, 'Alice')").unwrap();
    parse_command(&mut processor, "INSERT INTO users VALUES (2, 'Bob')").unwrap();

    parse_command(&mut processor, "INSERT INTO orders VALUES (100, 1, 50)").unwrap();
    parse_command(&mut processor, "INSERT INTO orders VALUES (101, 2, 75)").unwrap();
    parse_command(&mut processor, "INSERT INTO orders VALUES (102, 1, 25)").unwrap();

    parse_command(&mut processor, "SELECT * FROM users").unwrap();
    parse_command(&mut processor, "SELECT * FROM orders").unwrap();
}

#[test]
fn test_multiple_tables_isolation() {
    let mut processor = setup_processor();

    parse_command(&mut processor, "CREATE TABLE products (id INT, name TEXT)").unwrap();
    parse_command(&mut processor, "CREATE TABLE categories (id INT, category TEXT)").unwrap();

    parse_command(&mut processor, "INSERT INTO products VALUES (1, 'Laptop')").unwrap();
    parse_command(&mut processor, "INSERT INTO products VALUES (2, 'Phone')").unwrap();

    parse_command(&mut processor, "INSERT INTO categories VALUES (1, 'Electronics')").unwrap();

    parse_command(&mut processor, "SELECT * FROM products").unwrap();
    parse_command(&mut processor, "SELECT * FROM categories").unwrap();
}

#[test]
fn test_insert_into_nonexistent_table() {
    let mut processor = setup_processor();

    parse_command(&mut processor, "INSERT INTO nonexistent VALUES (1, 'test')").unwrap();
}

#[test]
fn test_read_from_empty_table() {
    let mut processor = setup_processor();

    parse_command(&mut processor, "CREATE TABLE empty_table (id INT, value TEXT)").unwrap();

    parse_command(&mut processor, "SELECT * FROM empty_table").unwrap();
}

#[test]
fn test_multiple_inserts_same_table() {
    let mut processor = setup_processor();

    parse_command(&mut processor, "CREATE TABLE logs (id INT, message TEXT)").unwrap();

    for i in 0..10 {
        let cmd = format!("INSERT INTO logs VALUES ({}, 'message_{}')", i, i);
        parse_command(&mut processor, &cmd).unwrap();
    }

    parse_command(&mut processor, "SELECT * FROM logs").unwrap();
}

#[test]
fn create_insert_select_shows_the_row() {
    let mut processor = setup_processor();
    assert_eq!(run(&mut processor, "CREATE TABLE users (id INT, name STRING)"), Ok(()));
    assert_eq!(run(&mut processor, "INSERT INTO users (name) VALUES (Alice)"), Ok(()));
    assert_eq!(run(&mut processor, "SELECT * FROM users"), Ok(()));
    let lines = processor.take_output();
    assert_eq!(lines[0], "Table: users [1 rows]");
    assert!(processor.take_output().is_empty());

    let mut db = processor.into_database();
    let grid = db.select_rows(0, &all());
    assert_eq!(grid.len(), 2);
    assert_eq!(grid[0], vec!["id".to_string(), "id".to_string(), "name".to_string()]);
    assert!(is_uuid_text(&grid[1][0]));
    assert_eq!(grid[1][1], "0");
    assert_eq!(grid[1][2], "Alice");

    let drawn = pretty_table::table::generate_table_string_vec(grid, None);
    assert_eq!(&lines[1..], &drawn[..]);
    assert_eq!(drawn.len(), 5);
}

#[test]
fn fifty_rows_come_back_in_insertion_order() {
    let mut processor = setup_processor();
    assert_eq!(run(&mut processor, "CREATE TABLE a (x INT)"), Ok(()));
    for i in 0..50 {
        let value = i.to_string();
        assert_eq!(
            processor.handle_insert_statement("a", pairs(&[("x", value.as_str())])),
            Ok(())
        );
    }
    assert_eq!(processor.handle_select_statement("a", vec!["x".to_string()]), Ok(()));
    let lines = processor.take_output();
    assert_eq!(lines[0], "Table: a [50 rows]");
    assert_eq!(lines.len(), 1 + 3 + 2 * 50);

    let mut db = processor.into_database();
    let grid = db.select_rows(0, &vec!["x".to_string()]);
    assert_eq!(grid.len(), 51);
    assert_eq!(grid[0], vec!["x".to_string()]);
    for i in 0..50 {
        assert_eq!(grid[i + 1], vec![i.to_string()]);
    }
}

#[test]
fn digits_in_a_statement_are_dropped_by_the_lexer() {
    let mut processor = setup_processor();
    assert_eq!(run(&mut processor, "CREATE TABLE a (x INT)"), Ok(()));
    assert_eq!(
        run(&mut processor, "INSERT INTO a (x) VALUES (7)"),
        Err("Colums and values doesn't match".to_string())
    );
}

#[test]
fn rows_span_pages() {
    let mut db = DataBase::new(Disk::new(Vec::new())).unwrap();
    let columns: Vec<Column> = (0..10).map(|i| field(&format!("c{}", i), DataType::STRING)).collect();
    assert_eq!(db.add_table("wide".to_string(), columns, 0, None, true), Ok(()));
    // 16 + 10 * 200 = 2016 bytes a row: two rows a page.
    assert_eq!(db.tables()[0].row_size(), 2016);
    let mut processor = Processor::new(db);
    for i in 0..5 {
        let value = format!("v{}", i);
        assert_eq!(
            processor.handle_insert_statement("wide", pairs(&[("c3", value.as_str())])),
            Ok(())
        );
    }
    let mut db = processor.into_database();
    // Rows 0,1 on page 0; 2,3 on page 1; 4 on page 2, which ends after one row.
    assert_eq!(db.disk().len(), 4096 + 2 * 4096 + 2016);
    let grid = db.select_rows(0, &vec!["c3".to_string(), "c4".to_string()]);
    assert_eq!(grid[0], vec!["c3".to_string(), "c4".to_string()]);
    for i in 0..5 {
        assert_eq!(grid[i + 1], vec![format!("v{}", i), String::new()]);
    }
}

#[test]
fn a_full_table_refuses_the_next_row() {
    let mut db = DataBase::new(Disk::new(Vec::new())).unwrap();
    let columns: Vec<Column> = (0..20).map(|i| field(&format!("c{}", i), DataType::STRING)).collect();
    assert_eq!(db.add_table("big".to_string(), columns, 0, None, true), Ok(()));
    // 16 + 20 * 200 = 4016 bytes a row: one row a page, 100 rows in all.
    let mut processor = Processor::new(db);
    for _ in 0..100 {
        assert_eq!(processor.handle_insert_statement("big", pairs(&[("c0", "x")])), Ok(()));
    }
    let before = processor.database().disk().bytes().clone();
    assert_eq!(
        processor.handle_insert_statement("big", pairs(&[("c0", "x")])),
        Err("Error inserting row: Table full.".to_string())
    );
    assert_eq!(processor.database().tables()[0].total_rows(), 100);
    assert_eq!(processor.database().disk().bytes(), &before);
}

#[test]
fn a_long_string_is_cut_to_200_bytes() {
    let mut processor = setup_processor();
    assert_eq!(run(&mut processor, "CREATE TABLE t (k STRING, n INT)"), Ok(()));
    let long: String = std::iter::repeat("abcdefghij").take(25).collect();
    assert_eq!(long.len(), 250);
    assert_eq!(
        processor.handle_insert_statement("t", pairs(&[("k", long.as_str()), ("n", "123456")])),
        Ok(())
    );
    let mut db = processor.into_database();
    let grid = db.select_rows(0, &vec!["k".to_string(), "n".to_string()]);
    assert_eq!(grid[1][0], long[..200].to_string());
    assert_eq!(grid[1][1], "1234");
}

#[test]
fn select_star_shows_every_column() {
    let mut processor = setup_processor();
    assert_eq!(run(&mut processor, "CREATE TABLE t (a STRING, b INT)"), Ok(()));
    assert_eq!(run(&mut processor, "INSERT INTO t (a) VALUES (hello)"), Ok(()));
    let mut db = processor.into_database();
    let grid = db.select_rows(0, &all());
    assert_eq!(grid[0], vec!["id".to_string(), "a".to_string(), "b".to_string()]);
    assert_eq!(grid[1].len(), 3);
    assert!(is_uuid_text(&grid[1][0]));
    assert_eq!(grid[1][1], "hello");
    assert_eq!(grid[1][2], "0");
}

#[test]
fn select_of_a_missing_column_shows_no_cell() {
    let mut processor = setup_processor();
    assert_eq!(run(&mut processor, "CREATE TABLE t (a STRING)"), Ok(()));
    assert_eq!(run(&mut processor, "INSERT INTO t (a) VALUES (hello)"), Ok(()));
    assert_eq!(run(&mut processor, "SELECT nosuch FROM t"), Ok(()));
    let lines = processor.take_output();
    assert_eq!(lines[0], "Table: t [1 rows]");
    let mut db = processor.into_database();
    let grid = db.select_rows(0, &vec!["nosuch".to_string()]);
    assert_eq!(grid, vec![Vec::<String>::new(), Vec::<String>::new()]);
}

#[test]
fn select_on_an_empty_table_shows_the_header_only() {
    let mut processor = setup_processor();
    assert_eq!(run(&mut processor, "CREATE TABLE t (a STRING)"), Ok(()));
    assert_eq!(run(&mut processor, "SELECT * FROM t"), Ok(()));
    let lines = processor.take_output();
    assert_eq!(
        lines,
        vec![
            "Table: t [0 rows]".to_string(),
            "+====+===+".to_string(),
            "| id | a |".to_string(),
            "+====+===+".to_string(),
        ]
    );
    let mut db = processor.into_database();
    assert_eq!(db.select_rows(0, &all()), vec![vec!["id".to_string(), "a".to_string()]]);
}

#[test]
fn the_later_of_two_values_for_one_column_wins() {
    let mut processor = setup_processor();
    assert_eq!(run(&mut processor, "CREATE TABLE t (a STRING)"), Ok(()));
    assert_eq!(run(&mut processor, "INSERT INTO t (a, a) VALUES (first, second)"), Ok(()));
    let mut db = processor.into_database();
    let grid = db.select_rows(0, &vec!["a".to_string()]);
    assert_eq!(grid[1], vec!["second".to_string()]);
}

#[test]
fn match_columns_fills_defaults_in_schema_order() {
    let table = Table::new(
        "t".to_string(),
        vec![field("s", DataType::STRING), field("n", DataType::INT), field("m", DataType::INT)],
        0,
        4096,
    );
    assert_eq!(
        table.match_columns(pairs(&[("m", "9"), ("id", "x")])),
        vec!["".to_string(), "0".to_string(), "9".to_string()]
    );
}

#[test]
fn build_row_lays_out_the_slots() {
    let table = Table::new(
        "t".to_string(),
        vec![field("n", DataType::INT), field("s", DataType::STRING)],
        0,
        4096,
    );
    let id: Vec<u8> = (1..=16).collect();
    let row = table.build_row(&id, &vec!["12345".to_string(), "hé".to_string()]);
    assert_eq!(row.len(), 220);
    assert_eq!(&row[..16], &id[..]);
    assert_eq!(&row[16..20], b"1234");
    assert_eq!(&row[20..23], "hé".as_bytes());
    assert!(row[23..].iter().all(|b| *b == 0));

    let short = table.build_row(&id, &vec!["7".to_string()]);
    assert_eq!(&short[16..20], &[b'7', 0, 0, 0]);
    assert!(short[20..].iter().all(|b| *b == 0));
}

#[test]
fn construct_row_mints_a_fresh_version_7_identifier() {
    let table = Table::new("t".to_string(), vec![field("n", DataType::INT)], 0, 4096);
    let first = table.construct_row(vec!["1".to_string()]);
    let second = table.construct_row(vec!["1".to_string()]);
    assert_eq!(first.len(), 20);
    assert_eq!(first[6] >> 4, 7);
    assert_eq!(second[6] >> 4, 7);
    assert_eq!(first[8] >> 6, 2);
    assert_eq!(second[8] >> 6, 2);
    assert_ne!(first[..16], second[..16]);
    assert_eq!(first[16..], second[16..]);
}

#[test]
fn the_identifier_is_shown_hyphenated() {
    let id = Column::new("id".to_string(), 16, ColumnType::ID, DataType::UUID);
    let bytes = [
        0xa1, 0xa2, 0xa3, 0xa4, 0xb1, 0xb2, 0xc1, 0xc2, 0xd1, 0xd2, 0xd3, 0xd4, 0xd5, 0xd6, 0x07,
        0x00,
    ];
    assert_eq!(
        minidb::table::decode_field(&id, &bytes),
        "a1a2a3a4-b1b2-c1c2-d1d2-d3d4d5d60700"
    );
    assert_eq!(minidb::table::decode_field(&id, &bytes[..15]), "");
}

#[test]
fn a_field_is_cut_at_its_trailing_zeros_and_read_lossily() {
    let column = field("s", DataType::STRING);
    assert_eq!(minidb::table::decode_field(&column, b"ab\0c\0\0"), "ab\0c");
    assert_eq!(minidb::table::decode_field(&column, &[0, 0, 0]), "");
    assert_eq!(minidb::table::decode_field(&column, &[b'a', 0xff, b'b', 0]), "a\u{fffd}b");
    assert_eq!(minidb::table::trimmed_len(&[1, 0, 2, 0, 0]), 3);
}

#[test]
fn table_new_keeps_a_leading_identifier() {
    let id = Column::new("key".to_string(), 16, ColumnType::ID, DataType::UUID);
    let columns = vec![id, field("n", DataType::INT)];
    assert!(Table::accepts(&columns, 3, 8192));
    let table = Table::new("t".to_string(), columns, 3, 8192);
    assert_eq!(table.columns().len(), 2);
    assert_eq!(table.columns()[0].name, "key");
    assert_eq!(table.total_rows(), 3);
    assert_eq!(table.start_offset(), 8192);
    assert_eq!(table.row_size(), 20);
}

#[test]
fn table_accepts_only_what_makes_a_table() {
    let id = || Column::new("id".to_string(), 16, ColumnType::ID, DataType::UUID);
    assert!(Table::accepts(&vec![], 0, 4096));
    // Rows inside the header.
    assert!(!Table::accepts(&vec![], 0, 4095));
    assert!(Table::accepts(&vec![field("a", DataType::INT)], 20400, 4096));
    // One row too many for 100 pages of 204 rows.
    assert!(!Table::accepts(&vec![field("a", DataType::INT)], 20401, 4096));
    // The identifier is not first.
    assert!(!Table::accepts(&vec![field("a", DataType::INT), id()], 0, 4096));
    // Two identifiers.
    assert!(!Table::accepts(&vec![id(), id()], 0, 4096));
    // A width that the type does not fix.
    assert!(!Table::accepts(
        &vec![Column::new("a".to_string(), 8, ColumnType::FIELD, DataType::INT)],
        0,
        4096
    ));
    // A row wider than a page: 16 + 21 * 200.
    let wide: Vec<Column> = (0..21).map(|_| field("s", DataType::STRING)).collect();
    assert!(!Table::accepts(&wide, 0, 4096));
    // Too many columns.
    let many: Vec<Column> = (0..255).map(|_| field("n", DataType::INT)).collect();
    assert!(!Table::accepts(&many, 0, 4096));
    let most: Vec<Column> = (0..254).map(|_| field("n", DataType::INT)).collect();
    assert!(Table::accepts(&most, 0, 4096));
    // A data region that cannot be addressed.
    assert!(!Table::accepts(&vec![], 0, usize::MAX - 1000));
}

#[test]
fn page_rows_go_to_consecutive_slots() {
    let mut page = Page::new(3);
    assert_eq!(page.current_row(), 0);
    assert_eq!(page.row_size(), 3);
    assert_eq!(page.write_row(&[1, 2, 3]), Ok(()));
    assert_eq!(page.write_row(&[4, 5, 6]), Ok(()));
    assert_eq!(page.current_row(), 2);
    assert_eq!(page.read_row(0), &[1, 2, 3]);
    assert_eq!(page.read_row(1), &[4, 5, 6]);
    assert_eq!(page.read_row(2), &[0, 0, 0]);
    assert_eq!(page.used(), &[1, 2, 3, 4, 5, 6]);
    page.fill(&[9, 9, 9, 9, 9, 9, 9]);
    assert_eq!(page.current_row(), 2);
    assert_eq!(page.read_row(2), &[9, 0, 0]);
}

#[test]
fn get_page_reads_rows_from_the_backing_file() {
    let mut image = vec![0u8; 4096];
    image.extend_from_slice(&[7u8; 20]);
    image.extend_from_slice(&[8u8; 20]);
    let disk = Disk::new(image);
    let mut table = Table::new("t".to_string(), vec![field("n", DataType::INT)], 2, 4096);
    let grid = table.select_rows(&disk, &vec!["n".to_string()]);
    assert_eq!(grid[1], vec!["\u{7}\u{7}\u{7}\u{7}".to_string()]);
    assert_eq!(grid[2], vec!["\u{8}\u{8}\u{8}\u{8}".to_string()]);
    assert_eq!(table.check_insert(&disk), Ok(()));
}

#[test]
fn a_page_that_reads_as_full_refuses_a_row() {
    // The file goes on for a whole page after the table's start, so the
    // page reads as full though the table counts one row.
    let disk = Disk::new(vec![1u8; 4096 + 4096]);
    let mut table = Table::new("t".to_string(), vec![field("n", DataType::INT)], 1, 4096);
    assert_eq!(table.check_insert(&disk), Err("Page full.".to_string()));
}
