use minidb::database::DataBase;
use minidb::disk::Disk;
use minidb::lexer::Lexer;
use minidb::parser::{execute_line, Parser};
use minidb::processor::Processor;

fn empty_processor() -> Processor {
    Processor::new(DataBase::new(Disk::new(Vec::new())).unwrap())
}

fn run(processor: &mut Processor, sql: &str) -> Result<(), String> {
    let lexer = Lexer::new(sql);
    let mut parser = Parser::new(lexer, processor);
    parser.parse()
}

#[test]
fn test_insert_missing_into() {
    let sql = "INSERT users (a) VALUES (b)";
    let mut lexer = Lexer::new(sql);
    lexer.tokenize();
    // The production starts at the token after its keyword.
    lexer.consume();
    let mut processor = empty_processor();
    let mut parser = Parser::new(lexer, &mut processor);

    let res = parser.parse_insert();
    assert_eq!(res, Err("Expected INTO keyword".to_string()));
}

#[test]
fn test_insert_missing_table_name() {
    let sql = "INSERT INTO (a) VALUES (b)";
    let mut lexer = Lexer::new(sql);
    lexer.tokenize();
    // The production starts at the token after its keyword.
    lexer.consume();
    let mut processor = empty_processor();
    let mut parser = Parser::new(lexer, &mut processor);

    let res = parser.parse_insert();
    assert_eq!(res, Err("Expected table name".to_string()));
}

#[test]
fn test_insert_missing_columns_paren() {
    let sql = "INSERT INTO users a VALUES (b)";
    let mut lexer = Lexer::new(sql);
    lexer.tokenize();
    // The production starts at the token after its keyword.
    lexer.consume();
    let mut processor = empty_processor();
    let mut parser = Parser::new(lexer, &mut processor);

    let res = parser.parse_insert();
    assert_eq!(res, Err("Expected ( for Columns specifier".to_string()));
}

#[test]
fn test_insert_invalid_columns_separator() {
    let sql = "INSERT INTO users (a b) VALUES (c d)";
    let mut lexer = Lexer::new(sql);
    lexer.tokenize();
    // The production starts at the token after its keyword.
    lexer.consume();
    let mut processor = empty_processor();
    let mut parser = Parser::new(lexer, &mut processor);

    let res = parser.parse_insert();
    assert_eq!(res, Err("Error parsing Select Statement".to_string()));
}

#[test]
fn test_insert_missing_values_keyword() {
    let sql = "INSERT INTO users (a,b) VALUE (c,d)";
    let mut lexer = Lexer::new(sql);
    lexer.tokenize();
    // The production starts at the token after its keyword.
    lexer.consume();
    let mut processor = empty_processor();
    let mut parser = Parser::new(lexer, &mut processor);

    let res = parser.parse_insert();
    assert_eq!(res, Err("Expected Values for Inserting values".to_string()));
}

#[test]
fn test_insert_missing_values_paren() {
    let sql = "INSERT INTO users (a,b) VALUES c,d";
    let mut lexer = Lexer::new(sql);
    lexer.tokenize();
    // The production starts at the token after its keyword.
    lexer.consume();
    let mut processor = empty_processor();
    let mut parser = Parser::new(lexer, &mut processor);

    let res = parser.parse_insert();
    assert_eq!(res, Err("Expected ( for Columns specifier".to_string()));
}

#[test]
fn test_insert_mismatched_counts() {
    let sql = "INSERT INTO users (a,b) VALUES (c)";
    let mut lexer = Lexer::new(sql);
    lexer.tokenize();
    // The production starts at the token after its keyword.
    lexer.consume();
    let mut processor = empty_processor();
    let mut parser = Parser::new(lexer, &mut processor);

    let res = parser.parse_insert();
    assert_eq!(res, Err("Colums and values doesn't match".to_string()));
}

#[test]
fn parse_insert_reads_from_the_token_after_the_keyword() {
    let mut lexer = Lexer::new("INTO users (a,b) VALUES (c)");
    lexer.tokenize();
    let mut processor = empty_processor();
    let mut parser = Parser::new(lexer, &mut processor);
    assert_eq!(
        parser.parse_insert(),
        Err("Colums and values doesn't match".to_string())
    );
}

#[test]
fn mismatched_insert_changes_nothing() {
    let mut processor = empty_processor();
    assert_eq!(run(&mut processor, "CREATE TABLE users (a STRING, b STRING)"), Ok(()));
    let before = processor.database().disk().bytes().clone();
    assert_eq!(
        run(&mut processor, "INSERT INTO users (a,b) VALUES (c)"),
        Err("Colums and values doesn't match".to_string())
    );
    assert_eq!(processor.database().disk().bytes(), &before);
    assert_eq!(processor.database().tables()[0].total_rows(), 0);
    assert!(processor.take_output().is_empty());
}

#[test]
fn select_from_unknown_table_is_an_error_and_the_session_goes_on() {
    let mut processor = empty_processor();
    assert_eq!(
        run(&mut processor, "SELECT * FROM nosuch"),
        Err("Table not found".to_string())
    );
    assert_eq!(run(&mut processor, "CREATE TABLE t (k STRING)"), Ok(()));
    assert_eq!(run(&mut processor, "SELECT * FROM t"), Ok(()));
}

#[test]
fn insert_into_unknown_table_is_an_error() {
    let mut processor = empty_processor();
    assert_eq!(
        run(&mut processor, "INSERT INTO nosuch (a) VALUES (b)"),
        Err("Table not found".to_string())
    );
}

#[test]
fn select_errors() {
    let mut processor = empty_processor();
    assert_eq!(
        run(&mut processor, "SELECT FROM t"),
        Err("Columns not provided.".to_string())
    );
    assert_eq!(
        run(&mut processor, "SELECT a b FROM t"),
        Err("Error parsing Select Statement".to_string())
    );
    assert_eq!(
        run(&mut processor, "SELECT a FROM"),
        Err("Expected table name".to_string())
    );
    assert_eq!(run(&mut processor, "SELECT"), Err("Expected table name".to_string()));
}

#[test]
fn create_errors() {
    let mut processor = empty_processor();
    assert_eq!(
        run(&mut processor, "CREATE users (a INT)"),
        Err("Expected TABLE keyword".to_string())
    );
    assert_eq!(
        run(&mut processor, "CREATE TABLE (a INT)"),
        Err("Expected table name".to_string())
    );
    assert_eq!(
        run(&mut processor, "CREATE TABLE users a INT"),
        Err("Expected ( for Columns specifier".to_string())
    );
    assert_eq!(
        run(&mut processor, "CREATE TABLE users (INT)"),
        Err("Expected column name".to_string())
    );
    assert_eq!(
        run(&mut processor, "CREATE TABLE users (a TEXT)"),
        Err("Expected data type".to_string())
    );
    assert_eq!(
        run(&mut processor, "CREATE TABLE users (a INT b STRING)"),
        Err("Error parsing Columns".to_string())
    );
    assert_eq!(processor.database().tables().len(), 0);
}

#[test]
fn command_errors() {
    let mut processor = empty_processor();
    assert_eq!(run(&mut processor, "FROM users"), Err("Unsupported command".to_string()));
    assert_eq!(run(&mut processor, "users"), Err("Unexpected token".to_string()));
    assert_eq!(run(&mut processor, ""), Err("Unexpected token".to_string()));
}

#[test]
fn update_is_accepted_and_does_nothing() {
    let mut processor = empty_processor();
    assert_eq!(run(&mut processor, "UPDATE anything at all"), Ok(()));
    assert_eq!(processor.database().tables().len(), 0);
    assert!(processor.database().disk().bytes().is_empty());
}

#[test]
fn create_puts_the_identifier_before_the_declared_columns() {
    let mut processor = empty_processor();
    assert_eq!(run(&mut processor, "create table People (id int, Name string)"), Ok(()));
    let table = &processor.database().tables()[0];
    assert_eq!(table.name(), "People");
    let names: Vec<String> = table.columns().iter().map(|c| c.name.clone()).collect();
    assert_eq!(names, vec!["id".to_string(), "id".to_string(), "Name".to_string()]);
    let sizes: Vec<usize> = table.columns().iter().map(|c| c.size).collect();
    assert_eq!(sizes, vec![16, 4, 200]);
}

#[test]
fn execute_line_runs_one_statement() {
    let mut processor = empty_processor();
    assert_eq!(execute_line(&mut processor, "CREATE TABLE t (k STRING)"), Ok(()));
    assert_eq!(execute_line(&mut processor, "INSERT INTO t (k) VALUES (hello)"), Ok(()));
    assert_eq!(execute_line(&mut processor, "SELECT k FROM t"), Ok(()));
    assert_eq!(
        execute_line(&mut processor, "SELECT k FROM u"),
        Err("Table not found".to_string())
    );
    assert_eq!(
        processor.take_output(),
        vec![
            "Table: t [1 rows]".to_string(),
            "+=======+".to_string(),
            "|   k   |".to_string(),
            "+=======+".to_string(),
            "| hello |".to_string(),
            "+-------+".to_string(),
        ]
    );
}

#[test]
fn a_row_is_there_after_the_file_is_opened_again() {
    let mut processor = empty_processor();
    assert_eq!(execute_line(&mut processor, "CREATE TABLE t (k STRING)"), Ok(()));
    assert_eq!(execute_line(&mut processor, "INSERT INTO t (k) VALUES (hello)"), Ok(()));
    assert_eq!(execute_line(&mut processor, "SELECT * FROM t"), Ok(()));
    let first = processor.take_output();
    let image = processor.into_database().into_disk().bytes().clone();

    let mut again = Processor::new(DataBase::new(Disk::new(image)).unwrap());
    assert_eq!(execute_line(&mut again, "SELECT * FROM t"), Ok(()));
    let second = again.take_output();
    assert_eq!(second[0], "Table: t [1 rows]");
    assert_eq!(second.len(), 6);
    assert!(second[4].ends_with("| hello |"));
    assert_eq!(second, first);
    assert_eq!(execute_line(&mut again, "INSERT INTO t (k) VALUES (world)"), Ok(()));
    let image = again.into_database().into_disk().bytes().clone();
    let mut third = DataBase::new(Disk::new(image)).unwrap();
    let grid = third.select_rows(0, &vec!["k".to_string()]);
    assert_eq!(grid, vec![vec!["k".to_string()], vec!["hello".to_string()], vec!["world".to_string()]]);
}
