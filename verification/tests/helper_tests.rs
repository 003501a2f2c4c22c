use minidb::database::DataBase;
use minidb::disk::Disk;
use minidb::lexer::{classify_word, KeyWords, Lexer, Token};
use minidb::meta::data_type_tag;
use minidb::parser::Parser;
use minidb::processor::Processor;
use minidb::render::title;
use minidb::rows::{lookup_value, push_slot};
use minidb::table::{
    data_type_width, decode_row, header_row, Column, ColumnType, DataType, Table,
};
use minidb::text::{chars_of, contains_text, push_decimal, string_of};

fn tokens_of(line: &str) -> Vec<Token> {
    let mut lexer = Lexer::new(line);
    lexer.tokenize();
    let mut tokens = Vec::new();
    loop {
        let token = lexer.consume();
        let done = matches!(token, Token::EOL);
        tokens.push(token);
        if done {
            return tokens;
        }
    }
}

fn shown(tokens: &[Token]) -> Vec<String> {
    tokens.iter().map(|t| format!("{:?}", t)).collect()
}

fn field(name: &str, data_type: DataType) -> Column {
    Column::new(name.to_string(), data_type_width(data_type), ColumnType::FIELD, data_type)
}

#[test]
fn consume_past_the_end_gives_eol() {
    let mut lexer = Lexer::new("a");
    assert!(matches!(lexer.consume(), Token::EOL));
    lexer.tokenize();
    assert!(matches!(lexer.consume(), Token::Identifier(s) if s == "a"));
    assert!(matches!(lexer.consume(), Token::EOL));
    assert!(matches!(lexer.consume(), Token::EOL));
    assert!(matches!(lexer.consume(), Token::EOL));
}

#[test]
fn tokenize_twice_appends_the_line_again() {
    let mut lexer = Lexer::new("x,");
    lexer.tokenize();
    lexer.tokenize();
    let mut seen = Vec::new();
    for _ in 0..6 {
        seen.push(format!("{:?}", lexer.consume()));
    }
    assert_eq!(
        seen,
        vec![
            "Identifier(\"x\")",
            "Keyword(COMMA)",
            "EOL",
            "Identifier(\"x\")",
            "Keyword(COMMA)",
            "EOL"
        ]
    );
}

#[test]
fn every_keyword_is_known_in_any_case() {
    let tokens = tokens_of("Create select INSERT update from Into vAlUeS table int String");
    assert_eq!(
        shown(&tokens),
        vec![
            "Keyword(CREATE)",
            "Keyword(SELECT)",
            "Keyword(INSERT)",
            "Keyword(UPDATE)",
            "Keyword(FROM)",
            "Keyword(INTO)",
            "Keyword(VALUES)",
            "Keyword(TABLE)",
            "Keyword(INT)",
            "Keyword(STRING)",
            "EOL"
        ]
    );
}

#[test]
fn other_characters_are_skipped() {
    let tokens = tokens_of("a;b 'c' d-e .exit x_y");
    assert_eq!(
        shown(&tokens),
        vec![
            "Identifier(\"a\")",
            "Identifier(\"b\")",
            "Identifier(\"c\")",
            "Identifier(\"d\")",
            "Identifier(\"e\")",
            "Identifier(\"exit\")",
            "Identifier(\"x\")",
            "Identifier(\"y\")",
            "EOL"
        ]
    );
}

#[test]
fn words_and_spaces_follow_unicode() {
    // A no-break space separates; letters and digits of any script make words.
    let tokens = tokens_of("größe\u{a0}名前2 ٣x émile");
    assert_eq!(
        shown(&tokens),
        vec![
            "Identifier(\"größe\")",
            "Identifier(\"名前2\")",
            "Identifier(\"x\")",
            "Identifier(\"émile\")",
            "EOL"
        ]
    );
    // The long s has `S` for its upper case, so this spells a keyword.
    assert_eq!(shown(&tokens_of("\u{17f}elect")), vec!["Keyword(SELECT)", "EOL"]);
}

#[test]
fn digits_after_a_letter_stay_in_the_word() {
    let tokens = tokens_of("7a7 77 a7b7");
    assert_eq!(
        shown(&tokens),
        vec!["Identifier(\"a7\")", "Identifier(\"a7b7\")", "EOL"]
    );
}

#[test]
fn classify_word_goes_by_the_upper_case_form() {
    assert!(matches!(classify_word("from".to_string(), "FROM"), Token::Keyword(KeyWords::FROM)));
    assert!(matches!(classify_word("from".to_string(), "from"), Token::Identifier(s) if s == "from"));
    assert!(matches!(classify_word("x".to_string(), "TABLE"), Token::Keyword(KeyWords::TABLE)));
    assert!(matches!(classify_word("Name".to_string(), "NAME"), Token::Identifier(s) if s == "Name"));
}

#[test]
fn text_helpers() {
    let chars = chars_of("héllo");
    assert_eq!(chars, vec!['h', 'é', 'l', 'l', 'o']);
    assert_eq!(string_of(&chars, 1, 4), "éll");
    assert_eq!(string_of(&chars, 2, 2), "");
    let texts = vec!["a".to_string(), "*".to_string()];
    assert!(contains_text(&texts, "*"));
    assert!(contains_text(&texts, "a"));
    assert!(!contains_text(&texts, "b"));
    for (n, text) in [(0usize, "0"), (7, "7"), (10, "10"), (409, "409"), (25600, "25600")] {
        let mut out = "n=".to_string();
        push_decimal(&mut out, n);
        assert_eq!(out, format!("n={}", text));
    }
    assert_eq!(title("users", 12), "Table: users [12 rows]");
    assert_eq!(title("", 0), "Table:  [0 rows]");
}

#[test]
fn slots_and_lookups() {
    let mut out = vec![9u8];
    push_slot(&mut out, &[1, 2, 3], 2);
    push_slot(&mut out, &[4], 3);
    push_slot(&mut out, &[], 1);
    push_slot(&mut out, &[5, 6], 0);
    assert_eq!(out, vec![9, 1, 2, 4, 0, 0, 0]);

    let pairs = vec![
        ("a".to_string(), "1".to_string()),
        ("b".to_string(), "2".to_string()),
        ("a".to_string(), "3".to_string()),
    ];
    assert_eq!(lookup_value(&pairs, "a"), Some("3".to_string()));
    assert_eq!(lookup_value(&pairs, "b"), Some("2".to_string()));
    assert_eq!(lookup_value(&pairs, "c"), None);
}

#[test]
fn widths_and_tags_of_the_types() {
    assert_eq!(data_type_width(DataType::UUID), 16);
    assert_eq!(data_type_width(DataType::INT), 4);
    assert_eq!(data_type_width(DataType::STRING), 200);
    assert_eq!(data_type_tag(DataType::UUID), 0);
    assert_eq!(data_type_tag(DataType::STRING), 1);
    assert_eq!(data_type_tag(DataType::INT), 2);
}

#[test]
fn cells_are_read_from_their_slots() {
    let table = Table::new(
        "t".to_string(),
        vec![field("n", DataType::INT), field("s", DataType::STRING)],
        0,
        4096,
    );
    let id: Vec<u8> = (0x10..0x20).collect();
    let row = table.build_row(&id, &vec!["42".to_string(), "text".to_string()]);
    let pick = |names: &[&str]| -> Vec<String> { names.iter().map(|n| n.to_string()).collect() };
    assert_eq!(
        decode_row(table.columns(), &row, &pick(&["*"])),
        vec![
            "10111213-1415-1617-1819-1a1b1c1d1e1f".to_string(),
            "42".to_string(),
            "text".to_string()
        ]
    );
    assert_eq!(decode_row(table.columns(), &row, &pick(&["s", "n"])), pick(&["42", "text"]));
    assert_eq!(decode_row(table.columns(), &row, &pick(&["s"])), pick(&["text"]));
    assert_eq!(header_row(table.columns(), &pick(&["s", "id"])), pick(&["id", "s"]));
    assert_eq!(header_row(table.columns(), &pick(&["x", "*"])), pick(&["id", "n", "s"]));
    assert_eq!(header_row(table.columns(), &pick(&[])), Vec::<String>::new());
}

#[test]
fn pages_are_loaded_and_flushed_one_by_one() {
    let mut disk = Disk::new(Vec::new());
    let mut table = Table::new("t".to_string(), vec![field("n", DataType::INT)], 0, 4096);
    assert_eq!(table.row_size(), 20);
    let rows: Vec<Vec<u8>> = (0..205u8).map(|i| vec![i; 20]).collect();
    let values: Vec<&[u8]> = rows.iter().map(|r| r.as_slice()).collect();
    assert_eq!(table.insert_rows(&mut disk, values), Ok(()));
    assert_eq!(table.total_rows(), 205);
    // 204 rows fill the first page; the next one starts the second page.
    assert_eq!(disk.len(), 4096 + 4096 + 20);
    assert_eq!(&disk.bytes()[4096..4116], &[0u8; 20][..]);
    assert_eq!(&disk.bytes()[4096 + 203 * 20..4096 + 204 * 20], &[203u8; 20][..]);
    assert_eq!(&disk.bytes()[4096 + 4080..8192], &[0u8; 16][..]);
    assert_eq!(&disk.bytes()[8192..8212], &[204u8; 20][..]);

    // A table over the same file reads the rows back through its own pages.
    let mut again = Table::new("t".to_string(), vec![field("n", DataType::INT)], 205, 4096);
    again.get_page(&disk, 1);
    again.get_page(&disk, 1);
    again.flush_page_to_disk(&mut disk, 0);
    again.flush_page_to_disk(&mut disk, 1);
    assert_eq!(disk.len(), 4096 + 4096 + 20);
    let grid = again.select_rows(&disk, &vec!["nosuch".to_string()]);
    assert_eq!(grid.len(), 206);
    assert_eq!(again.check_insert(&disk), Ok(()));
}

#[test]
fn queries_through_the_catalog() {
    let mut db = DataBase::new(Disk::new(Vec::new())).unwrap();
    assert_eq!(db.add_table("t".to_string(), vec![field("s", DataType::STRING)], 0, None, true), Ok(()));
    assert_eq!(db.check_insert(0), Ok(()));
    let row = db.table(0).build_row(&[7u8; 16], &vec!["hi".to_string()]);
    assert_eq!(db.insert_rows(0, vec![row.as_slice(), row.as_slice()]), Ok(()));
    assert_eq!(db.table(0).total_rows(), 2);
    let lines = db.print_table(0, vec!["s".to_string()]);
    assert_eq!(
        lines,
        vec![
            "Table: t [2 rows]".to_string(),
            "+====+".to_string(),
            "| s  |".to_string(),
            "+====+".to_string(),
            "| hi |".to_string(),
            "+----+".to_string(),
            "| hi |".to_string(),
            "+----+".to_string(),
        ]
    );
}

#[test]
fn productions_read_from_the_token_after_their_keyword() {
    let mut processor = Processor::new(DataBase::new(Disk::new(Vec::new())).unwrap());
    {
        let mut lexer = Lexer::new("TABLE t (a STRING, b INT)");
        lexer.tokenize();
        let mut parser = Parser::new(lexer, &mut processor);
        assert_eq!(parser.parse_create(), Ok(()));
    }
    {
        let mut lexer = Lexer::new("INTO t (b, a) VALUES (x, y)");
        lexer.tokenize();
        let mut parser = Parser::new(lexer, &mut processor);
        assert_eq!(parser.parse_insert(), Ok(()));
    }
    {
        let mut lexer = Lexer::new("a, b, FROM t");
        lexer.tokenize();
        let mut parser = Parser::new(lexer, &mut processor);
        assert_eq!(parser.parse_select(), Ok(()));
        assert_eq!(parser.parse_update(), Ok(()));
    }
    {
        let mut lexer = Lexer::new("SELECT b FROM t");
        lexer.tokenize();
        let mut parser = Parser::new(lexer, &mut processor);
        assert_eq!(parser.parse_command(), Ok(()));
        assert_eq!(parser.parse_command(), Err("Unexpected token".to_string()));
    }
    let lines = processor.take_output();
    assert_eq!(lines[0], "Table: t [1 rows]");
    assert_eq!(lines[2], "| a | b |");
    assert_eq!(lines[4], "| y | x |");
    assert_eq!(lines[6], "Table: t [1 rows]");
    assert_eq!(lines[8], "| b |");
    assert_eq!(lines[10], "| x |");
}
