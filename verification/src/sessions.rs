//! Sessions on given lines, followed from the characters to the output and
//! to the backing file.
use vstd::prelude::*;
use vstd::utf8::{encode_utf8, is_ascii_chars, is_ascii_chars_encode_utf8};
use crate::lexer::{
    lemma_keywords, lemma_lex_word, lemma_other_word_is_identifier,
    lemma_short_word_is_identifier, lex, lex_from, KeyWords, TokenView,
};
use crate::parser::{
    column_definitions, declared_column, name_list, rest_from, statement, token_at, zipped,
};
use crate::database::{
    find, lemma_fields_get_id, lemma_find, lemma_with_table_holds, lemma_with_table_wf, new_table,
    DataBaseView,
};
use crate::ids::{hyphenated, version_7};
use crate::insertion::{lemma_insert_then_select, lemma_new_table_settled, lemma_settled_ignores_disk};
use crate::parser::ran;
use crate::processor::{ProcessorView, StatementView};
use crate::query::{lemma_select_all, lemma_select_empty};
use crate::render::{table_rendering, title_line};
use crate::reopen::{
    closed, lemma_create_insert_reopen, lemma_flushed_is_saved, names_storable, storable,
};
use crate::roundtrip::{
    fits_slot, id_then_fields, lemma_default_reads_back, lemma_insert_shows,
    lemma_insert_shows_values,
};
use crate::rows::{lookup, matched_values, row_bytes};
use crate::table::{
    acceptable, header_cells, id_column, lemma_row_width_step, lemma_rows_per_page, row_cells,
    row_width, valid_schema, with_id, ColumnType, ColumnView, DataType, TableView,
};
use crate::text::upper_text;

verus! {

/// The tokens of `SELECT * FROM users`.
pub proof fn lemma_lex_select_all()
    ensures
        lex("SELECT * FROM users"@) == seq![
            TokenView::Keyword(KeyWords::SELECT),
            TokenView::Identifier("*"@),
            TokenView::Keyword(KeyWords::FROM),
            TokenView::Identifier("users"@),
            TokenView::EOL,
        ],
{
    reveal_strlit("SELECT * FROM users");
    reveal_strlit("SELECT");
    reveal_strlit("FROM");
    reveal_strlit("users");
    reveal_strlit("*");
    let s = "SELECT * FROM users"@;
    assert(s.len() == 19);
    assert(s[0] == 'S' && s[1] == 'E' && s[2] == 'L' && s[3] == 'E' && s[4] == 'C' && s[5] == 'T'
        && s[6] == ' ' && s[7] == '*' && s[8] == ' ' && s[9] == 'F' && s[10] == 'R' && s[11]
        == 'O' && s[12] == 'M' && s[13] == ' ' && s[14] == 'u' && s[15] == 's' && s[16] == 'e'
        && s[17] == 'r' && s[18] == 's');
    assert(lex_from(s, 19) == seq![TokenView::EOL]);
    let users = s.subrange(14, 19);
    assert(users =~= "users"@);
    lemma_lex_word(s, 14, 19);
    assert(is_ascii_chars(users));
    assert(upper_text(users).len() == 5 && upper_text(users)[0] == 'U');
    lemma_other_word_is_identifier(users, upper_text(users));
    assert(lex_from(s, 13) == lex_from(s, 14));
    let from = s.subrange(9, 13);
    lemma_lex_word(s, 9, 13);
    assert(is_ascii_chars(from));
    assert(upper_text(from) =~= "FROM"@);
    lemma_keywords(from);
    assert(lex_from(s, 8) == lex_from(s, 9));
    assert(lex_from(s, 7) == seq![TokenView::Identifier("*"@)] + lex_from(s, 8));
    assert(lex_from(s, 6) == lex_from(s, 7));
    let select = s.subrange(0, 6);
    lemma_lex_word(s, 0, 6);
    assert(is_ascii_chars(select));
    assert(upper_text(select) =~= "SELECT"@);
    lemma_keywords(select);
    assert(lex(s) =~= seq![
        TokenView::Keyword(KeyWords::SELECT),
        TokenView::Identifier("*"@),
        TokenView::Keyword(KeyWords::FROM),
        TokenView::Identifier("users"@),
        TokenView::EOL,
    ]);
}

/// The tokens of `CREATE TABLE users (id INT, name STRING)`.
pub proof fn lemma_lex_create_users()
    ensures
        lex("CREATE TABLE users (id INT, name STRING)"@) == seq![
            TokenView::Keyword(KeyWords::CREATE),
            TokenView::Keyword(KeyWords::TABLE),
            TokenView::Identifier("users"@),
            TokenView::Keyword(KeyWords::LEFTPAREN),
            TokenView::Identifier("id"@),
            TokenView::Keyword(KeyWords::INT),
            TokenView::Keyword(KeyWords::COMMA),
            TokenView::Identifier("name"@),
            TokenView::Keyword(KeyWords::STRING),
            TokenView::Keyword(KeyWords::RIGHTPAREN),
            TokenView::EOL,
        ],
{
    reveal_strlit("CREATE TABLE users (id INT, name STRING)");
    reveal_strlit("CREATE");
    reveal_strlit("TABLE");
    reveal_strlit("users");
    reveal_strlit("id");
    reveal_strlit("INT");
    reveal_strlit("name");
    reveal_strlit("STRING");
    let s = "CREATE TABLE users (id INT, name STRING)"@;
    assert(s.len() == 40);
    assert(s[0] == 'C' && s[1] == 'R' && s[2] == 'E' && s[3] == 'A' && s[4] == 'T' && s[5] == 'E'
        && s[6] == ' ' && s[7] == 'T' && s[8] == 'A' && s[9] == 'B' && s[10] == 'L' && s[11]
        == 'E' && s[12] == ' ');
    assert(s[13] == 'u' && s[14] == 's' && s[15] == 'e' && s[16] == 'r' && s[17] == 's' && s[18]
        == ' ' && s[19] == '(' && s[20] == 'i' && s[21] == 'd' && s[22] == ' ' && s[23] == 'I'
        && s[24] == 'N' && s[25] == 'T' && s[26] == ',');
    assert(s[27] == ' ' && s[28] == 'n' && s[29] == 'a' && s[30] == 'm' && s[31] == 'e' && s[32]
        == ' ' && s[33] == 'S' && s[34] == 'T' && s[35] == 'R' && s[36] == 'I' && s[37] == 'N'
        && s[38] == 'G' && s[39] == ')');
    assert(lex_from(s, 40) == seq![TokenView::EOL]);
    assert(lex_from(s, 39) == seq![TokenView::Keyword(KeyWords::RIGHTPAREN)] + lex_from(s, 40));
    let string = s.subrange(33, 39);
    lemma_lex_word(s, 33, 39);
    assert(is_ascii_chars(string));
    assert(upper_text(string) =~= "STRING"@);
    lemma_keywords(string);
    assert(lex_from(s, 32) == lex_from(s, 33));
    let name = s.subrange(28, 32);
    assert(name =~= "name"@);
    lemma_lex_word(s, 28, 32);
    assert(is_ascii_chars(name));
    assert(upper_text(name).len() == 4 && upper_text(name)[0] == 'N');
    lemma_other_word_is_identifier(name, upper_text(name));
    assert(lex_from(s, 27) == lex_from(s, 28));
    assert(lex_from(s, 26) == seq![TokenView::Keyword(KeyWords::COMMA)] + lex_from(s, 27));
    let int_word = s.subrange(23, 26);
    lemma_lex_word(s, 23, 26);
    assert(is_ascii_chars(int_word));
    assert(upper_text(int_word) =~= "INT"@);
    lemma_keywords(int_word);
    assert(lex_from(s, 22) == lex_from(s, 23));
    let id = s.subrange(20, 22);
    assert(id =~= "id"@);
    lemma_lex_word(s, 20, 22);
    assert(is_ascii_chars(id));
    assert(upper_text(id).len() == 2);
    lemma_short_word_is_identifier(id, upper_text(id));
    assert(lex_from(s, 19) == seq![TokenView::Keyword(KeyWords::LEFTPAREN)] + lex_from(s, 20));
    assert(lex_from(s, 18) == lex_from(s, 19));
    let users = s.subrange(13, 18);
    assert(users =~= "users"@);
    lemma_lex_word(s, 13, 18);
    assert(is_ascii_chars(users));
    assert(upper_text(users).len() == 5 && upper_text(users)[0] == 'U');
    lemma_other_word_is_identifier(users, upper_text(users));
    assert(lex_from(s, 12) == lex_from(s, 13));
    let table = s.subrange(7, 12);
    lemma_lex_word(s, 7, 12);
    assert(is_ascii_chars(table));
    assert(upper_text(table) =~= "TABLE"@);
    lemma_keywords(table);
    assert(lex_from(s, 6) == lex_from(s, 7));
    let create = s.subrange(0, 6);
    lemma_lex_word(s, 0, 6);
    assert(is_ascii_chars(create));
    assert(upper_text(create) =~= "CREATE"@);
    lemma_keywords(create);
    assert(lex(s) =~= seq![
        TokenView::Keyword(KeyWords::CREATE),
        TokenView::Keyword(KeyWords::TABLE),
        TokenView::Identifier("users"@),
        TokenView::Keyword(KeyWords::LEFTPAREN),
        TokenView::Identifier("id"@),
        TokenView::Keyword(KeyWords::INT),
        TokenView::Keyword(KeyWords::COMMA),
        TokenView::Identifier("name"@),
        TokenView::Keyword(KeyWords::STRING),
        TokenView::Keyword(KeyWords::RIGHTPAREN),
        TokenView::EOL,
    ]);
}

/// The tokens of `INSERT INTO users (name) VALUES (Alice)`.
pub proof fn lemma_lex_insert_alice()
    ensures
        lex("INSERT INTO users (name) VALUES (Alice)"@) == seq![
            TokenView::Keyword(KeyWords::INSERT),
            TokenView::Keyword(KeyWords::INTO),
            TokenView::Identifier("users"@),
            TokenView::Keyword(KeyWords::LEFTPAREN),
            TokenView::Identifier("name"@),
            TokenView::Keyword(KeyWords::RIGHTPAREN),
            TokenView::Keyword(KeyWords::VALUES),
            TokenView::Keyword(KeyWords::LEFTPAREN),
            TokenView::Identifier("Alice"@),
            TokenView::Keyword(KeyWords::RIGHTPAREN),
            TokenView::EOL,
        ],
{
    reveal_strlit("INSERT INTO users (name) VALUES (Alice)");
    reveal_strlit("INSERT");
    reveal_strlit("INTO");
    reveal_strlit("users");
    reveal_strlit("name");
    reveal_strlit("VALUES");
    reveal_strlit("Alice");
    let s = "INSERT INTO users (name) VALUES (Alice)"@;
    assert(s.len() == 39);
    assert(s[0] == 'I' && s[1] == 'N' && s[2] == 'S' && s[3] == 'E' && s[4] == 'R' && s[5] == 'T'
        && s[6] == ' ' && s[7] == 'I' && s[8] == 'N' && s[9] == 'T' && s[10] == 'O' && s[11]
        == ' ');
    assert(s[12] == 'u' && s[13] == 's' && s[14] == 'e' && s[15] == 'r' && s[16] == 's' && s[17]
        == ' ' && s[18] == '(' && s[19] == 'n' && s[20] == 'a' && s[21] == 'm' && s[22] == 'e'
        && s[23] == ')' && s[24] == ' ');
    assert(s[25] == 'V' && s[26] == 'A' && s[27] == 'L' && s[28] == 'U' && s[29] == 'E' && s[30]
        == 'S' && s[31] == ' ' && s[32] == '(' && s[33] == 'A' && s[34] == 'l' && s[35] == 'i'
        && s[36] == 'c' && s[37] == 'e' && s[38] == ')');
    assert(lex_from(s, 39) == seq![TokenView::EOL]);
    assert(lex_from(s, 38) == seq![TokenView::Keyword(KeyWords::RIGHTPAREN)] + lex_from(s, 39));
    let alice = s.subrange(33, 38);
    assert(alice =~= "Alice"@);
    lemma_lex_word(s, 33, 38);
    assert(is_ascii_chars(alice));
    assert(upper_text(alice).len() == 5 && upper_text(alice)[0] == 'A');
    lemma_other_word_is_identifier(alice, upper_text(alice));
    assert(lex_from(s, 32) == seq![TokenView::Keyword(KeyWords::LEFTPAREN)] + lex_from(s, 33));
    assert(lex_from(s, 31) == lex_from(s, 32));
    let values = s.subrange(25, 31);
    lemma_lex_word(s, 25, 31);
    assert(is_ascii_chars(values));
    assert(upper_text(values) =~= "VALUES"@);
    lemma_keywords(values);
    assert(lex_from(s, 24) == lex_from(s, 25));
    assert(lex_from(s, 23) == seq![TokenView::Keyword(KeyWords::RIGHTPAREN)] + lex_from(s, 24));
    let name = s.subrange(19, 23);
    assert(name =~= "name"@);
    lemma_lex_word(s, 19, 23);
    assert(is_ascii_chars(name));
    assert(upper_text(name).len() == 4 && upper_text(name)[0] == 'N');
    lemma_other_word_is_identifier(name, upper_text(name));
    assert(lex_from(s, 18) == seq![TokenView::Keyword(KeyWords::LEFTPAREN)] + lex_from(s, 19));
    assert(lex_from(s, 17) == lex_from(s, 18));
    let users = s.subrange(12, 17);
    assert(users =~= "users"@);
    lemma_lex_word(s, 12, 17);
    assert(is_ascii_chars(users));
    assert(upper_text(users).len() == 5 && upper_text(users)[0] == 'U');
    lemma_other_word_is_identifier(users, upper_text(users));
    assert(lex_from(s, 11) == lex_from(s, 12));
    let into = s.subrange(7, 11);
    lemma_lex_word(s, 7, 11);
    assert(is_ascii_chars(into));
    assert(upper_text(into) =~= "INTO"@);
    lemma_keywords(into);
    assert(lex_from(s, 6) == lex_from(s, 7));
    let insert = s.subrange(0, 6);
    lemma_lex_word(s, 0, 6);
    assert(is_ascii_chars(insert));
    assert(upper_text(insert) =~= "INSERT"@);
    lemma_keywords(insert);
    assert(lex(s) =~= seq![
        TokenView::Keyword(KeyWords::INSERT),
        TokenView::Keyword(KeyWords::INTO),
        TokenView::Identifier("users"@),
        TokenView::Keyword(KeyWords::LEFTPAREN),
        TokenView::Identifier("name"@),
        TokenView::Keyword(KeyWords::RIGHTPAREN),
        TokenView::Keyword(KeyWords::VALUES),
        TokenView::Keyword(KeyWords::LEFTPAREN),
        TokenView::Identifier("Alice"@),
        TokenView::Keyword(KeyWords::RIGHTPAREN),
        TokenView::EOL,
    ]);
}

/// The tokens of the table definition of the session.
pub open spec fn create_users_tokens() -> Seq<TokenView> {
    seq![
        TokenView::Keyword(KeyWords::CREATE),
        TokenView::Keyword(KeyWords::TABLE),
        TokenView::Identifier("users"@),
        TokenView::Keyword(KeyWords::LEFTPAREN),
        TokenView::Identifier("id"@),
        TokenView::Keyword(KeyWords::INT),
        TokenView::Keyword(KeyWords::COMMA),
        TokenView::Identifier("name"@),
        TokenView::Keyword(KeyWords::STRING),
        TokenView::Keyword(KeyWords::RIGHTPAREN),
        TokenView::EOL,
    ]
}

/// The columns that the table definition of the session declares.
pub open spec fn users_columns() -> Seq<ColumnView> {
    seq![declared_column("id"@, DataType::INT), declared_column("name"@, DataType::STRING)]
}

/// `CREATE TABLE users (id INT, name STRING)` defines the table `users`
/// with an integer field `id` and a string field `name`.
pub proof fn lemma_parse_create_users()
    ensures
        statement(lex("CREATE TABLE users (id INT, name STRING)"@)).0 == Ok::<
            StatementView,
            Seq<char>,
        >(StatementView::Create { table_name: "users"@, columns: users_columns() }),
{
    lemma_lex_create_users();
    let tokens = create_users_tokens();
    let rest = rest_from(tokens, 1);
    assert(rest.len() == 10);
    assert(forall|i: int| 0 <= i < 10 ==> #[trigger] rest[i] == tokens[i + 1]);
    assert(token_at(rest, 0) == tokens[1] && token_at(rest, 1) == tokens[2] && token_at(rest, 2)
        == tokens[3] && token_at(rest, 3) == tokens[4] && token_at(rest, 4) == tokens[5]
        && token_at(rest, 5) == tokens[6] && token_at(rest, 6) == tokens[7] && token_at(rest, 7)
        == tokens[8] && token_at(rest, 8) == tokens[9]);
    assert(column_definitions(rest, 6).0 == Ok::<Seq<ColumnView>, Seq<char>>(
        seq![declared_column("name"@, DataType::STRING)],
    ));
    assert(seq![declared_column("id"@, DataType::INT)] + seq![
        declared_column("name"@, DataType::STRING),
    ] =~= users_columns());
    assert(column_definitions(rest, 3).0 == Ok::<Seq<ColumnView>, Seq<char>>(users_columns()));
}

/// `INSERT INTO users (name) VALUES (Alice)` inserts the value `Alice` for
/// the column `name` into the table `users`.
pub proof fn lemma_parse_insert_alice()
    ensures
        statement(lex("INSERT INTO users (name) VALUES (Alice)"@)).0 == Ok::<
            StatementView,
            Seq<char>,
        >(StatementView::Insert { table_name: "users"@, pairs: seq![("name"@, "Alice"@)] }),
{
    lemma_lex_insert_alice();
    let tokens = lex("INSERT INTO users (name) VALUES (Alice)"@);
    let rest = rest_from(tokens, 1);
    assert(rest.len() == 10);
    assert(forall|i: int| 0 <= i < 10 ==> #[trigger] rest[i] == tokens[i + 1]);
    assert(token_at(rest, 0) == tokens[1] && token_at(rest, 1) == tokens[2] && token_at(rest, 2)
        == tokens[3] && token_at(rest, 3) == tokens[4] && token_at(rest, 4) == tokens[5]
        && token_at(rest, 5) == tokens[6] && token_at(rest, 6) == tokens[7] && token_at(rest, 7)
        == tokens[8] && token_at(rest, 8) == tokens[9]);
    assert(name_list(rest, 3, KeyWords::RIGHTPAREN) == (
        Ok::<Seq<Seq<char>>, Seq<char>>(seq!["name"@]),
        5int,
    ));
    assert(name_list(rest, 7, KeyWords::RIGHTPAREN) == (
        Ok::<Seq<Seq<char>>, Seq<char>>(seq!["Alice"@]),
        9int,
    ));
    assert(zipped(seq!["name"@], seq!["Alice"@]) =~= seq![("name"@, "Alice"@)]);
}

/// `SELECT * FROM users` asks for all columns of the table `users`.
pub proof fn lemma_parse_select_all()
    ensures
        statement(lex("SELECT * FROM users"@)).0 == Ok::<StatementView, Seq<char>>(
            StatementView::Select { table_name: "users"@, columns: seq!["*"@] },
        ),
{
    lemma_lex_select_all();
    let tokens = lex("SELECT * FROM users"@);
    let rest = rest_from(tokens, 1);
    assert(rest.len() == 4);
    assert(forall|i: int| 0 <= i < 4 ==> #[trigger] rest[i] == tokens[i + 1]);
    assert(token_at(rest, 0) == tokens[1] && token_at(rest, 1) == tokens[2] && token_at(rest, 2)
        == tokens[3]);
    assert(name_list(rest, 0, KeyWords::FROM) == (
        Ok::<Seq<Seq<char>>, Seq<char>>(seq!["*"@]),
        2int,
    ));
}

/// A session of three lines on any catalog: `CREATE TABLE users (id INT,
/// name STRING)` and `INSERT INTO users (name) VALUES (Alice)` succeed,
/// then `SELECT * FROM users` is run. The query succeeds and prints the
/// title line for one row and the table drawn from two rows of cells: the
/// column names `id`, `id`, `name`, and the row with its identifier in
/// hyphenated form, `0` for the integer field that the insert did not
/// name, and `Alice`.
pub proof fn lemma_create_insert_select(
    start: ProcessorView,
    created: ProcessorView,
    inserted: ProcessorView,
    result: Result<(), Seq<char>>,
    after: ProcessorView,
)
    requires
        start.wf(),
        ran(
            statement(lex("CREATE TABLE users (id INT, name STRING)"@)).0,
            start,
            Ok(()),
            created,
        ),
        ran(
            statement(lex("INSERT INTO users (name) VALUES (Alice)"@)).0,
            created,
            Ok(()),
            inserted,
        ),
        ran(statement(lex("SELECT * FROM users"@)).0, inserted, result, after),
    ensures
        result is Ok,
        exists|id: Seq<u8>|
            version_7(id) && after.output == inserted.output + seq![title_line("users"@, 1)]
                + table_rendering(
                seq![seq!["id"@, "id"@, "name"@], seq![#[trigger] hyphenated(id), "0"@, "Alice"@]],
            ),
{
    lemma_parse_create_users();
    lemma_parse_insert_alice();
    lemma_parse_select_all();
    reveal_strlit("id");
    reveal_strlit("name");
    reveal_strlit("Alice");
    reveal_strlit("0");
    let name = "users"@;
    let pairs = seq![("name"@, "Alice"@)];
    let requested = seq!["*"@];
    assert(requested.contains("*"@)) by {
        assert(requested[0] == "*"@);
    }
    let declared = users_columns();
    assert forall|k: int| 0 <= k < declared.len() implies (#[trigger] declared[k]).col_type
        == ColumnType::FIELD by {}
    lemma_fields_get_id(declared);
    let columns = with_id(declared);
    assert(columns =~= seq![
        id_column(),
        declared_column("id"@, DataType::INT),
        declared_column("name"@, DataType::STRING),
    ]);
    let fresh = new_table(name, declared, 0, start.database.next_offset());
    lemma_with_table_holds(start.database, fresh);
    assert(fresh.wf()) by {
        lemma_rows_per_page(fresh);
    }
    lemma_with_table_wf(start.database, fresh);
    lemma_flushed_is_saved(start.database.with_table(fresh));
    assert(created.wf());
    let i = find(created.database.tables, name)->0;
    assert(created.database.tables[i] == fresh);
    lemma_new_table_settled(fresh);
    lemma_settled_ignores_disk(fresh, created.database.disk, created.database.disk);
    lemma_insert_then_select(created, name, pairs, inserted, requested);
    lemma_select_empty(fresh, created.database.disk, requested);
    let id = choose|id: Seq<u8>|
        version_7(id) && inserted.database.tables[i].grid(inserted.database.disk, requested)
            == fresh.grid(created.database.disk, requested).push(
            row_cells(
                columns,
                #[trigger] row_bytes(columns, id, matched_values(columns, pairs)),
                requested,
            ),
        );
    let row = row_bytes(columns, id, matched_values(columns, pairs));
    let cells = row_cells(columns, row, requested);
    lemma_select_all(columns, row, requested);
    assert(header_cells(columns, requested) =~= seq!["id"@, "id"@, "name"@]);
    assert(id_then_fields(columns));
    lemma_insert_shows(columns, id, pairs, requested, 0);
    lemma_insert_shows_values(columns, id, pairs, requested, 1);
    lemma_insert_shows_values(columns, id, pairs, requested, 2);
    assert(pairs.len() == 1 && pairs.last() == ("name"@, "Alice"@));
    assert(pairs.drop_last().len() == 0);
    assert("id"@.len() == 2 && "name"@.len() == 4);
    assert(lookup(pairs.drop_last(), "id"@) is None);
    assert(lookup(pairs, "id"@) is None);
    assert(lookup(pairs, "name"@) == Some("Alice"@));
    assert(fits_slot(encode_utf8("Alice"@), 200)) by {
        assert(is_ascii_chars("Alice"@));
        is_ascii_chars_encode_utf8("Alice"@);
        assert("Alice"@[4] == 'e');
        assert(encode_utf8("Alice"@).last() == encode_utf8("Alice"@)[4]);
    }
    lemma_default_reads_back(columns[1]);
    assert(cells =~= seq![hyphenated(id), "0"@, "Alice"@]);
    let grid = inserted.database.tables[i].grid(inserted.database.disk, requested);
    assert(grid =~= seq![seq!["id"@, "id"@, "name"@], seq![hyphenated(id), "0"@, "Alice"@]]);
    lemma_find(created.database.tables, name);
    lemma_find(inserted.database.tables, name);
    assert(inserted.database.tables[i].name == name);
    assert(find(inserted.database.tables, name) == Some(i)) by {
        match find(inserted.database.tables, name) {
            Some(j) => {
                if j != i {
                    assert(inserted.database.tables[j].name == created.database.tables[j].name);
                    assert(created.database.tables[i].name != created.database.tables[j].name);
                }
            },
            None => {},
        }
    }
    assert(inserted.database.tables[i].total_rows == 1);
}

/// The tokens of `CREATE TABLE t (k STRING)`.
pub proof fn lemma_lex_create_t()
    ensures
        lex("CREATE TABLE t (k STRING)"@) == seq![
            TokenView::Keyword(KeyWords::CREATE),
            TokenView::Keyword(KeyWords::TABLE),
            TokenView::Identifier("t"@),
            TokenView::Keyword(KeyWords::LEFTPAREN),
            TokenView::Identifier("k"@),
            TokenView::Keyword(KeyWords::STRING),
            TokenView::Keyword(KeyWords::RIGHTPAREN),
            TokenView::EOL,
        ],
{
    reveal_strlit("CREATE TABLE t (k STRING)");
    reveal_strlit("CREATE");
    reveal_strlit("TABLE");
    reveal_strlit("t");
    reveal_strlit("k");
    reveal_strlit("STRING");
    let s = "CREATE TABLE t (k STRING)"@;
    assert(s.len() == 25);
    assert(s[0] == 'C' && s[1] == 'R' && s[2] == 'E' && s[3] == 'A' && s[4] == 'T' && s[5] == 'E'
        && s[6] == ' ' && s[7] == 'T' && s[8] == 'A' && s[9] == 'B' && s[10] == 'L' && s[11]
        == 'E' && s[12] == ' ');
    assert(s[13] == 't' && s[14] == ' ' && s[15] == '(' && s[16] == 'k' && s[17] == ' ' && s[18]
        == 'S' && s[19] == 'T' && s[20] == 'R' && s[21] == 'I' && s[22] == 'N' && s[23] == 'G'
        && s[24] == ')');
    assert(lex_from(s, 25) == seq![TokenView::EOL]);
    assert(lex_from(s, 24) == seq![TokenView::Keyword(KeyWords::RIGHTPAREN)] + lex_from(s, 25));
    let string = s.subrange(18, 24);
    lemma_lex_word(s, 18, 24);
    assert(is_ascii_chars(string));
    assert(upper_text(string) =~= "STRING"@);
    lemma_keywords(string);
    assert(lex_from(s, 17) == lex_from(s, 18));
    let k = s.subrange(16, 17);
    assert(k =~= "k"@);
    lemma_lex_word(s, 16, 17);
    assert(is_ascii_chars(k));
    assert(upper_text(k).len() == 1);
    lemma_short_word_is_identifier(k, upper_text(k));
    assert(lex_from(s, 15) == seq![TokenView::Keyword(KeyWords::LEFTPAREN)] + lex_from(s, 16));
    assert(lex_from(s, 14) == lex_from(s, 15));
    let t = s.subrange(13, 14);
    assert(t =~= "t"@);
    lemma_lex_word(s, 13, 14);
    assert(is_ascii_chars(t));
    assert(upper_text(t).len() == 1);
    lemma_short_word_is_identifier(t, upper_text(t));
    assert(lex_from(s, 12) == lex_from(s, 13));
    let table = s.subrange(7, 12);
    lemma_lex_word(s, 7, 12);
    assert(is_ascii_chars(table));
    assert(upper_text(table) =~= "TABLE"@);
    lemma_keywords(table);
    assert(lex_from(s, 6) == lex_from(s, 7));
    let create = s.subrange(0, 6);
    lemma_lex_word(s, 0, 6);
    assert(is_ascii_chars(create));
    assert(upper_text(create) =~= "CREATE"@);
    lemma_keywords(create);
    assert(lex(s) =~= seq![
        TokenView::Keyword(KeyWords::CREATE),
        TokenView::Keyword(KeyWords::TABLE),
        TokenView::Identifier("t"@),
        TokenView::Keyword(KeyWords::LEFTPAREN),
        TokenView::Identifier("k"@),
        TokenView::Keyword(KeyWords::STRING),
        TokenView::Keyword(KeyWords::RIGHTPAREN),
        TokenView::EOL,
    ]);
}

/// The tokens of `INSERT INTO t (k) VALUES (hello)`.
pub proof fn lemma_lex_insert_hello()
    ensures
        lex("INSERT INTO t (k) VALUES (hello)"@) == seq![
            TokenView::Keyword(KeyWords::INSERT),
            TokenView::Keyword(KeyWords::INTO),
            TokenView::Identifier("t"@),
            TokenView::Keyword(KeyWords::LEFTPAREN),
            TokenView::Identifier("k"@),
            TokenView::Keyword(KeyWords::RIGHTPAREN),
            TokenView::Keyword(KeyWords::VALUES),
            TokenView::Keyword(KeyWords::LEFTPAREN),
            TokenView::Identifier("hello"@),
            TokenView::Keyword(KeyWords::RIGHTPAREN),
            TokenView::EOL,
        ],
{
    reveal_strlit("INSERT INTO t (k) VALUES (hello)");
    reveal_strlit("INSERT");
    reveal_strlit("INTO");
    reveal_strlit("t");
    reveal_strlit("k");
    reveal_strlit("VALUES");
    reveal_strlit("hello");
    let s = "INSERT INTO t (k) VALUES (hello)"@;
    assert(s.len() == 32);
    assert(s[0] == 'I' && s[1] == 'N' && s[2] == 'S' && s[3] == 'E' && s[4] == 'R' && s[5] == 'T'
        && s[6] == ' ' && s[7] == 'I' && s[8] == 'N' && s[9] == 'T' && s[10] == 'O' && s[11]
        == ' ');
    assert(s[12] == 't' && s[13] == ' ' && s[14] == '(' && s[15] == 'k' && s[16] == ')' && s[17]
        == ' ' && s[18] == 'V' && s[19] == 'A' && s[20] == 'L' && s[21] == 'U' && s[22] == 'E'
        && s[23] == 'S' && s[24] == ' ');
    assert(s[25] == '(' && s[26] == 'h' && s[27] == 'e' && s[28] == 'l' && s[29] == 'l' && s[30]
        == 'o' && s[31] == ')');
    assert(lex_from(s, 32) == seq![TokenView::EOL]);
    assert(lex_from(s, 31) == seq![TokenView::Keyword(KeyWords::RIGHTPAREN)] + lex_from(s, 32));
    let hello = s.subrange(26, 31);
    assert(hello =~= "hello"@);
    lemma_lex_word(s, 26, 31);
    assert(is_ascii_chars(hello));
    assert(upper_text(hello).len() == 5 && upper_text(hello)[0] == 'H');
    lemma_other_word_is_identifier(hello, upper_text(hello));
    assert(lex_from(s, 25) == seq![TokenView::Keyword(KeyWords::LEFTPAREN)] + lex_from(s, 26));
    assert(lex_from(s, 24) == lex_from(s, 25));
    let values = s.subrange(18, 24);
    lemma_lex_word(s, 18, 24);
    assert(is_ascii_chars(values));
    assert(upper_text(values) =~= "VALUES"@);
    lemma_keywords(values);
    assert(lex_from(s, 17) == lex_from(s, 18));
    assert(lex_from(s, 16) == seq![TokenView::Keyword(KeyWords::RIGHTPAREN)] + lex_from(s, 17));
    let k = s.subrange(15, 16);
    assert(k =~= "k"@);
    lemma_lex_word(s, 15, 16);
    assert(is_ascii_chars(k));
    assert(upper_text(k).len() == 1);
    lemma_short_word_is_identifier(k, upper_text(k));
    assert(lex_from(s, 14) == seq![TokenView::Keyword(KeyWords::LEFTPAREN)] + lex_from(s, 15));
    assert(lex_from(s, 13) == lex_from(s, 14));
    let t = s.subrange(12, 13);
    assert(t =~= "t"@);
    lemma_lex_word(s, 12, 13);
    assert(is_ascii_chars(t));
    assert(upper_text(t).len() == 1);
    lemma_short_word_is_identifier(t, upper_text(t));
    assert(lex_from(s, 11) == lex_from(s, 12));
    let into = s.subrange(7, 11);
    lemma_lex_word(s, 7, 11);
    assert(is_ascii_chars(into));
    assert(upper_text(into) =~= "INTO"@);
    lemma_keywords(into);
    assert(lex_from(s, 6) == lex_from(s, 7));
    let insert = s.subrange(0, 6);
    lemma_lex_word(s, 0, 6);
    assert(is_ascii_chars(insert));
    assert(upper_text(insert) =~= "INSERT"@);
    lemma_keywords(insert);
    assert(lex(s) =~= seq![
        TokenView::Keyword(KeyWords::INSERT),
        TokenView::Keyword(KeyWords::INTO),
        TokenView::Identifier("t"@),
        TokenView::Keyword(KeyWords::LEFTPAREN),
        TokenView::Identifier("k"@),
        TokenView::Keyword(KeyWords::RIGHTPAREN),
        TokenView::Keyword(KeyWords::VALUES),
        TokenView::Keyword(KeyWords::LEFTPAREN),
        TokenView::Identifier("hello"@),
        TokenView::Keyword(KeyWords::RIGHTPAREN),
        TokenView::EOL,
    ]);
}

/// The tokens of `SELECT * FROM t`.
pub proof fn lemma_lex_select_t()
    ensures
        lex("SELECT * FROM t"@) == seq![
            TokenView::Keyword(KeyWords::SELECT),
            TokenView::Identifier("*"@),
            TokenView::Keyword(KeyWords::FROM),
            TokenView::Identifier("t"@),
            TokenView::EOL,
        ],
{
    reveal_strlit("SELECT * FROM t");
    reveal_strlit("SELECT");
    reveal_strlit("FROM");
    reveal_strlit("t");
    reveal_strlit("*");
    let s = "SELECT * FROM t"@;
    assert(s.len() == 15);
    assert(s[0] == 'S' && s[1] == 'E' && s[2] == 'L' && s[3] == 'E' && s[4] == 'C' && s[5] == 'T'
        && s[6] == ' ' && s[7] == '*' && s[8] == ' ' && s[9] == 'F' && s[10] == 'R' && s[11]
        == 'O' && s[12] == 'M' && s[13] == ' ' && s[14] == 't');
    assert(lex_from(s, 15) == seq![TokenView::EOL]);
    let t = s.subrange(14, 15);
    assert(t =~= "t"@);
    lemma_lex_word(s, 14, 15);
    assert(is_ascii_chars(t));
    assert(upper_text(t).len() == 1);
    lemma_short_word_is_identifier(t, upper_text(t));
    assert(lex_from(s, 13) == lex_from(s, 14));
    let from = s.subrange(9, 13);
    lemma_lex_word(s, 9, 13);
    assert(is_ascii_chars(from));
    assert(upper_text(from) =~= "FROM"@);
    lemma_keywords(from);
    assert(lex_from(s, 8) == lex_from(s, 9));
    assert(lex_from(s, 7) == seq![TokenView::Identifier("*"@)] + lex_from(s, 8));
    assert(lex_from(s, 6) == lex_from(s, 7));
    let select = s.subrange(0, 6);
    lemma_lex_word(s, 0, 6);
    assert(is_ascii_chars(select));
    assert(upper_text(select) =~= "SELECT"@);
    lemma_keywords(select);
    assert(lex(s) =~= seq![
        TokenView::Keyword(KeyWords::SELECT),
        TokenView::Identifier("*"@),
        TokenView::Keyword(KeyWords::FROM),
        TokenView::Identifier("t"@),
        TokenView::EOL,
    ]);
}

/// What the three lines of the session on the table `t` say.
pub proof fn lemma_parse_session_t()
    ensures
        statement(lex("CREATE TABLE t (k STRING)"@)).0 == Ok::<StatementView, Seq<char>>(
            StatementView::Create {
                table_name: "t"@,
                columns: seq![declared_column("k"@, DataType::STRING)],
            },
        ),
        statement(lex("INSERT INTO t (k) VALUES (hello)"@)).0 == Ok::<StatementView, Seq<char>>(
            StatementView::Insert { table_name: "t"@, pairs: seq![("k"@, "hello"@)] },
        ),
        statement(lex("SELECT * FROM t"@)).0 == Ok::<StatementView, Seq<char>>(
            StatementView::Select { table_name: "t"@, columns: seq!["*"@] },
        ),
{
    lemma_lex_create_t();
    lemma_lex_insert_hello();
    lemma_lex_select_t();
    {
        let tokens = lex("CREATE TABLE t (k STRING)"@);
        let rest = rest_from(tokens, 1);
        assert(rest.len() == 7);
        assert(forall|i: int| 0 <= i < 7 ==> #[trigger] rest[i] == tokens[i + 1]);
        assert(token_at(rest, 0) == tokens[1] && token_at(rest, 1) == tokens[2] && token_at(
            rest,
            2,
        ) == tokens[3] && token_at(rest, 3) == tokens[4] && token_at(rest, 4) == tokens[5]
            && token_at(rest, 5) == tokens[6]);
        assert(column_definitions(rest, 3).0 == Ok::<Seq<ColumnView>, Seq<char>>(
            seq![declared_column("k"@, DataType::STRING)],
        ));
    }
    {
        let tokens = lex("INSERT INTO t (k) VALUES (hello)"@);
        let rest = rest_from(tokens, 1);
        assert(rest.len() == 10);
        assert(forall|i: int| 0 <= i < 10 ==> #[trigger] rest[i] == tokens[i + 1]);
        assert(token_at(rest, 0) == tokens[1] && token_at(rest, 1) == tokens[2] && token_at(
            rest,
            2,
        ) == tokens[3] && token_at(rest, 3) == tokens[4] && token_at(rest, 4) == tokens[5]
            && token_at(rest, 5) == tokens[6] && token_at(rest, 6) == tokens[7] && token_at(
            rest,
            7,
        ) == tokens[8] && token_at(rest, 8) == tokens[9]);
        assert(name_list(rest, 3, KeyWords::RIGHTPAREN) == (
            Ok::<Seq<Seq<char>>, Seq<char>>(seq!["k"@]),
            5int,
        ));
        assert(name_list(rest, 7, KeyWords::RIGHTPAREN) == (
            Ok::<Seq<Seq<char>>, Seq<char>>(seq!["hello"@]),
            9int,
        ));
        assert(zipped(seq!["k"@], seq!["hello"@]) =~= seq![("k"@, "hello"@)]);
    }
    {
        let tokens = lex("SELECT * FROM t"@);
        let rest = rest_from(tokens, 1);
        assert(rest.len() == 4);
        assert(forall|i: int| 0 <= i < 4 ==> #[trigger] rest[i] == tokens[i + 1]);
        assert(token_at(rest, 0) == tokens[1] && token_at(rest, 1) == tokens[2] && token_at(
            rest,
            2,
        ) == tokens[3]);
        assert(name_list(rest, 0, KeyWords::FROM) == (
            Ok::<Seq<Seq<char>>, Seq<char>>(seq!["*"@]),
            2int,
        ));
    }
}

/// A short ASCII name that does not end in NUL is stored whole.
pub proof fn lemma_ascii_name_storable(name: Seq<char>)
    requires
        is_ascii_chars(name),
        0 < name.len() <= 32,
        name.last() != '\0',
    ensures
        storable(name),
{
    is_ascii_chars_encode_utf8(name);
    assert(encode_utf8(name).last() == name.last() as u8);
}

/// A fresh, empty file holds the catalog without tables.
pub proof fn lemma_fresh_file_is_empty()
    ensures
        DataBaseView::opened(Seq::<u8>::empty()) == Ok::<DataBaseView, Seq<char>>(
            DataBaseView::empty(Seq::<u8>::empty()),
        ),
        DataBaseView::empty(Seq::<u8>::empty()).wf(),
{
}

/// The catalog of a fresh file, before any statement.
pub open spec fn fresh_session() -> ProcessorView {
    ProcessorView {
        database: DataBaseView::empty(Seq::<u8>::empty()),
        output: Seq::<Seq<char>>::empty(),
    }
}

/// A session on a fresh file runs `CREATE TABLE t (k STRING)` and `INSERT
/// INTO t (k) VALUES (hello)` and ends. A second session opens the file
/// that the first one left and runs `SELECT * FROM t`. Both statements of
/// the first session succeed, the file opens, the query succeeds, and it
/// prints the title line for one row and the table drawn from the column
/// names `id`, `k` and the row with its identifier and `hello`.
pub proof fn lemma_row_survives_reopen(
    first: Result<(), Seq<char>>,
    created: ProcessorView,
    second: Result<(), Seq<char>>,
    inserted: ProcessorView,
    result: Result<(), Seq<char>>,
    after: ProcessorView,
)
    requires
        ran(statement(lex("CREATE TABLE t (k STRING)"@)).0, fresh_session(), first, created),
        ran(statement(lex("INSERT INTO t (k) VALUES (hello)"@)).0, created, second, inserted),
        ran(
            statement(lex("SELECT * FROM t"@)).0,
            ProcessorView {
                database: DataBaseView::opened(inserted.database.disk)->Ok_0,
                output: Seq::<Seq<char>>::empty(),
            },
            result,
            after,
        ),
    ensures
        first is Ok,
        second is Ok,
        DataBaseView::opened(inserted.database.disk) is Ok,
        result is Ok,
        exists|id: Seq<u8>|
            version_7(id) && after.output == seq![title_line("t"@, 1)] + table_rendering(
                seq![seq!["id"@, "k"@], seq![#[trigger] hyphenated(id), "hello"@]],
            ),
{
    lemma_parse_session_t();
    lemma_fresh_file_is_empty();
    reveal_strlit("t");
    reveal_strlit("k");
    reveal_strlit("id");
    reveal_strlit("hello");
    let start = fresh_session();
    let name = "t"@;
    let declared = seq![declared_column("k"@, DataType::STRING)];
    let pairs = seq![("k"@, "hello"@)];
    let requested = seq!["*"@];
    assert(requested.contains("*"@)) by {
        assert(requested[0] == "*"@);
    }
    assert forall|k: int| 0 <= k < declared.len() implies (#[trigger] declared[k]).col_type
        == ColumnType::FIELD by {}
    lemma_fields_get_id(declared);
    let columns = with_id(declared);
    assert(columns =~= seq![id_column(), declared_column("k"@, DataType::STRING)]);
    let fresh = new_table(name, declared, 0, start.database.next_offset());
    assert(find(start.database.tables, name) is None);
    assert(start.database.next_offset() == 4096);
    lemma_row_width_step(columns, 0);
    lemma_row_width_step(columns, 1);
    assert(columns.take(0) =~= Seq::<ColumnView>::empty());
    assert(columns.take(2) =~= columns);
    assert(row_width(columns) == 216);
    assert(valid_schema(columns));
    assert(acceptable(declared, 0, 4096));
    assert(start.database.with_table(fresh).tables =~= seq![fresh]);
    assert(seq![fresh].drop_last() =~= Seq::<TableView>::empty());
    assert(start.database.with_table(fresh).meta_len() == 110);
    assert(start.database.add_error(name, declared, 0, 4096, true) is None);
    assert(first is Ok);
    assert(created.database.tables =~= seq![fresh]);
    assert(find(created.database.tables, name) == Some(0int)) by {
        lemma_find(created.database.tables, name);
    }
    assert(fresh.row_size() == 216);
    assert(4096int / 216 == 18) by (nonlinear_arith);
    assert(fresh.rows_per_page() == 18 && fresh.capacity() == 1800);
    assert(!fresh.resident(0));
    assert(fresh.page(created.database.disk, 0).current_row == 0);
    assert(second is Ok);
    assert(is_ascii_chars("t"@) && is_ascii_chars("k"@) && is_ascii_chars("id"@));
    lemma_ascii_name_storable("t"@);
    lemma_ascii_name_storable("k"@);
    lemma_ascii_name_storable("id"@);
    assert forall|i: int| 0 <= i < created.database.tables.len() implies names_storable(
        #[trigger] created.database.tables[i],
    ) by {
        assert(created.database.tables[i] == fresh);
        assert forall|k: int| 0 <= k < fresh.columns.len() implies storable(
            (#[trigger] fresh.columns[k]).name,
        ) by {
            if k == 0 {
                assert(fresh.columns[0].name == "id"@);
            } else {
                assert(fresh.columns[1].name == "k"@);
            }
        }
    }
    lemma_create_insert_reopen(start, name, declared, pairs, created, inserted);
    let opened = DataBaseView::opened(inserted.database.disk)->Ok_0;
    let i = find(inserted.database.tables, name)->0;
    let table = closed(inserted.database.tables[i]);
    let disk = inserted.database.disk;
    assert(opened.tables[i] == table);
    lemma_find(inserted.database.tables, name);
    lemma_find(opened.tables, name);
    assert(find(opened.tables, name) == Some(i)) by {
        match find(opened.tables, name) {
            Some(j) => {
                assert(opened.tables[j].name == inserted.database.tables[j].name);
                if j < i {
                    assert(inserted.database.tables[j].name != name);
                }
            },
            None => {
                assert(opened.tables[i].name == name);
            },
        }
    }
    let id = choose|id: Seq<u8>|
        version_7(id) && table.rows(disk) == seq![
            #[trigger] row_bytes(columns, id, matched_values(columns, pairs)),
        ];
    let row = row_bytes(columns, id, matched_values(columns, pairs));
    assert(table.row(disk, 0) == table.rows(disk)[0]);
    lemma_select_all(columns, row, requested);
    assert(header_cells(columns, requested) =~= seq!["id"@, "k"@]);
    assert(id_then_fields(columns));
    lemma_insert_shows(columns, id, pairs, requested, 0);
    lemma_insert_shows_values(columns, id, pairs, requested, 1);
    assert(pairs.len() == 1 && pairs.last() == ("k"@, "hello"@));
    assert(lookup(pairs, "k"@) == Some("hello"@));
    assert(fits_slot(encode_utf8("hello"@), 200)) by {
        assert(is_ascii_chars("hello"@));
        is_ascii_chars_encode_utf8("hello"@);
        assert("hello"@[4] == 'o');
        assert(encode_utf8("hello"@).last() == encode_utf8("hello"@)[4]);
    }
    assert(row_cells(columns, row, requested) =~= seq![hyphenated(id), "hello"@]);
    assert(table.grid(disk, requested) =~= seq![
        seq!["id"@, "k"@],
        seq![hyphenated(id), "hello"@],
    ]);
    assert(after.output =~= seq![title_line("t"@, 1)] + table_rendering(
        seq![seq!["id"@, "k"@], seq![hyphenated(id), "hello"@]],
    ));
}

} // verus!
