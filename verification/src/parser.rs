//! The parser: a recursive descent over the token stream that hands each
//! statement it reads to the executor.
use vstd::prelude::*;
use crate::lexer::{lex, KeyWords, Lexer, Token, TokenView};
use crate::processor::{result_view, Processor, ProcessorView, StatementView};
use crate::rows::pair_views;
use crate::table::{
    column_views, data_type_width, width_of, Column, ColumnType, ColumnView, DataType,
};
use crate::text::text_views;

verus! {

/// The token at position `i` of a stream: past its end, `EOL`.
pub open spec fn token_at(tokens: Seq<TokenView>, i: int) -> TokenView {
    if 0 <= i < tokens.len() {
        tokens[i]
    } else {
        TokenView::EOL
    }
}

/// What is left of a stream once `i` tokens were asked for.
pub open spec fn rest_from(tokens: Seq<TokenView>, i: int) -> Seq<TokenView> {
    if i >= tokens.len() {
        Seq::<TokenView>::empty()
    } else {
        tokens.skip(i)
    }
}

/// The names of a comma-separated list that starts at position `i` and
/// ends with the keyword `closer`, and the position after it. A token that
/// is no identifier ends the list where a name is due, and is passed over.
/// After a name, anything but a comma or `closer` is an error.
pub open spec fn name_list(tokens: Seq<TokenView>, i: int, closer: KeyWords) -> (
    Result<Seq<Seq<char>>, Seq<char>>,
    int,
)
    decreases tokens.len() + 2 - i,
{
    match token_at(tokens, i) {
        TokenView::Identifier(name) => match token_at(tokens, i + 1) {
            TokenView::Keyword(k) => if k == KeyWords::COMMA {
                (
                    match name_list(tokens, i + 2, closer).0 {
                        Ok(names) => Ok(seq![name] + names),
                        Err(e) => Err(e),
                    },
                    name_list(tokens, i + 2, closer).1,
                )
            } else if k == closer {
                (Ok(seq![name]), i + 2)
            } else {
                (Err("Error parsing Select Statement"@), i + 2)
            },
            _ => (Err("Error parsing Select Statement"@), i + 2),
        },
        _ => (Ok(Seq::<Seq<char>>::empty()), i + 1),
    }
}

/// The field that a column definition declares.
pub open spec fn declared_column(name: Seq<char>, data_type: DataType) -> ColumnView {
    ColumnView { name, size: width_of(data_type), col_type: ColumnType::FIELD, data_type }
}

/// The columns of a list of definitions that starts at position `i`, each
/// a name and then `INT` or `STRING`, with commas between and a closing
/// parenthesis at the end; and the position after it.
pub open spec fn column_definitions(tokens: Seq<TokenView>, i: int) -> (
    Result<Seq<ColumnView>, Seq<char>>,
    int,
)
    decreases tokens.len() + 3 - i,
{
    match token_at(tokens, i) {
        TokenView::Identifier(name) => {
            let data_type = match token_at(tokens, i + 1) {
                TokenView::Keyword(k) => if k == KeyWords::INT {
                    Some(DataType::INT)
                } else if k == KeyWords::STRING {
                    Some(DataType::STRING)
                } else {
                    None
                },
                _ => None,
            };
            match data_type {
                None => (Err("Expected data type"@), i + 2),
                Some(data_type) => match token_at(tokens, i + 2) {
                    TokenView::Keyword(k) => if k == KeyWords::COMMA {
                        (
                            match column_definitions(tokens, i + 3).0 {
                                Ok(columns) => Ok(
                                    seq![declared_column(name, data_type)] + columns,
                                ),
                                Err(e) => Err(e),
                            },
                            column_definitions(tokens, i + 3).1,
                        )
                    } else if k == KeyWords::RIGHTPAREN {
                        (Ok(seq![declared_column(name, data_type)]), i + 3)
                    } else {
                        (Err("Error parsing Columns"@), i + 3)
                    },
                    _ => (Err("Error parsing Columns"@), i + 3),
                },
            }
        },
        _ => (Err("Expected column name"@), i + 1),
    }
}

/// The pairs of a list of names and a list of values of the same length.
pub open spec fn zipped(names: Seq<Seq<char>>, values: Seq<Seq<char>>) -> Seq<
    (Seq<char>, Seq<char>),
> {
    Seq::new(names.len(), |k: int| (names[k], values[k]))
}

/// The query that follows the keyword `SELECT`: a list of column names up
/// to `FROM`, then the table's name; and the position after it.
pub open spec fn select_statement(tokens: Seq<TokenView>, i: int) -> (
    Result<StatementView, Seq<char>>,
    int,
) {
    let (columns, j) = name_list(tokens, i, KeyWords::FROM);
    match columns {
        Err(e) => (Err(e), j),
        Ok(columns) => match token_at(tokens, j) {
            TokenView::Identifier(table_name) => if columns.len() == 0 {
                (Err("Columns not provided."@), j + 1)
            } else {
                (Ok(StatementView::Select { table_name, columns }), j + 1)
            },
            _ => (Err("Expected table name"@), j + 1),
        },
    }
}

/// The insert that follows the keyword `INSERT`: `INTO`, the table's name,
/// a list of column names in parentheses, `VALUES`, and a list of as many
/// values in parentheses; and the position after it.
pub open spec fn insert_statement(tokens: Seq<TokenView>, i: int) -> (
    Result<StatementView, Seq<char>>,
    int,
) {
    if token_at(tokens, i) != TokenView::Keyword(KeyWords::INTO) {
        (Err("Expected INTO keyword"@), i + 1)
    } else {
        match token_at(tokens, i + 1) {
            TokenView::Identifier(table_name) => if token_at(tokens, i + 2) != TokenView::Keyword(
                KeyWords::LEFTPAREN,
            ) {
                (Err("Expected ( for Columns specifier"@), i + 3)
            } else {
                let (names, j) = name_list(tokens, i + 3, KeyWords::RIGHTPAREN);
                match names {
                    Err(e) => (Err(e), j),
                    Ok(names) => if token_at(tokens, j) != TokenView::Keyword(KeyWords::VALUES) {
                        (Err("Expected Values for Inserting values"@), j + 1)
                    } else if token_at(tokens, j + 1) != TokenView::Keyword(KeyWords::LEFTPAREN) {
                        (Err("Expected ( for Columns specifier"@), j + 2)
                    } else {
                        let (values, k) = name_list(tokens, j + 2, KeyWords::RIGHTPAREN);
                        match values {
                            Err(e) => (Err(e), k),
                            Ok(values) => if names.len() != values.len() {
                                (Err("Colums and values doesn't match"@), k)
                            } else {
                                (
                                    Ok(
                                        StatementView::Insert {
                                            table_name,
                                            pairs: zipped(names, values),
                                        },
                                    ),
                                    k,
                                )
                            },
                        }
                    },
                }
            },
            _ => (Err("Expected table name"@), i + 2),
        }
    }
}

/// The table definition that follows the keyword `CREATE`: `TABLE`, the
/// table's name, and the column definitions in parentheses; and the
/// position after it.
pub open spec fn create_statement(tokens: Seq<TokenView>, i: int) -> (
    Result<StatementView, Seq<char>>,
    int,
) {
    if token_at(tokens, i) != TokenView::Keyword(KeyWords::TABLE) {
        (Err("Expected TABLE keyword"@), i + 1)
    } else {
        match token_at(tokens, i + 1) {
            TokenView::Identifier(table_name) => if token_at(tokens, i + 2) != TokenView::Keyword(
                KeyWords::LEFTPAREN,
            ) {
                (Err("Expected ( for Columns specifier"@), i + 3)
            } else {
                let (columns, j) = column_definitions(tokens, i + 3);
                match columns {
                    Err(e) => (Err(e), j),
                    Ok(columns) => (Ok(StatementView::Create { table_name, columns }), j),
                }
            },
            _ => (Err("Expected table name"@), i + 2),
        }
    }
}

/// The statement at the head of a stream, chosen by its first keyword and
/// read from the tokens after it, and the number of tokens it takes.
pub open spec fn statement(tokens: Seq<TokenView>) -> (Result<StatementView, Seq<char>>, int) {
    let rest = rest_from(tokens, 1);
    match token_at(tokens, 0) {
        TokenView::Keyword(k) => if k == KeyWords::INSERT {
            (insert_statement(rest, 0).0, insert_statement(rest, 0).1 + 1)
        } else if k == KeyWords::SELECT {
            (select_statement(rest, 0).0, select_statement(rest, 0).1 + 1)
        } else if k == KeyWords::UPDATE {
            (Ok(StatementView::Update), 1)
        } else if k == KeyWords::CREATE {
            (create_statement(rest, 0).0, create_statement(rest, 0).1 + 1)
        } else {
            (Err("Unsupported command"@), 1)
        },
        _ => (Err("Unexpected token"@), 1),
    }
}

/// Asking for `b` tokens of what is left after `a` leaves what is left
/// after `a + b`.
pub proof fn lemma_rest_from_twice(tokens: Seq<TokenView>, a: int, b: int)
    requires
        0 <= a,
        0 <= b,
    ensures
        rest_from(rest_from(tokens, a), b) == rest_from(tokens, a + b),
{
    assert(rest_from(rest_from(tokens, a), b) =~= rest_from(tokens, a + b));
}

/// A list of names takes at least one token.
pub proof fn lemma_name_list_advances(tokens: Seq<TokenView>, i: int, closer: KeyWords)
    ensures
        name_list(tokens, i, closer).1 > i,
    decreases tokens.len() + 2 - i,
{
    match token_at(tokens, i) {
        TokenView::Identifier(_) => match token_at(tokens, i + 1) {
            TokenView::Keyword(k) => if k == KeyWords::COMMA {
                lemma_name_list_advances(tokens, i + 2, closer);
            },
            _ => {},
        },
        _ => {},
    }
}

/// A list of column definitions takes at least one token.
pub proof fn lemma_column_definitions_advance(tokens: Seq<TokenView>, i: int)
    ensures
        column_definitions(tokens, i).1 > i,
    decreases tokens.len() + 3 - i,
{
    match token_at(tokens, i) {
        TokenView::Identifier(_) => match token_at(tokens, i + 1) {
            TokenView::Keyword(k) => if k == KeyWords::INT || k == KeyWords::STRING {
                match token_at(tokens, i + 2) {
                    TokenView::Keyword(k2) => if k2 == KeyWords::COMMA {
                        lemma_column_definitions_advance(tokens, i + 3);
                    },
                    _ => {},
                }
            },
            _ => {},
        },
        _ => {},
    }
}

/// Parsing `parsed` and running it went from `before` to `after` with
/// `result`: a parse error is the result and leaves the executor as it was;
/// a statement is run, and its result is the result.
pub open spec fn ran(
    parsed: Result<StatementView, Seq<char>>,
    before: ProcessorView,
    result: Result<(), Seq<char>>,
    after: ProcessorView,
) -> bool {
    match parsed {
        Err(e) => result == Err::<(), Seq<char>>(e) && after == before,
        Ok(stmt) => before.executed(stmt, result, after),
    }
}

/// A parser over the tokens of one lexer, bound to one executor.
pub struct Parser<'a> {
    pub lexer: Lexer<'a>,
    pub processor: &'a mut Processor,
}

impl<'a> Parser<'a> {
    /// The tokens not yet consumed.
    pub open spec fn tokens(&self) -> Seq<TokenView> {
        self.lexer.pending()
    }

    /// The line that the lexer reads.
    pub open spec fn source(&self) -> Seq<char> {
        self.lexer.source()
    }

    /// The state of the executor.
    pub open spec fn executor(&self) -> ProcessorView {
        self.processor@
    }

    /// A parser over `lexer` that runs its statements on `processor`.
    pub fn new(lexer: Lexer<'a>, processor: &'a mut Processor) -> (parser: Self)
        ensures
            parser.tokens() == lexer.pending(),
            parser.source() == lexer.source(),
            parser.executor() == old(processor)@,
            *final(parser.processor) == *final(processor),
    {
        Parser { lexer, processor }
    }

    /// Consumes the token at position `i` of `tokens`.
    fn take(&mut self, Ghost(tokens): Ghost<Seq<TokenView>>, Ghost(i): Ghost<int>) -> (token:
        Token)
        requires
            i >= 0,
            old(self).tokens() == rest_from(tokens, i),
        ensures
            token@ == token_at(tokens, i),
            final(self).tokens() == rest_from(tokens, i + 1),
            final(self).source() == old(self).source(),
            final(self).executor() == old(self).executor(),
            *final(final(self).processor) == *final(old(self).processor),
    {
        let token = self.lexer.consume();
        proof {
            if i < tokens.len() {
                assert(tokens.skip(i)[0] == tokens[i]);
                assert(tokens.skip(i).drop_first() =~= rest_from(tokens, i + 1));
            }
        }
        token
    }

    /// Reads a list of names up to `closer`.
    fn take_names(
        &mut self,
        closer: KeyWords,
        Ghost(tokens): Ghost<Seq<TokenView>>,
        Ghost(i): Ghost<int>,
    ) -> (result: Result<Vec<String>, String>)
        requires
            i >= 0,
            old(self).tokens() == rest_from(tokens, i),
            closer != KeyWords::COMMA,
        ensures
            final(self).tokens() == rest_from(tokens, name_list(tokens, i, closer).1),
            name_list(tokens, i, closer).1 > i,
            final(self).source() == old(self).source(),
            final(self).executor() == old(self).executor(),
            *final(final(self).processor) == *final(old(self).processor),
            match result {
                Ok(names) => name_list(tokens, i, closer).0 == Ok::<Seq<Seq<char>>, Seq<char>>(
                    text_views(names@),
                ),
                Err(e) => name_list(tokens, i, closer).0 == Err::<Seq<Seq<char>>, Seq<char>>(e@),
            },
    {
        let mut names: Vec<String> = Vec::new();
        let ghost mut at: int = i;
        assert(text_views(names@) =~= Seq::<Seq<char>>::empty());
        loop
            invariant
                at >= i >= 0,
                closer != KeyWords::COMMA,
                self.tokens() == rest_from(tokens, at),
                self.source() == old(self).source(),
                self.executor() == old(self).executor(),
                *final(self.processor) == *final(old(self).processor),
                name_list(tokens, i, closer).1 == name_list(tokens, at, closer).1,
                name_list(tokens, i, closer).0 == (match name_list(tokens, at, closer).0 {
                    Ok(rest) => Ok::<Seq<Seq<char>>, Seq<char>>(text_views(names@) + rest),
                    Err(e) => Err::<Seq<Seq<char>>, Seq<char>>(e),
                }),
            decreases tokens.len() + 2 - at,
        {
            let ghost so_far = text_views(names@);
            match self.take(Ghost(tokens), Ghost(at)) {
                Token::Identifier(name) => {
                    names.push(name);
                    assert(text_views(names@) =~= so_far.push(name@));
                    match self.take(Ghost(tokens), Ghost(at + 1)) {
                        Token::Keyword(k) => {
                            if k == KeyWords::COMMA {
                                proof {
                                    match name_list(tokens, at + 2, closer).0 {
                                        Ok(rest) => {
                                            assert(so_far + (seq![name@] + rest) =~= so_far.push(
                                                name@,
                                            ) + rest);
                                        },
                                        Err(_) => {},
                                    }
                                    at = at + 2;
                                }
                            } else if k == closer {
                                assert(so_far + seq![name@] =~= so_far.push(name@));
                                return Ok(names);
                            } else {
                                return Err("Error parsing Select Statement".to_owned());
                            }
                        },
                        _ => {
                            return Err("Error parsing Select Statement".to_owned());
                        },
                    }
                },
                _ => {
                    assert(so_far + Seq::<Seq<char>>::empty() =~= so_far);
                    return Ok(names);
                },
            }
        }
    }
}

impl<'a> Parser<'a> {
    /// Reads a list of column definitions up to the closing parenthesis.
    fn take_columns(&mut self, Ghost(tokens): Ghost<Seq<TokenView>>, Ghost(i): Ghost<int>) -> (result:
        Result<Vec<Column>, String>)
        requires
            i >= 0,
            old(self).tokens() == rest_from(tokens, i),
        ensures
            final(self).tokens() == rest_from(tokens, column_definitions(tokens, i).1),
            final(self).source() == old(self).source(),
            final(self).executor() == old(self).executor(),
            *final(final(self).processor) == *final(old(self).processor),
            match result {
                Ok(columns) => column_definitions(tokens, i).0 == Ok::<
                    Seq<ColumnView>,
                    Seq<char>,
                >(column_views(columns@)),
                Err(e) => column_definitions(tokens, i).0 == Err::<Seq<ColumnView>, Seq<char>>(
                    e@,
                ),
            },
    {
        let mut columns: Vec<Column> = Vec::new();
        let ghost mut at: int = i;
        assert(column_views(columns@) =~= Seq::<ColumnView>::empty());
        loop
            invariant
                at >= i >= 0,
                self.tokens() == rest_from(tokens, at),
                self.source() == old(self).source(),
                self.executor() == old(self).executor(),
                *final(self.processor) == *final(old(self).processor),
                column_definitions(tokens, i).1 == column_definitions(tokens, at).1,
                column_definitions(tokens, i).0 == (match column_definitions(tokens, at).0 {
                    Ok(rest) => Ok::<Seq<ColumnView>, Seq<char>>(column_views(columns@) + rest),
                    Err(e) => Err::<Seq<ColumnView>, Seq<char>>(e),
                }),
            decreases tokens.len() + 3 - at,
        {
            let ghost so_far = column_views(columns@);
            let column_name = match self.take(Ghost(tokens), Ghost(at)) {
                Token::Identifier(name) => name,
                _ => {
                    return Err("Expected column name".to_owned());
                },
            };
            let data_type = match self.take(Ghost(tokens), Ghost(at + 1)) {
                Token::Keyword(k) => {
                    if k == KeyWords::INT {
                        DataType::INT
                    } else if k == KeyWords::STRING {
                        DataType::STRING
                    } else {
                        return Err("Expected data type".to_owned());
                    }
                },
                _ => {
                    return Err("Expected data type".to_owned());
                },
            };
            let ghost declared = declared_column(column_name@, data_type);
            columns.push(
                Column {
                    name: column_name,
                    data_type,
                    size: data_type_width(data_type),
                    col_type: ColumnType::FIELD,
                },
            );
            assert(column_views(columns@) =~= so_far.push(declared));
            match self.take(Ghost(tokens), Ghost(at + 2)) {
                Token::Keyword(k) => {
                    if k == KeyWords::COMMA {
                        proof {
                            match column_definitions(tokens, at + 3).0 {
                                Ok(rest) => {
                                    assert(so_far + (seq![declared] + rest) =~= so_far.push(
                                        declared,
                                    ) + rest);
                                },
                                Err(_) => {},
                            }
                            at = at + 3;
                        }
                    } else if k == KeyWords::RIGHTPAREN {
                        assert(so_far + seq![declared] =~= so_far.push(declared));
                        return Ok(columns);
                    } else {
                        return Err("Error parsing Columns".to_owned());
                    }
                },
                _ => {
                    return Err("Error parsing Columns".to_owned());
                },
            }
        }
    }

    /// Reads the query that follows `SELECT` and runs it.
    pub fn parse_select(&mut self) -> (result: Result<(), String>)
        requires
            old(self).executor().wf(),
        ensures
            final(self).source() == old(self).source(),
            final(self).tokens() == rest_from(
                old(self).tokens(),
                select_statement(old(self).tokens(), 0).1,
            ),
            ran(
                select_statement(old(self).tokens(), 0).0,
                old(self).executor(),
                result_view(result),
                final(self).executor(),
            ),
            final(self).executor().wf(),
            *final(final(self).processor) == *final(old(self).processor),
    {
        let ghost tokens = self.tokens();
        assert(rest_from(tokens, 0) =~= tokens);
        let column_names = match self.take_names(KeyWords::FROM, Ghost(tokens), Ghost(0)) {
            Ok(names) => names,
            Err(e) => {
                return Err(e);
            },
        };
        let ghost j = name_list(tokens, 0, KeyWords::FROM).1;
        let table_name = match self.take(Ghost(tokens), Ghost(j)) {
            Token::Identifier(table_name) => table_name,
            _ => {
                return Err("Expected table name".to_owned());
            },
        };
        if column_names.len() == 0 {
            return Err("Columns not provided.".to_owned());
        }
        self.processor.handle_select_statement(table_name.as_str(), column_names)
    }

    /// Reads the insert that follows `INSERT` and runs it.
    pub fn parse_insert(&mut self) -> (result: Result<(), String>)
        requires
            old(self).executor().wf(),
        ensures
            final(self).source() == old(self).source(),
            final(self).tokens() == rest_from(
                old(self).tokens(),
                insert_statement(old(self).tokens(), 0).1,
            ),
            ran(
                insert_statement(old(self).tokens(), 0).0,
                old(self).executor(),
                result_view(result),
                final(self).executor(),
            ),
            final(self).executor().wf(),
            *final(final(self).processor) == *final(old(self).processor),
    {
        let ghost tokens = self.tokens();
        assert(rest_from(tokens, 0) =~= tokens);
        let into = self.take(Ghost(tokens), Ghost(0));
        match into {
            Token::Keyword(KeyWords::INTO) => {},
            _ => {
                return Err("Expected INTO keyword".to_owned());
            },
        }
        let table_name = match self.take(Ghost(tokens), Ghost(1)) {
            Token::Identifier(name) => name,
            _ => {
                return Err("Expected table name".to_owned());
            },
        };
        match self.take(Ghost(tokens), Ghost(2)) {
            Token::Keyword(KeyWords::LEFTPAREN) => {},
            _ => {
                return Err("Expected ( for Columns specifier".to_owned());
            },
        }
        let column_names = match self.take_names(KeyWords::RIGHTPAREN, Ghost(tokens), Ghost(3)) {
            Ok(names) => names,
            Err(e) => {
                return Err(e);
            },
        };
        let ghost j = name_list(tokens, 3, KeyWords::RIGHTPAREN).1;
        match self.take(Ghost(tokens), Ghost(j)) {
            Token::Keyword(KeyWords::VALUES) => {},
            _ => {
                return Err("Expected Values for Inserting values".to_owned());
            },
        }
        match self.take(Ghost(tokens), Ghost(j + 1)) {
            Token::Keyword(KeyWords::LEFTPAREN) => {},
            _ => {
                return Err("Expected ( for Columns specifier".to_owned());
            },
        }
        let column_values = match self.take_names(
            KeyWords::RIGHTPAREN,
            Ghost(tokens),
            Ghost(j + 2),
        ) {
            Ok(values) => values,
            Err(e) => {
                return Err(e);
            },
        };
        if column_names.len() != column_values.len() {
            return Err("Colums and values doesn't match".to_owned());
        }
        let mut colum_map: Vec<(String, String)> = Vec::new();
        let mut k: usize = 0;
        while k < column_names.len()
            invariant
                k <= column_names@.len(),
                column_names@.len() == column_values@.len(),
                pair_views(colum_map@) == zipped(
                    text_views(column_names@),
                    text_views(column_values@),
                ).take(k as int),
            decreases column_names@.len() - k,
        {
            let ghost before = pair_views(colum_map@);
            let name = column_names[k].clone();
            let value = column_values[k].clone();
            assert(name@ == text_views(column_names@)[k as int]);
            assert(value@ == text_views(column_values@)[k as int]);
            colum_map.push((name, value));
            k = k + 1;
            assert(pair_views(colum_map@) =~= before.push((name@, value@)));
            assert(pair_views(colum_map@) =~= zipped(
                text_views(column_names@),
                text_views(column_values@),
            ).take(k as int));
        }
        assert(pair_views(colum_map@) =~= zipped(
            text_views(column_names@),
            text_views(column_values@),
        ));
        self.processor.handle_insert_statement(table_name.as_str(), colum_map)
    }

    /// Accepts an update, which does nothing.
    pub fn parse_update(&mut self) -> (result: Result<(), String>)
        ensures
            result is Ok,
            final(self).source() == old(self).source(),
            final(self).tokens() == old(self).tokens(),
            final(self).executor() == old(self).executor(),
            *final(final(self).processor) == *final(old(self).processor),
    {
        Ok(())
    }

    /// Reads the table definition that follows `CREATE` and runs it.
    pub fn parse_create(&mut self) -> (result: Result<(), String>)
        requires
            old(self).executor().wf(),
        ensures
            final(self).source() == old(self).source(),
            final(self).tokens() == rest_from(
                old(self).tokens(),
                create_statement(old(self).tokens(), 0).1,
            ),
            ran(
                create_statement(old(self).tokens(), 0).0,
                old(self).executor(),
                result_view(result),
                final(self).executor(),
            ),
            final(self).executor().wf(),
            *final(final(self).processor) == *final(old(self).processor),
    {
        let ghost tokens = self.tokens();
        assert(rest_from(tokens, 0) =~= tokens);
        let table_keyword = self.take(Ghost(tokens), Ghost(0));
        match table_keyword {
            Token::Keyword(KeyWords::TABLE) => {},
            _ => {
                return Err("Expected TABLE keyword".to_owned());
            },
        }
        let table_name = match self.take(Ghost(tokens), Ghost(1)) {
            Token::Identifier(name) => name,
            _ => {
                return Err("Expected table name".to_owned());
            },
        };
        match self.take(Ghost(tokens), Ghost(2)) {
            Token::Keyword(KeyWords::LEFTPAREN) => {},
            _ => {
                return Err("Expected ( for Columns specifier".to_owned());
            },
        }
        let columns = match self.take_columns(Ghost(tokens), Ghost(3)) {
            Ok(columns) => columns,
            Err(e) => {
                return Err(e);
            },
        };
        self.processor.create_table(table_name, columns)
    }

    /// Reads the statement at the head of the stream and runs it.
    pub fn parse_command(&mut self) -> (result: Result<(), String>)
        requires
            old(self).executor().wf(),
        ensures
            final(self).source() == old(self).source(),
            final(self).tokens() == rest_from(old(self).tokens(), statement(old(self).tokens()).1),
            ran(
                statement(old(self).tokens()).0,
                old(self).executor(),
                result_view(result),
                final(self).executor(),
            ),
            final(self).executor().wf(),
            *final(final(self).processor) == *final(old(self).processor),
    {
        let ghost tokens = self.tokens();
        assert(rest_from(tokens, 0) =~= tokens);
        let token = self.take(Ghost(tokens), Ghost(0));
        let ghost rest = rest_from(tokens, 1);
        proof {
            lemma_name_list_advances(rest, 0, KeyWords::FROM);
            lemma_name_list_advances(rest, 3, KeyWords::RIGHTPAREN);
            let j = name_list(rest, 3, KeyWords::RIGHTPAREN).1;
            lemma_name_list_advances(rest, j + 2, KeyWords::RIGHTPAREN);
            lemma_column_definitions_advance(rest, 3);
            lemma_rest_from_twice(tokens, 1, select_statement(rest, 0).1);
            lemma_rest_from_twice(tokens, 1, insert_statement(rest, 0).1);
            lemma_rest_from_twice(tokens, 1, create_statement(rest, 0).1);
        }
        if let Token::Keyword(keyword) = token {
            return match keyword {
                KeyWords::INSERT => self.parse_insert(),
                KeyWords::SELECT => self.parse_select(),
                KeyWords::UPDATE => self.parse_update(),
                KeyWords::CREATE => self.parse_create(),
                _ => Err("Unsupported command".to_owned()),
            };
        }
        Err("Unexpected token".to_owned())
    }

    /// Lexes the whole line, then reads the statement at the head of the
    /// stream and runs it.
    pub fn parse(&mut self) -> (result: Result<(), String>)
        requires
            old(self).executor().wf(),
        ensures
            final(self).source() == old(self).source(),
            final(self).tokens() == rest_from(
                old(self).tokens() + lex(old(self).source()),
                statement(old(self).tokens() + lex(old(self).source())).1,
            ),
            ran(
                statement(old(self).tokens() + lex(old(self).source())).0,
                old(self).executor(),
                result_view(result),
                final(self).executor(),
            ),
            final(self).executor().wf(),
            *final(final(self).processor) == *final(old(self).processor),
    {
        self.lexer.tokenize();
        self.parse_command()
    }
}

/// The columns that a table definition declares are fields of the width
/// that their type fixes.
pub proof fn lemma_declared_columns_are_fields(tokens: Seq<TokenView>, i: int)
    ensures
        match column_definitions(tokens, i).0 {
            Ok(columns) => forall|k: int|
                0 <= k < columns.len() ==> (#[trigger] columns[k]).is_field(),
            Err(_) => true,
        },
    decreases tokens.len() + 3 - i,
{
    match token_at(tokens, i) {
        TokenView::Identifier(name) => match token_at(tokens, i + 1) {
            TokenView::Keyword(k) => if k == KeyWords::INT || k == KeyWords::STRING {
                match token_at(tokens, i + 2) {
                    TokenView::Keyword(k2) => if k2 == KeyWords::COMMA {
                        lemma_declared_columns_are_fields(tokens, i + 3);
                    },
                    _ => {},
                }
            },
            _ => {},
        },
        _ => {},
    }
}

/// A table definition that succeeds leaves a table of that name without
/// rows, whose schema is the identifier column and then the declared
/// columns in the order written.
pub proof fn lemma_create_gives_id_then_declared(
    tokens: Seq<TokenView>,
    before: ProcessorView,
    result: Result<(), Seq<char>>,
    after: ProcessorView,
)
    requires
        before.wf(),
        statement(tokens).0 is Ok,
        statement(tokens).0->Ok_0 is Create,
        ran(statement(tokens).0, before, result, after),
        result is Ok,
    ensures
        match crate::database::find(
            after.database.tables,
            statement(tokens).0->Ok_0->Create_table_name,
        ) {
            Some(i) => {
                &&& 0 <= i < after.database.tables.len()
                &&& after.database.tables[i].columns == seq![crate::table::id_column()]
                    + statement(tokens).0->Ok_0->Create_columns
                &&& after.database.tables[i].total_rows == 0
            },
            None => false,
        },
{
    let rest = rest_from(tokens, 1);
    let name = statement(tokens).0->Ok_0->Create_table_name;
    let columns = statement(tokens).0->Ok_0->Create_columns;
    assert(column_definitions(rest, 3).0 == Ok::<Seq<ColumnView>, Seq<char>>(columns));
    lemma_declared_columns_are_fields(rest, 3);
    assert forall|k: int| 0 <= k < columns.len() implies (#[trigger] columns[k]).col_type
        == ColumnType::FIELD by {
        assert(columns[k].is_field());
    }
    crate::database::lemma_fields_get_id(columns);
    let table = crate::database::new_table(name, columns, 0, before.database.next_offset());
    crate::database::lemma_with_table_holds(before.database, table);
}

/// Lexes one line, reads the statement it holds and runs it on
/// `processor`.
pub fn execute_line(processor: &mut Processor, input: &str) -> (result: Result<(), String>)
    requires
        old(processor)@.wf(),
    ensures
        ran(statement(lex(input@)).0, old(processor)@, result_view(result), final(processor)@),
        final(processor)@.wf(),
{
    let lexer = Lexer::new(input);
    let mut parser = Parser::new(lexer, processor);
    assert(Seq::<TokenView>::empty() + lex(input@) =~= lex(input@));
    parser.parse()
}

} // verus!
