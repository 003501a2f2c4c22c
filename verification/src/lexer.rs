//! The lexer: one input line to a token stream that ends in [`Token::EOL`].
use vstd::prelude::*;
use crate::text::{
    chars_of, is_digit, is_letter, is_space, string_of, upper_text,
};

verus! {

/// The reserved words and punctuation of the dialect.
#[derive(Debug, Clone, Copy, PartialEq, Eq, Structural)]
pub enum KeyWords {
    CREATE,
    SELECT,
    INSERT,
    UPDATE,
    COMMA,
    LEFTPAREN,
    RIGHTPAREN,
    STRING,
    INT,
    FROM,
    INTO,
    VALUES,
    TABLE,
}

/// One lexical unit of a statement.
#[derive(Debug, Clone)]
pub enum Token {
    Keyword(KeyWords),
    Identifier(String),
    EOL,
}

/// What a [`Token`] stands for: identifiers by their characters.
pub ghost enum TokenView {
    Keyword(KeyWords),
    Identifier(Seq<char>),
    EOL,
}

impl View for Token {
    type V = TokenView;

    open spec fn view(&self) -> TokenView {
        match self {
            Token::Keyword(k) => TokenView::Keyword(*k),
            Token::Identifier(s) => TokenView::Identifier(s@),
            Token::EOL => TokenView::EOL,
        }
    }
}

/// The views of a run of tokens.
pub open spec fn token_views(tokens: Seq<Token>) -> Seq<TokenView> {
    tokens.map_values(|t: Token| t@)
}

/// A character that may continue a word: a letter or a digit.
pub open spec fn is_word_char(c: char) -> bool {
    is_letter(c) || is_digit(c)
}

/// The end of the longest run of word characters of `s` that starts at `from`.
pub open spec fn word_end(s: Seq<char>, from: int) -> int
    decreases s.len() - from,
{
    if 0 <= from < s.len() && is_word_char(s[from]) {
        word_end(s, from + 1)
    } else {
        from
    }
}

/// The reserved word that an upper-cased word spells, if any.
pub open spec fn keyword_of(upper: Seq<char>) -> Option<KeyWords> {
    if upper == "CREATE"@ {
        Some(KeyWords::CREATE)
    } else if upper == "SELECT"@ {
        Some(KeyWords::SELECT)
    } else if upper == "INSERT"@ {
        Some(KeyWords::INSERT)
    } else if upper == "UPDATE"@ {
        Some(KeyWords::UPDATE)
    } else if upper == "STRING"@ {
        Some(KeyWords::STRING)
    } else if upper == "INT"@ {
        Some(KeyWords::INT)
    } else if upper == "FROM"@ {
        Some(KeyWords::FROM)
    } else if upper == "INTO"@ {
        Some(KeyWords::INTO)
    } else if upper == "VALUES"@ {
        Some(KeyWords::VALUES)
    } else if upper == "TABLE"@ {
        Some(KeyWords::TABLE)
    } else {
        None
    }
}

/// The token for a word whose upper-case form is `upper`: a keyword where
/// `upper` spells one, else an identifier that keeps the word's own case.
pub open spec fn word_token(word: Seq<char>, upper: Seq<char>) -> TokenView {
    match keyword_of(upper) {
        Some(k) => TokenView::Keyword(k),
        None => TokenView::Identifier(word),
    }
}

/// The token for one of the four punctuation characters, if `c` is one.
pub open spec fn punctuation_token(c: char) -> Option<TokenView> {
    if c == ',' {
        Some(TokenView::Keyword(KeyWords::COMMA))
    } else if c == '(' {
        Some(TokenView::Keyword(KeyWords::LEFTPAREN))
    } else if c == ')' {
        Some(TokenView::Keyword(KeyWords::RIGHTPAREN))
    } else if c == '*' {
        Some(TokenView::Identifier("*"@))
    } else {
        None
    }
}

/// The tokens of `s` from position `pos` on.
///
/// White space separates tokens. A word starts at a letter and runs over
/// letters and digits as far as they go. Any other character that is not
/// punctuation is dropped, and so are digits that no letter precedes. The
/// stream always ends in exactly one `EOL`.
pub open spec fn lex_from(s: Seq<char>, pos: int) -> Seq<TokenView>
    decreases s.len() - pos,
    via lex_from_decreases
{
    if pos < 0 || pos >= s.len() {
        seq![TokenView::EOL]
    } else if is_space(s[pos]) {
        lex_from(s, pos + 1)
    } else if is_letter(s[pos]) {
        let end = word_end(s, pos);
        let word = s.subrange(pos, end);
        seq![word_token(word, upper_text(word))] + lex_from(s, end)
    } else {
        match punctuation_token(s[pos]) {
            Some(t) => seq![t] + lex_from(s, pos + 1),
            None => lex_from(s, pos + 1),
        }
    }
}

#[via_fn]
proof fn lex_from_decreases(s: Seq<char>, pos: int) {
    if 0 <= pos < s.len() {
        lemma_word_end_bounds(s, pos + 1);
    }
}

/// The tokens of a whole line.
pub open spec fn lex(s: Seq<char>) -> Seq<TokenView> {
    lex_from(s, 0)
}

/// A run of word characters ends at or after its start and within the line.
pub proof fn lemma_word_end_bounds(s: Seq<char>, from: int)
    requires
        0 <= from <= s.len(),
    ensures
        from <= word_end(s, from) <= s.len(),
    decreases s.len() - from,
{
    if from < s.len() && is_word_char(s[from]) {
        lemma_word_end_bounds(s, from + 1);
    }
}

/// The token stream of a line ends in `EOL`, and holds no other `EOL`.
pub proof fn lemma_lex_ends_in_one_eol(s: Seq<char>, pos: int)
    ensures
        lex_from(s, pos).len() >= 1,
        lex_from(s, pos).last() == TokenView::EOL,
        forall|i: int|
            0 <= i < lex_from(s, pos).len() - 1 ==> #[trigger] lex_from(s, pos)[i]
                != TokenView::EOL,
    decreases s.len() - pos,
{
    if pos < 0 || pos >= s.len() {
    } else if is_space(s[pos]) {
        lemma_lex_ends_in_one_eol(s, pos + 1);
    } else if is_letter(s[pos]) {
        let end = word_end(s, pos);
        lemma_word_end_bounds(s, pos + 1);
        lemma_lex_ends_in_one_eol(s, end);
        let word = s.subrange(pos, end);
        let head = seq![word_token(word, upper_text(word))];
        let tail = lex_from(s, end);
        assert(lex_from(s, pos) == head + tail);
        assert forall|i: int| 0 <= i < (head + tail).len() - 1 implies #[trigger] (head + tail)[i]
            != TokenView::EOL by {
            if i > 0 {
                assert((head + tail)[i] == tail[i - 1]);
            }
        }
    } else {
        lemma_lex_ends_in_one_eol(s, pos + 1);
        match punctuation_token(s[pos]) {
            Some(t) => {
                let head = seq![t];
                let tail = lex_from(s, pos + 1);
                assert(lex_from(s, pos) == head + tail);
                assert forall|i: int| 0 <= i < (head + tail).len() - 1 implies #[trigger] (head
                    + tail)[i] != TokenView::EOL by {
                    if i > 0 {
                        assert((head + tail)[i] == tail[i - 1]);
                    }
                }
            },
            None => {},
        }
    }
}

/// A run of word characters that ends at `end` is the longest one.
pub proof fn lemma_word_end_is(s: Seq<char>, from: int, end: int)
    requires
        0 <= from <= end <= s.len(),
        forall|i: int| from <= i < end ==> is_word_char(#[trigger] s[i]),
        end == s.len() || !is_word_char(s[end]),
    ensures
        word_end(s, from) == end,
    decreases end - from,
{
    if from < end {
        lemma_word_end_is(s, from + 1, end);
    }
}

/// A letter followed by letters and digits up to `end` makes one token,
/// and the tokens of the rest follow.
pub proof fn lemma_lex_word(s: Seq<char>, pos: int, end: int)
    requires
        0 <= pos < end <= s.len(),
        is_letter(s[pos]),
        !is_space(s[pos]),
        forall|i: int| pos <= i < end ==> is_word_char(#[trigger] s[i]),
        end == s.len() || !is_word_char(s[end]),
    ensures
        lex_from(s, pos) == seq![
            word_token(s.subrange(pos, end), upper_text(s.subrange(pos, end))),
        ] + lex_from(s, end),
{
    lemma_word_end_is(s, pos, end);
}

/// Each keyword is the token of any word that it is the upper-case form
/// of.
pub proof fn lemma_keywords(word: Seq<char>)
    ensures
        word_token(word, "CREATE"@) == TokenView::Keyword(KeyWords::CREATE),
        word_token(word, "SELECT"@) == TokenView::Keyword(KeyWords::SELECT),
        word_token(word, "INSERT"@) == TokenView::Keyword(KeyWords::INSERT),
        word_token(word, "UPDATE"@) == TokenView::Keyword(KeyWords::UPDATE),
        word_token(word, "STRING"@) == TokenView::Keyword(KeyWords::STRING),
        word_token(word, "INT"@) == TokenView::Keyword(KeyWords::INT),
        word_token(word, "FROM"@) == TokenView::Keyword(KeyWords::FROM),
        word_token(word, "INTO"@) == TokenView::Keyword(KeyWords::INTO),
        word_token(word, "VALUES"@) == TokenView::Keyword(KeyWords::VALUES),
        word_token(word, "TABLE"@) == TokenView::Keyword(KeyWords::TABLE),
{
    reveal_strlit("CREATE");
    reveal_strlit("SELECT");
    reveal_strlit("INSERT");
    reveal_strlit("UPDATE");
    reveal_strlit("STRING");
    reveal_strlit("INT");
    reveal_strlit("FROM");
    reveal_strlit("INTO");
    reveal_strlit("VALUES");
    reveal_strlit("TABLE");
    assert("CREATE"@[0] == 'C' && "SELECT"@[0] == 'S' && "INSERT"@[0] == 'I' && "UPDATE"@[0]
        == 'U' && "STRING"@[0] == 'S' && "VALUES"@[0] == 'V');
    assert("SELECT"@[1] == 'E' && "STRING"@[1] == 'T');
    assert("FROM"@[0] == 'F' && "INTO"@[0] == 'I');
    assert("CREATE"@.len() == 6 && "SELECT"@.len() == 6 && "INSERT"@.len() == 6 && "UPDATE"@.len()
        == 6 && "STRING"@.len() == 6 && "VALUES"@.len() == 6);
    assert("INT"@.len() == 3 && "FROM"@.len() == 4 && "INTO"@.len() == 4 && "TABLE"@.len() == 5);
}

/// A word whose upper-case form differs from every keyword of its length
/// in the first letter is an identifier.
pub proof fn lemma_other_word_is_identifier(word: Seq<char>, upper: Seq<char>)
    requires
        upper.len() > 0,
        upper.len() == 6 ==> upper[0] != 'C' && upper[0] != 'S' && upper[0] != 'I' && upper[0]
            != 'U' && upper[0] != 'V',
        upper.len() == 5 ==> upper[0] != 'T',
        upper.len() == 4 ==> upper[0] != 'F' && upper[0] != 'I',
        upper.len() == 3 ==> upper[0] != 'I',
    ensures
        word_token(word, upper) == TokenView::Identifier(word),
{
    reveal_strlit("CREATE");
    reveal_strlit("SELECT");
    reveal_strlit("INSERT");
    reveal_strlit("UPDATE");
    reveal_strlit("STRING");
    reveal_strlit("INT");
    reveal_strlit("FROM");
    reveal_strlit("INTO");
    reveal_strlit("VALUES");
    reveal_strlit("TABLE");
    assert("CREATE"@[0] == 'C' && "SELECT"@[0] == 'S' && "INSERT"@[0] == 'I' && "UPDATE"@[0]
        == 'U' && "STRING"@[0] == 'S' && "VALUES"@[0] == 'V');
    assert("INT"@[0] == 'I' && "FROM"@[0] == 'F' && "INTO"@[0] == 'I' && "TABLE"@[0] == 'T');
    assert("CREATE"@.len() == 6 && "SELECT"@.len() == 6 && "INSERT"@.len() == 6 && "UPDATE"@.len()
        == 6 && "STRING"@.len() == 6 && "VALUES"@.len() == 6);
    assert("INT"@.len() == 3 && "FROM"@.len() == 4 && "INTO"@.len() == 4 && "TABLE"@.len() == 5);
}

/// A word that is no keyword: its upper-case form spells none of them.
pub proof fn lemma_short_word_is_identifier(word: Seq<char>, upper: Seq<char>)
    requires
        upper.len() < 3 || upper.len() > 6,
    ensures
        word_token(word, upper) == TokenView::Identifier(word),
{
    reveal_strlit("CREATE");
    reveal_strlit("SELECT");
    reveal_strlit("INSERT");
    reveal_strlit("UPDATE");
    reveal_strlit("STRING");
    reveal_strlit("INT");
    reveal_strlit("FROM");
    reveal_strlit("INTO");
    reveal_strlit("VALUES");
    reveal_strlit("TABLE");
}

/// The line `123 45a` gives the identifier `a` and then `EOL`: the digits
/// before the letter are dropped.
pub proof fn lemma_leading_digits_are_dropped()
    ensures
        lex("123 45a"@) == seq![TokenView::Identifier("a"@), TokenView::EOL],
{
    reveal_strlit("123 45a");
    reveal_strlit("a");
    let s = "123 45a"@;
    assert(s.len() == 7);
    assert(s[0] == '1' && s[1] == '2' && s[2] == '3' && s[3] == ' ' && s[4] == '4' && s[5] == '5'
        && s[6] == 'a');
    assert(lex_from(s, 7) == seq![TokenView::EOL]);
    assert(word_end(s, 7) == 7);
    assert(word_end(s, 6) == 7);
    let word = s.subrange(6, 7);
    assert(word =~= "a"@);
    assert(vstd::utf8::is_ascii_chars(word));
    assert(upper_text(word).len() == 1);
    lemma_short_word_is_identifier(word, upper_text(word));
    assert(lex_from(s, 6) == seq![TokenView::Identifier(word)] + lex_from(s, 7));
    assert(lex_from(s, 5) == lex_from(s, 6));
    assert(lex_from(s, 4) == lex_from(s, 5));
    assert(lex_from(s, 3) == lex_from(s, 4));
    assert(lex_from(s, 2) == lex_from(s, 3));
    assert(lex_from(s, 1) == lex_from(s, 2));
    assert(lex_from(s, 0) == lex_from(s, 1));
    assert(lex(s) =~= seq![TokenView::Identifier("a"@), TokenView::EOL]);
}

/// The token for one of the four punctuation characters, if `c` is one.
pub fn punctuation(c: char) -> (token: Option<Token>)
    ensures
        match token {
            Some(t) => punctuation_token(c) == Some(t@),
            None => punctuation_token(c) is None,
        },
{
    if c == ',' {
        Some(Token::Keyword(KeyWords::COMMA))
    } else if c == '(' {
        Some(Token::Keyword(KeyWords::LEFTPAREN))
    } else if c == ')' {
        Some(Token::Keyword(KeyWords::RIGHTPAREN))
    } else if c == '*' {
        Some(Token::Identifier("*".to_owned()))
    } else {
        None
    }
}

/// The token for `word`, given its upper-case form.
pub fn classify_word(word: String, upper: &str) -> (t: Token)
    ensures
        t@ == word_token(word@, upper@),
{
    if upper.eq("CREATE") {
        Token::Keyword(KeyWords::CREATE)
    } else if upper.eq("SELECT") {
        Token::Keyword(KeyWords::SELECT)
    } else if upper.eq("INSERT") {
        Token::Keyword(KeyWords::INSERT)
    } else if upper.eq("UPDATE") {
        Token::Keyword(KeyWords::UPDATE)
    } else if upper.eq("STRING") {
        Token::Keyword(KeyWords::STRING)
    } else if upper.eq("INT") {
        Token::Keyword(KeyWords::INT)
    } else if upper.eq("FROM") {
        Token::Keyword(KeyWords::FROM)
    } else if upper.eq("INTO") {
        Token::Keyword(KeyWords::INTO)
    } else if upper.eq("VALUES") {
        Token::Keyword(KeyWords::VALUES)
    } else if upper.eq("TABLE") {
        Token::Keyword(KeyWords::TABLE)
    } else {
        Token::Identifier(word)
    }
}

/// A lexer over one input line.
#[derive(Debug)]
pub struct Lexer<'a> {
    input: &'a str,
    tokens: Vec<Token>,
}

impl<'a> Lexer<'a> {
    /// The line this lexer reads.
    pub closed spec fn source(&self) -> Seq<char> {
        self.input@
    }

    /// The tokens not yet consumed, head first.
    pub closed spec fn pending(&self) -> Seq<TokenView> {
        token_views(self.tokens@)
    }

    /// A lexer over `input` with no tokens yet.
    pub fn new(input: &'a str) -> (lexer: Self)
        ensures
            lexer.source() == input@,
            lexer.pending() == Seq::<TokenView>::empty(),
    {
        let lexer = Lexer { input, tokens: Vec::new() };
        assert(lexer.pending() =~= Seq::<TokenView>::empty());
        lexer
    }

    /// Removes and returns the head token; `EOL` once none is left.
    pub fn consume(&mut self) -> (token: Token)
        ensures
            final(self).source() == old(self).source(),
            old(self).pending().len() == 0 ==> token@ == TokenView::EOL && final(self).pending()
                == old(self).pending(),
            old(self).pending().len() > 0 ==> token@ == old(self).pending()[0]
                && final(self).pending() == old(self).pending().drop_first(),
    {
        if self.tokens.len() == 0 {
            Token::EOL
        } else {
            let token = self.tokens.remove(0);
            assert(self.pending() =~= old(self).pending().drop_first());
            token
        }
    }

    /// Appends the tokens of the whole line, `EOL` last, to the pending ones.
    pub fn tokenize(&mut self)
        ensures
            final(self).source() == old(self).source(),
            final(self).pending() == old(self).pending() + lex(old(self).source()),
    {
        let chars = chars_of(self.input);
        let mut pos: usize = 0;
        while pos < chars.len()
            invariant
                pos <= chars.len(),
                chars@ == self.input@,
                self.input@ == old(self).input@,
                token_views(self.tokens@) + lex_from(chars@, pos as int) == token_views(
                    old(self).tokens@,
                ) + lex(chars@),
            decreases chars.len() - pos,
        {
            let ghost before = token_views(self.tokens@);
            let ghost rest = lex_from(chars@, pos as int);
            let c = chars[pos];
            if c.is_whitespace() {
                pos = pos + 1;
            } else if c.is_alphabetic() {
                let start = pos;
                pos = pos + 1;
                while pos < chars.len() && (chars[pos].is_alphabetic() || chars[pos].is_numeric())
                    invariant
                        start < pos <= chars.len(),
                        word_end(chars@, pos as int) == word_end(chars@, start as int),
                    decreases chars.len() - pos,
                {
                    pos = pos + 1;
                }
                let word = string_of(&chars, start, pos);
                let upper = word.as_str().to_uppercase();
                let token = classify_word(word, upper.as_str());
                self.tokens.push(token);
                assert(token_views(self.tokens@) =~= before.push(token@));
                assert(before.push(token@) + lex_from(chars@, pos as int) =~= before + rest);
            } else {
                match punctuation(c) {
                    Some(token) => {
                        self.tokens.push(token);
                        assert(token_views(self.tokens@) =~= before.push(token@));
                        assert(before.push(token@) + lex_from(chars@, pos + 1) =~= before + rest);
                    },
                    None => {},
                }
                pos = pos + 1;
            }
        }
        let ghost before = token_views(self.tokens@);
        self.tokens.push(Token::EOL);
        assert(token_views(self.tokens@) =~= before + lex_from(chars@, pos as int));
    }
}

} // verus!
