//! The lexer: statement text is split into tokens, each with the line on
//! which it stands.

use crate::constructs::components::{type_named, type_text, DataTypeRaw};
use crate::sql::errors::SyntaxError;
use crate::text::{chars_of, decimal, folded, folds_to, push_decimal, string_of};
use vstd::prelude::*;
use vstd::std_specs::cmp::PartialEqSpecImpl;

verus! {

/// The reserved words of the statement language.
#[derive(Debug, PartialEq, Eq, Clone, Copy, Structural)]
pub enum Keyword {
    Create,
    Table,
    If,
    Not,
    Exists,
    Primary,
    Key,
    Nullable,
}

/// The symbols that stand alone between words.
#[derive(Debug, PartialEq, Eq, Clone, Copy, Structural)]
pub enum Delimiter {
    ParenthesisOpening,
    ParenthesisClosing,
    Comma,
    Semicolon,
}

/// What a token is: a reserved word, a type name, a symbol, or any other word.
#[derive(Debug, Eq)]
pub enum TokenValue {
    Const(Keyword),
    Type(DataTypeRaw),
    Delimiting(Delimiter),
    Arbitrary(String),
}

/// A token value as a mathematical value.
pub enum TokenValueView {
    Const(Keyword),
    Type(DataTypeRaw),
    Delimiting(Delimiter),
    Arbitrary(Seq<char>),
}

/// A token: its value, and the line of the text on which it stands, counted
/// from 1.
#[derive(Debug, PartialEq, Eq)]
pub struct Token {
    pub value: TokenValue,
    pub line_number: usize,
}

/// A token as a mathematical value.
pub struct TokenView {
    pub value: TokenValueView,
    pub line_number: nat,
}

impl View for TokenValue {
    type V = TokenValueView;

    open spec fn view(&self) -> TokenValueView {
        match self {
            TokenValue::Const(keyword) => TokenValueView::Const(*keyword),
            TokenValue::Type(data_type) => TokenValueView::Type(*data_type),
            TokenValue::Delimiting(delimiter) => TokenValueView::Delimiting(*delimiter),
            TokenValue::Arbitrary(word) => TokenValueView::Arbitrary(word@),
        }
    }
}

impl DeepView for TokenValue {
    type V = TokenValueView;

    open spec fn deep_view(&self) -> TokenValueView {
        self@
    }
}

impl View for Token {
    type V = TokenView;

    open spec fn view(&self) -> TokenView {
        TokenView { value: self.value@, line_number: self.line_number as nat }
    }
}

impl DeepView for Token {
    type V = TokenView;

    open spec fn deep_view(&self) -> TokenView {
        self@
    }
}

impl PartialEq for TokenValue {
    fn eq(&self, other: &TokenValue) -> (same: bool) {
        match (self, other) {
            (TokenValue::Const(a), TokenValue::Const(b)) => *a == *b,
            (TokenValue::Type(a), TokenValue::Type(b)) => *a == *b,
            (TokenValue::Delimiting(a), TokenValue::Delimiting(b)) => *a == *b,
            (TokenValue::Arbitrary(a), TokenValue::Arbitrary(b)) => *a == *b,
            _ => false,
        }
    }
}

impl PartialEqSpecImpl for TokenValue {
    open spec fn obeys_eq_spec() -> bool {
        true
    }

    open spec fn eq_spec(&self, other: &TokenValue) -> bool {
        self@ == other@
    }
}

/// How a reserved word is written: in capitals.
pub open spec fn keyword_text(keyword: Keyword) -> Seq<char> {
    match keyword {
        Keyword::Create => "CREATE"@,
        Keyword::Table => "TABLE"@,
        Keyword::If => "IF"@,
        Keyword::Not => "NOT"@,
        Keyword::Exists => "EXISTS"@,
        Keyword::Primary => "PRIMARY"@,
        Keyword::Key => "KEY"@,
        Keyword::Nullable => "NULLABLE"@,
    }
}

/// How a symbol is written.
pub open spec fn delimiter_text(delimiter: Delimiter) -> Seq<char> {
    match delimiter {
        Delimiter::ParenthesisOpening => "("@,
        Delimiter::ParenthesisClosing => ")"@,
        Delimiter::Comma => ","@,
        Delimiter::Semicolon => ";"@,
    }
}

/// How a token value is written in a message: a reserved word in capitals, a
/// type by its name, a symbol as itself, any other word as it was given.
pub open spec fn value_text(value: TokenValueView) -> Seq<char> {
    match value {
        TokenValueView::Const(keyword) => keyword_text(keyword),
        TokenValueView::Type(data_type) => type_text(data_type),
        TokenValueView::Delimiting(delimiter) => delimiter_text(delimiter),
        TokenValueView::Arbitrary(word) => word,
    }
}

/// How a token is written in a message: its value between backticks, then
/// its line.
pub open spec fn token_text(token: TokenView) -> Seq<char> {
    "`"@ + value_text(token.value) + "` at line "@ + decimal(token.line_number)
}

impl Keyword {
    /// The reserved word in capitals.
    pub fn as_str(&self) -> (text: &'static str)
        ensures
            text@ == keyword_text(*self),
    {
        match self {
            Keyword::Create => "CREATE",
            Keyword::Table => "TABLE",
            Keyword::If => "IF",
            Keyword::Not => "NOT",
            Keyword::Exists => "EXISTS",
            Keyword::Primary => "PRIMARY",
            Keyword::Key => "KEY",
            Keyword::Nullable => "NULLABLE",
        }
    }
}

impl Delimiter {
    /// The symbol as it is written.
    pub fn as_str(&self) -> (text: &'static str)
        ensures
            text@ == delimiter_text(*self),
    {
        match self {
            Delimiter::ParenthesisOpening => "(",
            Delimiter::ParenthesisClosing => ")",
            Delimiter::Comma => ",",
            Delimiter::Semicolon => ";",
        }
    }
}

impl TokenValue {
    /// Appends the value, as it is written in a message, to `text`.
    pub fn write_to(&self, text: &mut String)
        ensures
            final(text)@ == old(text)@ + value_text(self@),
    {
        match self {
            TokenValue::Const(keyword) => text.append(keyword.as_str()),
            TokenValue::Type(data_type) => text.append(data_type.as_str()),
            TokenValue::Delimiting(delimiter) => text.append(delimiter.as_str()),
            TokenValue::Arbitrary(word) => text.append(word.as_str()),
        }
    }

    /// The value as it is written in a message.
    pub fn to_text(&self) -> (text: String)
        ensures
            text@ == value_text(self@),
    {
        let mut text = String::new();
        self.write_to(&mut text);
        text
    }
}

impl Token {
    /// Appends the token, as it is written in a message, to `text`.
    pub fn write_to(&self, text: &mut String)
        ensures
            final(text)@ == old(text)@ + token_text(self@),
    {
        text.append("`");
        self.value.write_to(text);
        text.append("` at line ");
        push_decimal(text, self.line_number);
    }

    /// The token as it is written in a message.
    pub fn to_text(&self) -> (text: String)
        ensures
            text@ == token_text(self@),
    {
        let mut text = String::new();
        self.write_to(&mut text);
        text
    }
}

/// Characters that separate tokens and are otherwise ignored.
pub open spec fn is_blank(c: char) -> bool {
    c == ' ' || c == '\t' || c == '\n' || c == '\r' || c == '\x0C'
}

/// The symbol that a character stands for, if it is one.
pub open spec fn delimiter_of(c: char) -> Option<Delimiter> {
    if c == '(' {
        Some(Delimiter::ParenthesisOpening)
    } else if c == ')' {
        Some(Delimiter::ParenthesisClosing)
    } else if c == ',' {
        Some(Delimiter::Comma)
    } else if c == ';' {
        Some(Delimiter::Semicolon)
    } else {
        None
    }
}

/// Characters that words are made of: ASCII letters, digits, and underscore.
pub open spec fn is_word_char(c: char) -> bool {
    ('a' <= c && c <= 'z') || ('A' <= c && c <= 'Z') || ('0' <= c && c <= '9') || c == '_'
}

/// Where the longest run of word characters that starts at `from` ends.
pub open spec fn word_end(text: Seq<char>, from: int) -> int
    decreases text.len() - from,
{
    if 0 <= from < text.len() && is_word_char(text[from]) {
        word_end(text, from + 1)
    } else {
        from
    }
}

/// The reserved word that a word is, whatever the case of its letters.
pub open spec fn keyword_named(word: Seq<char>) -> Option<Keyword> {
    let low = folded(word);
    if low == "create"@ {
        Some(Keyword::Create)
    } else if low == "table"@ {
        Some(Keyword::Table)
    } else if low == "if"@ {
        Some(Keyword::If)
    } else if low == "not"@ {
        Some(Keyword::Not)
    } else if low == "exists"@ {
        Some(Keyword::Exists)
    } else if low == "primary"@ {
        Some(Keyword::Primary)
    } else if low == "key"@ {
        Some(Keyword::Key)
    } else if low == "nullable"@ {
        Some(Keyword::Nullable)
    } else {
        None
    }
}

/// Two words that differ in the case of their ASCII letters only are the
/// same reserved word, or neither is one.
pub proof fn lemma_keyword_ignores_case(first: Seq<char>, second: Seq<char>)
    requires
        folded(first) == folded(second),
    ensures
        keyword_named(first) == keyword_named(second),
{
}

/// What a word is: a reserved word if it is one, else a type name if it is
/// one, else a word of the user's, kept as written.
pub open spec fn classify(word: Seq<char>) -> TokenValueView {
    match keyword_named(word) {
        Some(keyword) => TokenValueView::Const(keyword),
        None => match type_named(word) {
            Some(data_type) => TokenValueView::Type(data_type),
            None => TokenValueView::Arbitrary(word),
        },
    }
}

/// What is reported for a character that no token can hold.
pub open spec fn unexpected_character(c: char, line: nat) -> Seq<char> {
    "Unexpected character `"@.push(c) + "` at line "@ + decimal(line) + "."@
}

/// A token put in front of what the rest of the text gives.
pub open spec fn token_then(
    token: TokenView,
    rest: Result<Seq<TokenView>, Seq<char>>,
) -> Result<Seq<TokenView>, Seq<char>> {
    match rest {
        Ok(tokens) => Ok(seq![token] + tokens),
        Err(message) => Err(message),
    }
}

/// The end of a word lies behind its start, and within the text.
pub proof fn lemma_word_end_bounds(text: Seq<char>, from: int)
    requires
        0 <= from <= text.len(),
    ensures
        from <= word_end(text, from) <= text.len(),
        from < text.len() && is_word_char(text[from]) ==> from < word_end(text, from),
    decreases text.len() - from,
{
    if from < text.len() && is_word_char(text[from]) {
        lemma_word_end_bounds(text, from + 1);
    }
}

/// The tokens of the text from position `from` on, where `line` is the line
/// on which that position stands: blanks are skipped, a line feed starts a
/// new line, a symbol is a token, the longest run of word characters is a
/// token, and any other character ends the lexing with a message.
pub open spec fn lex_from(text: Seq<char>, from: int, line: nat) -> Result<
    Seq<TokenView>,
    Seq<char>,
>
    decreases text.len() - from,
{
    if from < 0 || from >= text.len() {
        Ok(Seq::empty())
    } else {
        let c = text[from];
        if is_blank(c) {
            lex_from(
                text,
                from + 1,
                if c == '\n' {
                    line + 1
                } else {
                    line
                },
            )
        } else if let Some(delimiter) = delimiter_of(c) {
            token_then(
                TokenView { value: TokenValueView::Delimiting(delimiter), line_number: line },
                lex_from(text, from + 1, line),
            )
        } else if is_word_char(c) {
            let end = word_end(text, from);
            proof {
                lemma_word_end_bounds(text, from);
            }
            token_then(
                TokenView { value: classify(text.subrange(from, end)), line_number: line },
                lex_from(text, end, line),
            )
        } else {
            Err(unexpected_character(c, line))
        }
    }
}

/// The tokens of a statement text, or the message about the first character
/// that no token can hold.
pub open spec fn spec_tokenize(text: Seq<char>) -> Result<Seq<TokenView>, Seq<char>> {
    lex_from(text, 0, 1)
}

/// The tokens stand on lines that are counted upwards from the line on which
/// the lexing starts: no token stands on an earlier line, and no token on an
/// earlier line than the token before it.
pub proof fn lemma_lines_count_upwards(text: Seq<char>, from: int, line: nat)
    ensures
        lex_from(text, from, line) matches Ok(tokens) ==> {
            &&& forall|i: int| 0 <= i < tokens.len() ==> (#[trigger] tokens[i]).line_number >= line
            &&& forall|i: int, j: int|
                0 <= i <= j < tokens.len() ==> (#[trigger] tokens[i]).line_number <= (
                #[trigger] tokens[j]).line_number
        },
    decreases text.len() - from,
{
    if 0 <= from < text.len() {
        let c = text[from];
        if is_blank(c) {
            lemma_lines_count_upwards(
                text,
                from + 1,
                if c == '\n' {
                    line + 1
                } else {
                    line
                },
            );
        } else if delimiter_of(c) is Some {
            lemma_lines_count_upwards(text, from + 1, line);
        } else if is_word_char(c) {
            lemma_word_end_bounds(text, from);
            lemma_lines_count_upwards(text, word_end(text, from), line);
        }
    }
}

/// The text as a whole is lexed from its first line, so every token stands
/// on line 1 or later.
pub proof fn lemma_lines_start_at_one(text: Seq<char>)
    ensures
        spec_tokenize(text) matches Ok(tokens) ==> forall|i: int|
            0 <= i < tokens.len() ==> (#[trigger] tokens[i]).line_number >= 1,
{
    lemma_lines_count_upwards(text, 0, 1);
}

/// Tokens already found, put in front of what the rest of the text gives.
pub open spec fn tokens_then(
    found: Seq<TokenView>,
    rest: Result<Seq<TokenView>, Seq<char>>,
) -> Result<Seq<TokenView>, Seq<char>> {
    match rest {
        Ok(tokens) => Ok(found + tokens),
        Err(message) => Err(message),
    }
}

/// Whether the character separates tokens.
fn is_blank_char(c: char) -> (blank: bool)
    ensures
        blank == is_blank(c),
{
    c == ' ' || c == '\t' || c == '\n' || c == '\r' || c == '\x0C'
}

/// The symbol that the character stands for, if it is one.
fn delimiter_for(c: char) -> (delimiter: Option<Delimiter>)
    ensures
        delimiter == delimiter_of(c),
{
    if c == '(' {
        Some(Delimiter::ParenthesisOpening)
    } else if c == ')' {
        Some(Delimiter::ParenthesisClosing)
    } else if c == ',' {
        Some(Delimiter::Comma)
    } else if c == ';' {
        Some(Delimiter::Semicolon)
    } else {
        None
    }
}

/// Whether words are made of the character.
fn is_word_character(c: char) -> (word: bool)
    ensures
        word == is_word_char(c),
{
    ('a' <= c && c <= 'z') || ('A' <= c && c <= 'Z') || ('0' <= c && c <= '9') || c == '_'
}

impl Keyword {
    /// The reserved word that the characters of `word` spell, if any.
    pub fn named(word: &[char]) -> (found: Option<Keyword>)
        ensures
            found == keyword_named(word@),
    {
        if folds_to(word, "create") {
            Some(Keyword::Create)
        } else if folds_to(word, "table") {
            Some(Keyword::Table)
        } else if folds_to(word, "if") {
            Some(Keyword::If)
        } else if folds_to(word, "not") {
            Some(Keyword::Not)
        } else if folds_to(word, "exists") {
            Some(Keyword::Exists)
        } else if folds_to(word, "primary") {
            Some(Keyword::Primary)
        } else if folds_to(word, "key") {
            Some(Keyword::Key)
        } else if folds_to(word, "nullable") {
            Some(Keyword::Nullable)
        } else {
            None
        }
    }
}

impl TokenValue {
    /// The token value that a word stands for.
    pub fn of_word(word: &[char]) -> (value: TokenValue)
        ensures
            value@ == classify(word@),
    {
        match Keyword::named(word) {
            Some(keyword) => TokenValue::Const(keyword),
            None => match DataTypeRaw::named(word) {
                Some(data_type) => TokenValue::Type(data_type),
                None => TokenValue::Arbitrary(string_of(word)),
            },
        }
    }
}

/// Splits a statement text into its tokens, each with the line on which it
/// stands. Fails at the first character that no token can hold.
pub fn tokenize(text: &str) -> (res: Result<Vec<Token>, SyntaxError>)
    ensures
        match res {
            Ok(tokens) => spec_tokenize(text@) == Ok::<Seq<TokenView>, Seq<char>>(
                tokens.deep_view(),
            ),
            Err(error) => spec_tokenize(text@) == Err::<Seq<TokenView>, Seq<char>>(error@),
        },
{
    let chars = chars_of(text);
    let mut tokens: Vec<Token> = Vec::new();
    let mut position: usize = 0;
    let mut line_feeds: usize = 0;
    while position < chars.len()
        invariant
            position <= chars.len(),
            chars@ == text@,
            line_feeds <= position,
            spec_tokenize(text@) == tokens_then(
                tokens.deep_view(),
                lex_from(chars@, position as int, (line_feeds + 1) as nat),
            ),
        decreases chars.len() - position,
    {
        let c = chars[position];
        let ghost found = tokens.deep_view();
        if is_blank_char(c) {
            if c == '\n' {
                line_feeds += 1;
            }
            position += 1;
        } else if let Some(delimiter) = delimiter_for(c) {
            let token = Token { value: TokenValue::Delimiting(delimiter), line_number: line_feeds + 1 };
            let ghost rest = lex_from(chars@, position + 1, (line_feeds + 1) as nat);
            tokens.push(token);
            position += 1;
            proof {
                assert(tokens.deep_view() =~= found.push(token@));
                if let Ok(more) = rest {
                    assert(found + (seq![token@] + more) =~= found.push(token@) + more);
                }
            }
        } else if is_word_character(c) {
            let mut end: usize = position + 1;
            while end < chars.len() && is_word_character(chars[end])
                invariant
                    position < end <= chars.len(),
                    word_end(chars@, position as int) == word_end(chars@, end as int),
                decreases chars.len() - end,
            {
                end += 1;
            }
            let word = vstd::slice::slice_subrange(chars.as_slice(), position, end);
            let token = Token { value: TokenValue::of_word(word), line_number: line_feeds + 1 };
            let ghost rest = lex_from(chars@, end as int, (line_feeds + 1) as nat);
            tokens.push(token);
            position = end;
            proof {
                assert(tokens.deep_view() =~= found.push(token@));
                if let Ok(more) = rest {
                    assert(found + (seq![token@] + more) =~= found.push(token@) + more);
                }
            }
        } else {
            let mut message = String::new();
            message.append("Unexpected character `");
            message.push(c);
            message.append("` at line ");
            push_decimal(&mut message, line_feeds + 1);
            message.append(".");
            return Err(SyntaxError(message));
        }
    }
    Ok(tokens)
}

} // verus!
