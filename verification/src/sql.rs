//! From statement text to a validated schema definition.

pub mod errors;
pub mod expects;
pub mod tokenizer;

use crate::constructs::components::{
    validated_table, ColumnDefinition, TableDefinition, TableDefinitionView,
};
use crate::sql::errors::{StatementValidationError, SyntaxError};
use crate::sql::expects::{
    at_end, expect_end_of_statement, expect_table_definition, expect_token_values_sequence,
    lemma_rest_views, rest_after, spec_end_of_statement, spec_table_definition, spec_token_values_sequence,
    yields, ExpectOk, ExpectResult, Parsed,
};
use crate::sql::tokenizer::{
    spec_tokenize, tokenize, Keyword, Token, TokenValue, TokenValueView, TokenView,
};
use vstd::prelude::*;

verus! {

/// Why a statement was refused: for its shape, or for a rule of the schema.
#[derive(Debug, PartialEq, Eq)]
pub enum ParseError {
    Syntax(SyntaxError),
    StatementValidation(StatementValidationError),
}

/// A refusal as a mathematical value: its kind and its message.
pub enum ParseErrorView {
    Syntax(Seq<char>),
    StatementValidation(Seq<char>),
}

impl View for ParseError {
    type V = ParseErrorView;

    open spec fn view(&self) -> ParseErrorView {
        match self {
            ParseError::Syntax(error) => ParseErrorView::Syntax(error@),
            ParseError::StatementValidation(error) => ParseErrorView::StatementValidation(error@),
        }
    }
}

impl ParseError {
    /// The name under which this kind of error is reported to clients.
    pub fn kind(&self) -> (kind: &'static str)
        ensures
            kind@ == match self@ {
                ParseErrorView::Syntax(_) => "syntax"@,
                ParseErrorView::StatementValidation(_) => "statement_validation"@,
            },
    {
        match self {
            ParseError::Syntax(error) => error.kind(),
            ParseError::StatementValidation(error) => error.kind(),
        }
    }

    /// What went wrong, for a human reader.
    pub fn message(&self) -> (message: &str)
        ensures
            message@ == match self@ {
                ParseErrorView::Syntax(text) => text,
                ParseErrorView::StatementValidation(text) => text,
            },
    {
        match self {
            ParseError::Syntax(error) => error.message(),
            ParseError::StatementValidation(error) => error.message(),
        }
    }
}

/// The two words that open the definition of a table.
pub open spec fn create_table_words() -> Seq<TokenValueView> {
    seq![TokenValueView::Const(Keyword::Create), TokenValueView::Const(Keyword::Table)]
}

/// The three words that allow the table to exist already.
pub open spec fn if_not_exists_words() -> Seq<TokenValueView> {
    seq![
        TokenValueView::Const(Keyword::If),
        TokenValueView::Const(Keyword::Not),
        TokenValueView::Const(Keyword::Exists),
    ]
}

/// `IF NOT EXISTS`, or nothing. Behind `IF`, the other two words must follow.
pub open spec fn spec_if_not_exists(tokens: Seq<TokenView>) -> Parsed<bool> {
    if !at_end(tokens) && tokens[0].value == TokenValueView::Const(Keyword::If) {
        match spec_token_values_sequence(tokens, if_not_exists_words()) {
            Err(message) => Err(message),
            Ok((_, count)) => Ok((true, count)),
        }
    } else {
        Ok((false, 0))
    }
}

/// A whole statement: `CREATE TABLE`, `IF NOT EXISTS` if it is there, the
/// table, and the end of the statement.
pub open spec fn spec_create_table(tokens: Seq<TokenView>) -> Parsed<
    crate::sql::expects::TableDefinitionView,
> {
    match spec_token_values_sequence(tokens, create_table_words()) {
        Err(message) => Err(message),
        Ok((_, words)) => match spec_if_not_exists(tokens.skip(words as int)) {
            Err(message) => Err(message),
            Ok((_, condition)) => match spec_table_definition(
                tokens.skip((words + condition) as int),
            ) {
                Err(message) => Err(message),
                Ok((table, definition)) => match spec_end_of_statement(
                    tokens.skip((words + condition + definition) as int),
                ) {
                    Err(message) => Err(message),
                    Ok((_, end)) => Ok((table, words + condition + definition + end)),
                },
            },
        },
    }
}

/// What a statement text stands for: the table it defines, or why it is
/// refused. The text is split into tokens, the tokens are read as a
/// statement, and the table that was read is held to the rules of a table;
/// what fails first decides.
pub open spec fn spec_parse_statement(text: Seq<char>) -> Result<
    TableDefinitionView,
    ParseErrorView,
> {
    match spec_tokenize(text) {
        Err(message) => Err(ParseErrorView::Syntax(message)),
        Ok(tokens) => match spec_create_table(tokens) {
            Err(message) => Err(ParseErrorView::Syntax(message)),
            Ok((table, _)) => match validated_table(table.name, table.columns) {
                Err(message) => Err(ParseErrorView::StatementValidation(message)),
                Ok(valid) => Ok(valid),
            },
        },
    }
}

/// Whether `res` is what reading the statement text `text` gives.
pub open spec fn parses_to(text: Seq<char>, res: Result<TableDefinition, ParseError>) -> bool {
    match res {
        Ok(table) => spec_parse_statement(text) == Ok::<TableDefinitionView, ParseErrorView>(
            table@,
        ) && table.wf(),
        Err(error) => spec_parse_statement(text) == Err::<TableDefinitionView, ParseErrorView>(
            error@,
        ),
    }
}

/// Reading the same text twice gives the same: two tables of equal name,
/// columns and primary key, or two errors of equal kind and message.
pub proof fn lemma_parsing_is_repeatable(
    text: Seq<char>,
    first: Result<TableDefinition, ParseError>,
    second: Result<TableDefinition, ParseError>,
)
    requires
        parses_to(text, first),
        parses_to(text, second),
    ensures
        match (first, second) {
            (Ok(one), Ok(other)) => one@ == other@,
            (Err(one), Err(other)) => one@ == other@,
            _ => false,
        },
{
}

/// Takes `IF NOT EXISTS` if `IF` stands first, and nothing otherwise. The
/// outcome says whether the words were there.
pub fn expect_if_not_exists<'t>(tokens: &'t [Token]) -> (res: ExpectResult<'t, bool>)
    ensures
        yields(res, tokens, spec_if_not_exists(tokens.deep_view())),
{
    let conditional = tokens.len() > 0 && match &tokens[0].value {
        TokenValue::Const(Keyword::If) => true,
        _ => false,
    };
    if conditional {
        let words = [
            TokenValue::Const(Keyword::If),
            TokenValue::Const(Keyword::Not),
            TokenValue::Const(Keyword::Exists),
        ];
        let words = words.as_slice();
        assert(words.deep_view() =~= if_not_exists_words());
        match expect_token_values_sequence(tokens, words) {
            Err(error) => Err(error),
            Ok(ok) => Ok(
                ExpectOk {
                    rest: ok.rest,
                    tokens_consumed_count: ok.tokens_consumed_count,
                    outcome: true,
                },
            ),
        }
    } else {
        Ok(ExpectOk { rest: rest_after(tokens, 0), tokens_consumed_count: 0, outcome: false })
    }
}

/// Takes a whole statement that defines a table, up to its end.
pub fn expect_create_table<'t>(tokens: &'t [Token]) -> (res: ExpectResult<
    't,
    crate::sql::expects::TableDefinition,
>)
    ensures
        yields(res, tokens, spec_create_table(tokens.deep_view())),
{
    let words = [TokenValue::Const(Keyword::Create), TokenValue::Const(Keyword::Table)];
    let words = words.as_slice();
    assert(words.deep_view() =~= create_table_words());
    let ExpectOk { rest, tokens_consumed_count: words_count, .. } =
        match expect_token_values_sequence(tokens, words) {
        Err(error) => {
            return Err(error);
        },
        Ok(ok) => ok,
    };
    proof {
        lemma_rest_views(tokens, rest, words_count as int);
    }
    let ExpectOk { rest, tokens_consumed_count: condition_count, .. } =
        match expect_if_not_exists(rest) {
        Err(error) => {
            return Err(error);
        },
        Ok(ok) => ok,
    };
    proof {
        assert(words_count + condition_count <= tokens.len());
        assert(tokens@.skip(words_count as int).skip(condition_count as int) =~= tokens@.skip(
            words_count + condition_count,
        ));
        lemma_rest_views(tokens, rest, words_count + condition_count);
    }
    let ExpectOk { rest, tokens_consumed_count: definition_count, outcome: table } =
        match expect_table_definition(rest) {
        Err(error) => {
            return Err(error);
        },
        Ok(ok) => ok,
    };
    proof {
        assert(tokens@.skip(words_count + condition_count).skip(definition_count as int)
            =~= tokens@.skip(words_count + condition_count + definition_count));
        lemma_rest_views(tokens, rest, words_count + condition_count + definition_count);
    }
    let ExpectOk { rest, tokens_consumed_count: end_count, .. } = match expect_end_of_statement(
        rest,
    ) {
        Err(error) => {
            return Err(error);
        },
        Ok(ok) => ok,
    };
    proof {
        assert(tokens@.skip(words_count + condition_count + definition_count).skip(
            end_count as int,
        ) =~= tokens@.skip(words_count + condition_count + definition_count + end_count));
    }
    Ok(
        ExpectOk {
            rest,
            tokens_consumed_count: words_count + condition_count + definition_count + end_count,
            outcome: table,
        },
    )
}

/// Holds a table as it was written to the rules of a table, and hands back
/// the table with its primary key found, or the first rule that it breaks.
/// The written table is left as it was.
pub fn validate_table_definition(table: &crate::sql::expects::TableDefinition) -> (res: Result<
    TableDefinition,
    StatementValidationError,
>)
    ensures
        match res {
            Ok(valid) => {
                &&& validated_table(table@.name, table@.columns) == Ok::<
                    TableDefinitionView,
                    Seq<char>,
                >(valid@)
                &&& valid.wf()
            },
            Err(error) => validated_table(table@.name, table@.columns) == Err::<
                TableDefinitionView,
                Seq<char>,
            >(error@),
        },
{
    let mut columns: Vec<ColumnDefinition> = Vec::new();
    let mut column_index: usize = 0;
    while column_index < table.columns.len()
        invariant
            column_index <= table.columns.len(),
            columns.deep_view() == table.columns.deep_view().take(column_index as int),
        decreases table.columns.len() - column_index,
    {
        let written = &table.columns[column_index];
        let ghost before = columns.deep_view();
        let column = ColumnDefinition {
            name: written.name.clone(),
            data_type: written.data_type,
            primary_key: written.primary_key,
        };
        columns.push(column);
        column_index += 1;
        assert(columns.deep_view() =~= before.push(written@));
    }
    assert(columns.deep_view() =~= table.columns.deep_view());
    match TableDefinition::validated(table.name.clone(), columns) {
        Err(problem) => Err(StatementValidationError(problem)),
        Ok(valid) => Ok(valid),
    }
}

/// Reads a statement text: splits it into tokens, reads the tokens as the
/// definition of a table, and holds that table to the rules of a table.
pub fn parse_statement(text: &str) -> (res: Result<TableDefinition, ParseError>)
    ensures
        parses_to(text@, res),
{
    let tokens = match tokenize(text) {
        Err(error) => {
            return Err(ParseError::Syntax(error));
        },
        Ok(tokens) => tokens,
    };
    let written = match expect_create_table(tokens.as_slice()) {
        Err(error) => {
            return Err(ParseError::Syntax(error));
        },
        Ok(ok) => ok.outcome,
    };
    match validate_table_definition(&written) {
        Err(error) => Err(ParseError::StatementValidation(error)),
        Ok(table) => Ok(table),
    }
}

} // verus!
