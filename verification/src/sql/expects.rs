//! The rules that read tokens: each takes a slice of tokens and hands back
//! what it read, how many tokens it took and the tokens it left, or the error
//! that says what it expected. Small rules for single tokens, rules that
//! build on other rules, and the rules for the definition of a table.

use crate::constructs::components::{ColumnDefinitionView, DataType};
use crate::sql::errors::SyntaxError;
use crate::sql::tokenizer::{
    token_text, value_text, Delimiter, Keyword, Token, TokenValue, TokenValueView, TokenView,
};
use vstd::prelude::*;

verus! {

/// What a rule hands back when the start of the tokens has the shape it
/// asks for: the tokens it left, how many it took, and what it read.
#[derive(Debug, PartialEq, Eq)]
pub struct ExpectOk<'t, O> {
    pub rest: &'t [Token],
    pub tokens_consumed_count: usize,
    pub outcome: O,
}

/// What a rule hands back: its success, or the error that says what it
/// expected and what it found.
pub type ExpectResult<'t, O> = Result<ExpectOk<'t, O>, SyntaxError>;

/// What a rule makes of a token sequence: what it reads and how many tokens
/// it takes for that, or the message of its failure.
pub type Parsed<V> = Result<(V, nat), Seq<char>>;

/// Whether `res`, given for `tokens`, is what `parsed` says: the same reading
/// and count with the tokens behind them left over, or the same message.
pub open spec fn yields<'t, O: DeepView>(
    res: ExpectResult<'t, O>,
    tokens: &'t [Token],
    parsed: Parsed<O::V>,
) -> bool {
    match res {
        Ok(ok) => {
            &&& parsed == Ok::<(O::V, nat), Seq<char>>(
                (ok.outcome.deep_view(), ok.tokens_consumed_count as nat),
            )
            &&& ok.tokens_consumed_count <= tokens@.len()
            &&& ok.rest@ == tokens@.skip(ok.tokens_consumed_count as int)
        },
        Err(error) => parsed == Err::<(O::V, nat), Seq<char>>(error@),
    }
}

/// What a rule makes of the tokens behind the first `count`, told of all the
/// tokens: its count is larger by `count`.
pub open spec fn later<V>(count: nat, parsed: Parsed<V>) -> Parsed<V> {
    match parsed {
        Ok((value, more)) => Ok((value, count + more)),
        Err(message) => Err(message),
    }
}

/// Whether the statement ends here: no token is left, or the next one is the
/// semicolon that ends a statement.
pub open spec fn at_end(tokens: Seq<TokenView>) -> bool {
    tokens.len() == 0 || tokens[0].value == TokenValueView::Delimiting(Delimiter::Semicolon)
}

/// How a message names what stands at the start of the tokens.
pub open spec fn found_text(tokens: Seq<TokenView>) -> Seq<char> {
    if at_end(tokens) {
        "end of statement"@
    } else {
        token_text(tokens[0])
    }
}

/// The message of a rule that expected one thing and found another.
pub open spec fn expected_message(expected: Seq<char>, tokens: Seq<TokenView>) -> Seq<char> {
    "Expected "@ + expected + ", instead found "@ + found_text(tokens) + "."@
}

/// A text between backticks.
pub open spec fn quoted(text: Seq<char>) -> Seq<char> {
    "`"@ + text + "`"@
}

/// One token of the expected value, which is not the end of the statement.
pub open spec fn spec_token_value(tokens: Seq<TokenView>, expected: TokenValueView) -> Parsed<()> {
    if !at_end(tokens) && tokens[0].value == expected {
        Ok(((), 1))
    } else {
        Err(expected_message(quoted(value_text(expected)), tokens))
    }
}

/// The expected values one after the other. The first token that differs
/// gives the message.
pub open spec fn spec_token_values_sequence(
    tokens: Seq<TokenView>,
    expected: Seq<TokenValueView>,
) -> Parsed<()>
    decreases expected.len(),
{
    if expected.len() == 0 {
        Ok(((), 0))
    } else {
        match spec_token_value(tokens, expected[0]) {
            Err(message) => Err(message),
            Ok(_) => match spec_token_values_sequence(tokens.skip(1), expected.skip(1)) {
                Err(message) => Err(message),
                Ok((_, count)) => Ok(((), 1 + count)),
            },
        }
    }
}

/// One word of the user's: a table or column name.
pub open spec fn spec_identifier(tokens: Seq<TokenView>) -> Parsed<Seq<char>> {
    if at_end(tokens) {
        Err(expected_message("an identifier"@, tokens))
    } else {
        match tokens[0].value {
            TokenValueView::Arbitrary(word) => Ok((word, 1)),
            _ => Err(expected_message("an identifier"@, tokens)),
        }
    }
}

/// The message about tokens behind the semicolon.
pub open spec fn tokens_after_semicolon_message() -> Seq<char> {
    "Found tokens after a semicolon! Only a single statement at once can be provided."@
}

/// The end of the statement: no token at all, or one semicolon and nothing
/// behind it.
pub open spec fn spec_end_of_statement(tokens: Seq<TokenView>) -> Parsed<()> {
    if tokens.len() == 0 {
        Ok(((), 0))
    } else if tokens[0].value == TokenValueView::Delimiting(Delimiter::Semicolon) {
        if tokens.len() > 1 {
            Err(tokens_after_semicolon_message())
        } else {
            Ok(((), 1))
        }
    } else {
        Err(expected_message("no more tokens or a semicolon"@, tokens))
    }
}

/// The views of the tokens behind the first `count` are the views of all the
/// tokens without their first `count`.
pub proof fn lemma_rest_views(tokens: &[Token], rest: &[Token], count: int)
    requires
        0 <= count <= tokens@.len(),
        rest@ == tokens@.skip(count),
    ensures
        rest.deep_view() == tokens.deep_view().skip(count),
{
}

/// Whether the token is the semicolon that ends a statement.
fn is_terminator(token: &Token) -> (terminator: bool)
    ensures
        terminator == (token@.value == TokenValueView::Delimiting(Delimiter::Semicolon)),
{
    match &token.value {
        TokenValue::Delimiting(Delimiter::Semicolon) => true,
        _ => false,
    }
}

/// Whether the statement ends at the start of `tokens`.
fn is_at_end(tokens: &[Token]) -> (end: bool)
    ensures
        end == at_end(tokens.deep_view()),
{
    tokens.len() == 0 || is_terminator(&tokens[0])
}

/// The error of a rule that expected `expected` at the start of `tokens`.
fn expectation_failed(expected: &str, tokens: &[Token]) -> (error: SyntaxError)
    ensures
        error@ == expected_message(expected@, tokens.deep_view()),
{
    let mut message = String::new();
    message.append("Expected ");
    message.append(expected);
    message.append(", instead found ");
    if is_at_end(tokens) {
        message.append("end of statement");
    } else {
        tokens[0].write_to(&mut message);
    }
    message.append(".");
    SyntaxError(message)
}

/// The tokens behind the first `count`.
pub(crate) fn rest_after<'t>(tokens: &'t [Token], count: usize) -> (rest: &'t [Token])
    requires
        count <= tokens@.len(),
    ensures
        rest@ == tokens@.skip(count as int),
        rest.deep_view() == tokens.deep_view().skip(count as int),
{
    let rest = vstd::slice::slice_subrange(tokens, count, tokens.len());
    proof {
        lemma_rest_views(tokens, rest, count as int);
    }
    rest
}

// Generic expects

/// Takes one token if it has the expected value. The end of the statement,
/// a semicolon too, never has it.
pub fn expect_token_value<'t>(tokens: &'t [Token], expected_token_value: &TokenValue) -> (res:
    ExpectResult<'t, ()>)
    ensures
        yields(res, tokens, spec_token_value(tokens.deep_view(), expected_token_value@)),
{
    if !is_at_end(tokens) && tokens[0].value == *expected_token_value {
        Ok(ExpectOk { rest: rest_after(tokens, 1), tokens_consumed_count: 1, outcome: () })
    } else {
        let mut expected = String::new();
        expected.append("`");
        expected_token_value.write_to(&mut expected);
        expected.append("`");
        Err(expectation_failed(expected.as_str(), tokens))
    }
}

/// Takes one token for each expected value, in order. Fails at the first
/// token that differs, with the message for that value alone.
pub fn expect_token_values_sequence<'t>(
    tokens: &'t [Token],
    expected_token_values: &[TokenValue],
) -> (res: ExpectResult<'t, ()>)
    ensures
        yields(
            res,
            tokens,
            spec_token_values_sequence(tokens.deep_view(), expected_token_values.deep_view()),
        ),
{
    let ghost all = tokens.deep_view();
    let ghost values = expected_token_values.deep_view();
    let mut token_index: usize = 0;
    assert(all.skip(0) =~= all && values.skip(0) =~= values);
    while token_index < expected_token_values.len()
        invariant
            token_index <= expected_token_values.len(),
            token_index <= tokens@.len(),
            all == tokens.deep_view(),
            values == expected_token_values.deep_view(),
            spec_token_values_sequence(all, values) == later(
                token_index as nat,
                spec_token_values_sequence(
                    all.skip(token_index as int),
                    values.skip(token_index as int),
                ),
            ),
        decreases expected_token_values.len() - token_index,
    {
        let rest = rest_after(tokens, token_index);
        proof {
            assert(values.skip(token_index as int).skip(1) =~= values.skip(token_index + 1));
        }
        match expect_token_value(rest, &expected_token_values[token_index]) {
            Err(error) => {
                return Err(error);
            },
            Ok(_) => {
                assert(all.skip(token_index as int).skip(1) =~= all.skip(token_index + 1));
            },
        }
        token_index += 1;
    }
    let tokens_consumed_count = expected_token_values.len();
    Ok(ExpectOk { rest: rest_after(tokens, tokens_consumed_count), tokens_consumed_count, outcome: () })
}

/// Takes one token if it is a word of the user's, and hands back the word.
pub fn expect_identifier<'t>(tokens: &'t [Token]) -> (res: ExpectResult<'t, String>)
    ensures
        yields(res, tokens, spec_identifier(tokens.deep_view())),
{
    if is_at_end(tokens) {
        return Err(expectation_failed("an identifier", tokens));
    }
    match &tokens[0].value {
        TokenValue::Arbitrary(value) => Ok(
            ExpectOk { rest: rest_after(tokens, 1), tokens_consumed_count: 1, outcome: value.clone() },
        ),
        _ => Err(expectation_failed("an identifier", tokens)),
    }
}

/// Takes the end of the statement: nothing where no token is left, one
/// semicolon where it is the last token.
pub fn expect_end_of_statement<'t>(tokens: &'t [Token]) -> (res: ExpectResult<'t, ()>)
    ensures
        yields(res, tokens, spec_end_of_statement(tokens.deep_view())),
{
    if tokens.len() == 0 {
        Ok(ExpectOk { rest: rest_after(tokens, 0), tokens_consumed_count: 0, outcome: () })
    } else if is_terminator(&tokens[0]) {
        if tokens.len() > 1 {
            Err(
                SyntaxError(
                    "Found tokens after a semicolon! Only a single statement at once can be provided.".to_owned(),
                ),
            )
        } else {
            Ok(ExpectOk { rest: rest_after(tokens, 1), tokens_consumed_count: 1, outcome: () })
        }
    } else {
        Err(expectation_failed("no more tokens or a semicolon", tokens))
    }
}

/// Whether the token at `index` has the given value, which is not the
/// semicolon that ends a statement.
pub open spec fn token_is(tokens: Seq<TokenView>, index: int, value: TokenValueView) -> bool {
    &&& 0 <= index < tokens.len()
    &&& tokens[index].value == value
    &&& value != TokenValueView::Delimiting(Delimiter::Semicolon)
}

/// Where each expected value meets its token, the sequence is taken whole:
/// the count is the number of expected values. Where the tokens are as many
/// as the values, none is left.
pub proof fn lemma_sequence_of_equal_tokens(tokens: Seq<TokenView>, expected: Seq<TokenValueView>)
    requires
        forall|i: int| 0 <= i < expected.len() ==> token_is(tokens, i, #[trigger] expected[i]),
    ensures
        spec_token_values_sequence(tokens, expected) == Ok::<((), nat), Seq<char>>(
            ((), expected.len()),
        ),
        tokens.len() == expected.len() ==> tokens.skip(expected.len() as int).len() == 0,
    decreases expected.len(),
{
    if expected.len() > 0 {
        assert forall|i: int| 0 <= i < expected.skip(1).len() implies token_is(
            tokens.skip(1),
            i,
            #[trigger] expected.skip(1)[i],
        ) by {
            assert(token_is(tokens, i + 1, expected[i + 1]));
        }
        lemma_sequence_of_equal_tokens(tokens.skip(1), expected.skip(1));
    }
}

/// The sequence fails at the first token that differs from its expected
/// value, and the message speaks of that value and that token only, whatever
/// stands behind them.
pub proof fn lemma_sequence_fails_at_first_mismatch(
    tokens: Seq<TokenView>,
    expected: Seq<TokenValueView>,
    index: int,
)
    requires
        0 <= index < expected.len(),
        forall|i: int| 0 <= i < index ==> token_is(tokens, i, #[trigger] expected[i]),
        !token_is(tokens, index, expected[index]),
    ensures
        spec_token_values_sequence(tokens, expected) == Err::<((), nat), Seq<char>>(
            expected_message(quoted(value_text(expected[index])), tokens.skip(index)),
        ),
    decreases index,
{
    if index > 0 {
        assert forall|i: int| 0 <= i < index - 1 implies token_is(
            tokens.skip(1),
            i,
            #[trigger] expected.skip(1)[i],
        ) by {
            assert(token_is(tokens, i + 1, expected[i + 1]));
        }
        assert(token_is(tokens, index - 1, expected[index - 1]));
        lemma_sequence_fails_at_first_mismatch(tokens.skip(1), expected.skip(1), index - 1);
    }
}

/// Whether the rule can be handed any tokens.
pub open spec fn rule_is_total<'t, O, F: Fn(&'t [Token]) -> ExpectResult<'t, O>>(rule: F) -> bool {
    forall|given: &'t [Token]| #[trigger] call_requires(rule, (given,))
}

/// Whether what the rule hands back on success fits the tokens it was given:
/// it took no more tokens than there were, and left those behind them.
pub open spec fn rule_is_sound<'t, O, F: Fn(&'t [Token]) -> ExpectResult<'t, O>>(rule: F) -> bool {
    forall|given: &'t [Token], answer: ExpectResult<'t, O>| #[trigger]
        call_ensures(rule, (given,), answer) ==> result_is_sound(answer, given)
}

/// Whether a success took no more tokens than it was given, and left those
/// behind them.
pub open spec fn result_is_sound<'t, O>(res: ExpectResult<'t, O>, tokens: &'t [Token]) -> bool {
    res matches Ok(ok) ==> {
        &&& ok.tokens_consumed_count <= tokens@.len()
        &&& ok.rest@ == tokens@.skip(ok.tokens_consumed_count as int)
    }
}

/// Whether the rule computes `model`: whatever tokens it is given, it hands
/// back what `model` says of them.
pub open spec fn rule_computes<'t, O: DeepView, F: Fn(&'t [Token]) -> ExpectResult<'t, O>>(
    rule: F,
    model: spec_fn(Seq<TokenView>) -> Parsed<O::V>,
) -> bool {
    forall|given: &'t [Token], answer: ExpectResult<'t, O>| #[trigger]
        call_ensures(rule, (given,), answer) ==> yields(answer, given, model(given.deep_view()))
}

/// Whether the rule may hand back `answer` when it is given `tokens`.
pub open spec fn rule_gives<'t, O, F: Fn(&'t [Token]) -> ExpectResult<'t, O>>(
    rule: F,
    tokens: Seq<Token>,
    answer: ExpectResult<'t, O>,
) -> bool {
    exists|given: &'t [Token]| given@ == tokens && #[trigger] call_ensures(rule, (given,), answer)
}

/// The opening parenthesis.
pub open spec fn opening() -> TokenValueView {
    TokenValueView::Delimiting(Delimiter::ParenthesisOpening)
}

/// The closing parenthesis.
pub open spec fn closing() -> TokenValueView {
    TokenValueView::Delimiting(Delimiter::ParenthesisClosing)
}

/// Whether a comma stands at `position`.
pub open spec fn comma_at(tokens: Seq<TokenView>, position: nat) -> bool {
    position < tokens.len() && tokens[position as int].value == TokenValueView::Delimiting(
        Delimiter::Comma,
    )
}

/// Whether `res` is what enclosing makes of the answer that the rule gave
/// behind the opening parenthesis: the rule's failure; or the failure to find
/// the closing parenthesis behind what the rule took; or the rule's outcome,
/// with both parentheses counted and the tokens behind the closing one left.
pub open spec fn encloses<'t, O>(res: ExpectResult<'t, O>, inside: ExpectResult<'t, O>) -> bool {
    match inside {
        Err(error) => res == Err::<ExpectOk<'t, O>, SyntaxError>(error),
        Ok(inner) => match spec_token_value(inner.rest.deep_view(), closing()) {
            Err(message) => res matches Err(error) && error@ == message,
            Ok(_) => {
                &&& res matches Ok(ok)
                &&& ok.outcome == inner.outcome
                &&& ok.tokens_consumed_count == inner.tokens_consumed_count + 2
                &&& ok.rest@ == inner.rest@.skip(1)
            },
        },
    }
}

/// How many tokens an answer took: none, where it is a failure.
pub open spec fn taken<'t, O>(answer: ExpectResult<'t, O>) -> nat {
    match answer {
        Ok(ok) => ok.tokens_consumed_count as nat,
        Err(_) => 0,
    }
}

/// How many tokens the first `count` answers took, with one comma behind
/// each of them.
pub open spec fn taken_before<'t, O>(answers: Seq<ExpectResult<'t, O>>, count: int) -> nat
    decreases count,
{
    if count <= 0 {
        0
    } else {
        taken_before(answers, count - 1) + taken(answers[count - 1]) + 1
    }
}

/// Whether answer `i` has its place in the reading of a list: the rule may
/// give it for the tokens behind the answers before it and their commas; if
/// it is not the last answer, it is a success with a comma behind it; if it
/// is the last and a success, no comma stands behind it.
pub open spec fn answer_fits<'t, O, F: Fn(&'t [Token]) -> ExpectResult<'t, O>>(
    rule: F,
    tokens: &'t [Token],
    answers: Seq<ExpectResult<'t, O>>,
    i: int,
    last: bool,
) -> bool {
    let start = taken_before(answers, i);
    let end = start + taken(answers[i]);
    &&& start <= tokens@.len()
    &&& rule_gives(rule, tokens@.skip(start as int), answers[i])
    &&& if last {
        answers[i] is Ok ==> !comma_at(tokens.deep_view(), end)
    } else {
        answers[i] is Ok && comma_at(tokens.deep_view(), end)
    }
}

/// Whether the answers are what the rule gave, one after the other, in the
/// reading of a list.
pub open spec fn reads_list<'t, O, F: Fn(&'t [Token]) -> ExpectResult<'t, O>>(
    rule: F,
    tokens: &'t [Token],
    answers: Seq<ExpectResult<'t, O>>,
) -> bool {
    &&& answers.len() > 0
    &&& forall|i: int|
        0 <= i < answers.len() - 1 ==> #[trigger] answer_fits(rule, tokens, answers, i, false)
    &&& answer_fits(rule, tokens, answers, answers.len() - 1, true)
}

/// The outcomes of answers that are successes, in their order.
pub open spec fn outcomes_of<'t, O>(answers: Seq<ExpectResult<'t, O>>) -> Seq<O> {
    Seq::new(answers.len(), |i: int| answers[i]->Ok_0.outcome)
}

/// Whether `res` is what a list makes of the answers that the rule gave:
/// the failure of the last answer; or the outcomes of all answers in their
/// order, with the tokens of all of them and of the commas between them
/// counted, and the tokens behind the last element left.
pub open spec fn lists<'t, O>(
    res: ExpectResult<'t, Vec<O>>,
    tokens: &'t [Token],
    answers: Seq<ExpectResult<'t, O>>,
) -> bool {
    match answers.last() {
        Err(error) => res matches Err(failure) && failure == error,
        Ok(last) => {
            &&& res matches Ok(ok)
            &&& ok.outcome@ == outcomes_of(answers)
            &&& ok.tokens_consumed_count == taken_before(answers, answers.len() - 1)
                + last.tokens_consumed_count
            &&& ok.tokens_consumed_count <= tokens@.len()
            &&& ok.rest@ == tokens@.skip(ok.tokens_consumed_count as int)
        },
    }
}

/// What the first answers took does not depend on the answers behind them.
pub proof fn lemma_taken_before_prefix<'t, O>(
    answers: Seq<ExpectResult<'t, O>>,
    longer: Seq<ExpectResult<'t, O>>,
    count: int,
)
    requires
        count <= answers.len() <= longer.len(),
        forall|i: int| 0 <= i < answers.len() ==> answers[i] == longer[i],
    ensures
        taken_before(answers, count) == taken_before(longer, count),
    decreases count,
{
    if count > 0 {
        lemma_taken_before_prefix(answers, longer, count - 1);
    }
}

/// An opening parenthesis, what `inside` reads behind it, and a closing
/// parenthesis behind that. The count includes both parentheses.
pub open spec fn spec_enclosed<V>(
    inside: spec_fn(Seq<TokenView>) -> Parsed<V>,
    tokens: Seq<TokenView>,
) -> Parsed<V> {
    match spec_token_value(tokens, opening()) {
        Err(message) => Err(message),
        Ok(_) => match inside(tokens.skip(1)) {
            Err(message) => Err(message),
            Ok((value, count)) => match spec_token_value(tokens.skip(1 + count as int), closing()) {
                Err(message) => Err(message),
                Ok(_) => Ok((value, count + 2)),
            },
        },
    }
}

/// Elements already read, put in front of what the rest of the list gives.
pub open spec fn listed_then<V>(found: Seq<V>, count: nat, rest: Parsed<Seq<V>>) -> Parsed<
    Seq<V>,
> {
    match rest {
        Ok((more, further)) => Ok((found + more, count + further)),
        Err(message) => Err(message),
    }
}

/// One element after the other as `element` reads them, with one comma
/// between two of them. The list ends behind the first element that no comma
/// follows; behind a comma an element must stand.
pub open spec fn spec_comma_separated<V>(
    element: spec_fn(Seq<TokenView>) -> Parsed<V>,
    tokens: Seq<TokenView>,
) -> Parsed<Seq<V>>
    decreases tokens.len(),
{
    match element(tokens) {
        Err(message) => Err(message),
        Ok((value, count)) => {
            if comma_at(tokens, count) {
                listed_then(
                    seq![value],
                    count + 1,
                    spec_comma_separated(element, tokens.skip(count as int + 1)),
                )
            } else {
                Ok((seq![value], count))
            }
        },
    }
}

/// Whether element `i` stands in the tokens as told: it starts at
/// `starts[i]`, `element` reads it as `values[i]` over `widths[i]` tokens,
/// and if it is not the last, one comma stands between it and the next.
pub open spec fn element_stands<V>(
    element: spec_fn(Seq<TokenView>) -> Parsed<V>,
    tokens: Seq<TokenView>,
    values: Seq<V>,
    widths: Seq<nat>,
    starts: Seq<int>,
    i: int,
) -> bool {
    &&& element(tokens.skip(starts[i])) == Ok::<(V, nat), Seq<char>>((values[i], widths[i]))
    &&& i + 1 < values.len() ==> {
        &&& comma_at(tokens, (starts[i] + widths[i]) as nat)
        &&& starts[i + 1] == starts[i] + widths[i] + 1
    }
}

/// Whether the given elements stand in the tokens one after the other, the
/// first at the start, with one comma between two of them.
pub open spec fn elements_listed<V>(
    element: spec_fn(Seq<TokenView>) -> Parsed<V>,
    tokens: Seq<TokenView>,
    values: Seq<V>,
    widths: Seq<nat>,
    starts: Seq<int>,
) -> bool {
    &&& values.len() == widths.len()
    &&& values.len() == starts.len()
    &&& values.len() > 0 ==> starts[0] == 0
    &&& forall|i: int|
        0 <= i < values.len() ==> #[trigger] element_stands(
            element,
            tokens,
            values,
            widths,
            starts,
            i,
        )
}

/// The sum of the widths.
pub open spec fn total_width(widths: Seq<nat>) -> nat
    decreases widths.len(),
{
    if widths.len() == 0 {
        0
    } else {
        total_width(widths.drop_last()) + widths.last()
    }
}

/// Reading elements that stand one after the other comes to reading the
/// last of them where it starts, with the others put in front.
proof fn lemma_list_up_to_last<V>(
    element: spec_fn(Seq<TokenView>) -> Parsed<V>,
    tokens: Seq<TokenView>,
    values: Seq<V>,
    widths: Seq<nat>,
    starts: Seq<int>,
)
    requires
        values.len() >= 1,
        elements_listed(element, tokens, values, widths, starts),
    ensures
        0 <= starts.last() <= tokens.len(),
        starts.last() == total_width(widths.drop_last()) + values.len() - 1,
        spec_comma_separated(element, tokens) == listed_then(
            values.drop_last(),
            starts.last() as nat,
            spec_comma_separated(element, tokens.skip(starts.last())),
        ),
    decreases values.len(),
{
    let rest = spec_comma_separated(element, tokens.skip(starts.last()));
    if values.len() == 1 {
        assert(tokens.skip(0) =~= tokens);
    } else {
        let n = values.len() as int;
        let start = starts[n - 2];
        let width = widths[n - 2];
        assert forall|i: int| 0 <= i < n - 1 implies #[trigger] element_stands(
            element,
            tokens,
            values.drop_last(),
            widths.drop_last(),
            starts.drop_last(),
            i,
        ) by {
            assert(element_stands(element, tokens, values, widths, starts, i));
        }
        lemma_list_up_to_last(
            element,
            tokens,
            values.drop_last(),
            widths.drop_last(),
            starts.drop_last(),
        );
        assert(element_stands(element, tokens, values, widths, starts, n - 2));
        let here = tokens.skip(start);
        assert(here.skip(width as int + 1) =~= tokens.skip(starts.last()));
        if let Ok((more, _)) = rest {
            assert(values.drop_last().drop_last() + (seq![values[n - 2]] + more)
                =~= values.drop_last() + more);
        }
    }
}

/// Elements that stand one after the other, with one comma between two of
/// them and none behind the last, are read as a list: the outcome holds all
/// of them in their order, and the count is the sum of their widths and one
/// for each comma.
pub proof fn lemma_comma_separated_list<V>(
    element: spec_fn(Seq<TokenView>) -> Parsed<V>,
    tokens: Seq<TokenView>,
    values: Seq<V>,
    widths: Seq<nat>,
    starts: Seq<int>,
)
    requires
        values.len() >= 1,
        elements_listed(element, tokens, values, widths, starts),
        !comma_at(tokens, (starts.last() + widths.last()) as nat),
    ensures
        spec_comma_separated(element, tokens) == Ok::<(Seq<V>, nat), Seq<char>>(
            (values, (total_width(widths) + values.len() - 1) as nat),
        ),
{
    lemma_list_up_to_last(element, tokens, values, widths, starts);
    assert(element_stands(element, tokens, values, widths, starts, values.len() - 1));
    assert(values.drop_last() + seq![values.last()] =~= values);
}

/// A comma behind the last element asks for one more element: where none
/// can be read there, the list fails with the message of that reading. So a
/// list with a trailing comma is refused.
pub proof fn lemma_comma_separated_needs_element_behind_comma<V>(
    element: spec_fn(Seq<TokenView>) -> Parsed<V>,
    tokens: Seq<TokenView>,
    values: Seq<V>,
    widths: Seq<nat>,
    starts: Seq<int>,
    message: Seq<char>,
)
    requires
        values.len() >= 1,
        elements_listed(element, tokens, values, widths, starts),
        comma_at(tokens, (starts.last() + widths.last()) as nat),
        element(tokens.skip(starts.last() + widths.last() + 1)) == Err::<(V, nat), Seq<char>>(
            message,
        ),
    ensures
        spec_comma_separated(element, tokens) == Err::<(Seq<V>, nat), Seq<char>>(message),
{
    lemma_list_up_to_last(element, tokens, values, widths, starts);
    let n = values.len() as int;
    let here = tokens.skip(starts.last());
    assert(element_stands(element, tokens, values, widths, starts, n - 1));
    assert(here.skip(widths.last() as int + 1) =~= tokens.skip(
        starts.last() + widths.last() + 1,
    ));
    assert(spec_comma_separated(element, tokens.skip(starts.last() + widths.last() + 1))
        == Err::<(Seq<V>, nat), Seq<char>>(message));
}

/// Takes an opening parenthesis, what the given rule takes behind it, and a
/// closing parenthesis. The first failure of the three is the failure of the
/// whole; on success the outcome is the rule's, and both parentheses are
/// counted.
pub fn expect_enclosed<'t, O: DeepView, F: Fn(&'t [Token]) -> ExpectResult<'t, O>>(
    tokens: &'t [Token],
    expect_inside: F,
) -> (res: ExpectResult<'t, O>)
    requires
        rule_is_total(expect_inside),
        rule_is_sound(expect_inside),
    ensures
        result_is_sound(res, tokens),
        match spec_token_value(tokens.deep_view(), opening()) {
            Err(message) => res matches Err(error) && error@ == message,
            Ok(_) => exists|inside: ExpectResult<'t, O>|
                rule_gives(expect_inside, tokens@.skip(1), inside) && #[trigger] encloses(
                    res,
                    inside,
                ),
        },
        forall|inside: spec_fn(Seq<TokenView>) -> Parsed<O::V>| #[trigger]
            rule_computes(expect_inside, inside) ==> yields(
                res,
                tokens,
                spec_enclosed(inside, tokens.deep_view()),
            ),
{
    let behind_opening = match expect_token_value(
        tokens,
        &TokenValue::Delimiting(Delimiter::ParenthesisOpening),
    ) {
        Err(error) => {
            return Err(error);
        },
        Ok(ok) => ok.rest,
    };
    let answer = expect_inside(behind_opening);
    proof {
        lemma_rest_views(tokens, behind_opening, 1);
    }
    let ExpectOk { rest, tokens_consumed_count, outcome } = match answer {
        Err(error) => {
            assert(encloses(Err::<ExpectOk<'t, O>, SyntaxError>(error), answer));
            return Err(error);
        },
        Ok(ok) => ok,
    };
    proof {
        lemma_rest_views(behind_opening, rest, tokens_consumed_count as int);
        assert(tokens@.skip(1).skip(tokens_consumed_count as int) =~= tokens@.skip(
            1 + tokens_consumed_count,
        ));
    }
    let behind_closing = match expect_token_value(
        rest,
        &TokenValue::Delimiting(Delimiter::ParenthesisClosing),
    ) {
        Err(error) => {
            assert(encloses(Err::<ExpectOk<'t, O>, SyntaxError>(error), answer));
            return Err(error);
        },
        Ok(ok) => ok.rest,
    };
    proof {
        assert(tokens@.skip(1 + tokens_consumed_count).skip(1) =~= tokens@.skip(
            tokens_consumed_count + 2,
        ));
        assert(tokens_consumed_count + 2 <= tokens.len());
    }
    // Account for parentheses
    let tokens_consumed_count = tokens_consumed_count + 2;
    let enclosed = Ok(ExpectOk { rest: behind_closing, tokens_consumed_count, outcome });
    assert(encloses(enclosed, answer));
    enclosed
}

/// Takes one element after the other with the given rule, and a comma
/// between two of them. It stops, taking no more, where no comma follows an
/// element. A failure of the rule is the failure of the whole, so a comma
/// with no element behind it is refused.
pub fn expect_comma_separated<'t, O: DeepView, F: Fn(&'t [Token]) -> ExpectResult<'t, O>>(
    tokens: &'t [Token],
    expect_element: F,
) -> (res: ExpectResult<'t, Vec<O>>)
    requires
        rule_is_total(expect_element),
        rule_is_sound(expect_element),
    ensures
        result_is_sound(res, tokens),
        exists|answers: Seq<ExpectResult<'t, O>>|
            reads_list(expect_element, tokens, answers) && #[trigger] lists(res, tokens, answers),
        forall|element: spec_fn(Seq<TokenView>) -> Parsed<O::V>| #[trigger]
            rule_computes(expect_element, element) ==> yields(
                res,
                tokens,
                spec_comma_separated(element, tokens.deep_view()),
            ),
{
    let ghost all = tokens.deep_view();
    let ghost mut answers = Seq::<ExpectResult<'t, O>>::empty();
    let mut tokens_consumed_total_count: usize = 0;
    let mut outcomes = Vec::<O>::new();
    proof {
        assert(all.skip(0) =~= all);
        assert forall|element: spec_fn(Seq<TokenView>) -> Parsed<O::V>|
            spec_comma_separated(element, all) == listed_then(
                Seq::<O::V>::empty(),
                0,
                spec_comma_separated(element, all),
            ) by {
            if let Ok((more, _)) = spec_comma_separated(element, all) {
                assert(Seq::<O::V>::empty() + more =~= more);
            }
        }
    }
    loop
        invariant_except_break
            forall|element: spec_fn(Seq<TokenView>) -> Parsed<O::V>| #[trigger]
                rule_computes(expect_element, element) ==> spec_comma_separated(element, all)
                    == listed_then(
                    outcomes.deep_view(),
                    tokens_consumed_total_count as nat,
                    spec_comma_separated(element, all.skip(tokens_consumed_total_count as int)),
                ),
            outcomes@ == outcomes_of(answers),
            tokens_consumed_total_count == taken_before(answers, answers.len() as int),
            forall|i: int|
                0 <= i < answers.len() ==> #[trigger] answer_fits(
                    expect_element,
                    tokens,
                    answers,
                    i,
                    false,
                ),
        invariant
            all == tokens.deep_view(),
            tokens_consumed_total_count <= tokens.len(),
            rule_is_total(expect_element),
            rule_is_sound(expect_element),
        ensures
            reads_list(expect_element, tokens, answers),
            answers.last() is Ok,
            outcomes@ == outcomes_of(answers),
            tokens_consumed_total_count == taken_before(answers, answers.len() - 1) + taken(
                answers.last(),
            ),
            forall|element: spec_fn(Seq<TokenView>) -> Parsed<O::V>| #[trigger]
                rule_computes(expect_element, element) ==> spec_comma_separated(element, all)
                    == Ok::<(Seq<O::V>, nat), Seq<char>>(
                    (outcomes.deep_view(), tokens_consumed_total_count as nat),
                ),
        decreases tokens@.len() - tokens_consumed_total_count,
    {
        // Parse next element
        let ghost start = tokens_consumed_total_count;
        let ghost found = outcomes.deep_view();
        let ghost before = answers;
        let given = rest_after(tokens, tokens_consumed_total_count);
        let answer = expect_element(given);
        proof {
            answers = before.push(answer);
            let count = before.len() as int;
            assert forall|i: int| 0 <= i <= count implies taken_before(answers, i)
                == taken_before(before, i) by {
                lemma_taken_before_prefix(before, answers, i);
            }
            assert forall|i: int| 0 <= i < count implies #[trigger] answer_fits(
                expect_element,
                tokens,
                answers,
                i,
                false,
            ) by {
                assert(answer_fits(expect_element, tokens, before, i, false));
            }
        }
        let ExpectOk { tokens_consumed_count, outcome, .. } = match answer {
            Err(error) => {
                proof {
                    assert(lists(Err::<ExpectOk<'t, Vec<O>>, SyntaxError>(error), tokens, answers));
                }
                return Err(error);
            },
            Ok(ok) => ok,
        };
        let ghost value = outcome.deep_view();
        tokens_consumed_total_count += tokens_consumed_count;
        outcomes.push(outcome);
        assert(outcomes.deep_view() =~= found.push(value));
        // Check for the comma (trailing comma disallowed)
        let behind = rest_after(tokens, tokens_consumed_total_count);
        match expect_token_value(behind, &TokenValue::Delimiting(Delimiter::Comma)) {
            Err(_) => {
                proof {
                    assert forall|element: spec_fn(Seq<TokenView>) -> Parsed<O::V>| #[trigger]
                        rule_computes(expect_element, element) implies spec_comma_separated(
                        element,
                        all,
                    ) == Ok::<(Seq<O::V>, nat), Seq<char>>(
                        (outcomes.deep_view(), tokens_consumed_total_count as nat),
                    ) by {
                        assert(found + seq![value] =~= found.push(value));
                    }
                }
                // No comma behind this element: the list ends here
                break ;
            },
            Ok(_) => {
                tokens_consumed_total_count += 1;
                proof {
                    assert forall|element: spec_fn(Seq<TokenView>) -> Parsed<O::V>| #[trigger]
                        rule_computes(expect_element, element) implies spec_comma_separated(
                        element,
                        all,
                    ) == listed_then(
                        outcomes.deep_view(),
                        tokens_consumed_total_count as nat,
                        spec_comma_separated(
                            element,
                            all.skip(tokens_consumed_total_count as int),
                        ),
                    ) by {
                        let here = all.skip(start as int);
                        assert(here.skip(tokens_consumed_count + 1) =~= all.skip(
                            tokens_consumed_total_count as int,
                        ));
                        let rest = spec_comma_separated(
                            element,
                            all.skip(tokens_consumed_total_count as int),
                        );
                        if let Ok((more, _)) = rest {
                            assert(found + (seq![value] + more) =~= found.push(value) + more);
                        }
                    }
                }
            },
        }
    }
    let res = Ok(
        ExpectOk {
            rest: rest_after(tokens, tokens_consumed_total_count),
            tokens_consumed_count: tokens_consumed_total_count,
            outcome: outcomes,
        },
    );
    assert(lists(res, tokens, answers));
    res
}

// Semantic expects

/// A column as it was written: its name, its type, and whether it is marked
/// as the primary key.
#[derive(Debug, PartialEq, Eq)]
pub struct ColumnDefinition {
    pub name: String,
    pub data_type: DataType,
    pub primary_key: bool,
}

/// A table as it was written: its name and its columns in order.
#[derive(Debug, PartialEq, Eq)]
pub struct TableDefinition {
    pub name: String,
    pub columns: Vec<ColumnDefinition>,
}

/// A written table as a mathematical value.
pub struct TableDefinitionView {
    pub name: Seq<char>,
    pub columns: Seq<ColumnDefinitionView>,
}

impl View for ColumnDefinition {
    type V = ColumnDefinitionView;

    open spec fn view(&self) -> ColumnDefinitionView {
        ColumnDefinitionView {
            name: self.name@,
            data_type: self.data_type,
            primary_key: self.primary_key,
        }
    }
}

impl DeepView for ColumnDefinition {
    type V = ColumnDefinitionView;

    open spec fn deep_view(&self) -> ColumnDefinitionView {
        self@
    }
}

impl View for TableDefinition {
    type V = TableDefinitionView;

    open spec fn view(&self) -> TableDefinitionView {
        TableDefinitionView { name: self.name@, columns: self.columns.deep_view() }
    }
}

impl DeepView for TableDefinition {
    type V = TableDefinitionView;

    open spec fn deep_view(&self) -> TableDefinitionView {
        self@
    }
}

/// The two tokens that open a nullable type.
pub open spec fn nullable_prefix() -> Seq<TokenValueView> {
    seq![TokenValueView::Const(Keyword::Nullable), opening()]
}

/// A type, bare or between `NULLABLE(` and `)`.
pub open spec fn spec_data_type_wrapped(tokens: Seq<TokenView>) -> Parsed<DataType> {
    let is_nullable = spec_token_values_sequence(tokens, nullable_prefix()) is Ok;
    let behind = if is_nullable {
        tokens.skip(2)
    } else {
        tokens
    };
    let expected = if is_nullable {
        "a type"@
    } else {
        "a type or `NULLABLE(`"@
    };
    if at_end(behind) {
        Err(expected_message(expected, behind))
    } else {
        match behind[0].value {
            TokenValueView::Type(data_type) => {
                if is_nullable {
                    match spec_closing_parenthesis(tokens.skip(3)) {
                        Err(message) => Err(message),
                        Ok(_) => Ok((DataType { data_type, is_nullable }, 4)),
                    }
                } else {
                    Ok((DataType { data_type, is_nullable }, 1))
                }
            },
            _ => Err(expected_message(expected, behind)),
        }
    }
}

/// The parenthesis that closes a nullable type.
pub open spec fn spec_closing_parenthesis(tokens: Seq<TokenView>) -> Parsed<()> {
    if !at_end(tokens) && tokens[0].value == closing() {
        Ok(((), 1))
    } else {
        Err(expected_message("a closing parenthesis"@, tokens))
    }
}

/// The mark of a primary key, `PRIMARY KEY`, or nothing. Behind `PRIMARY`,
/// `KEY` must follow.
pub open spec fn spec_primary_key(tokens: Seq<TokenView>) -> Parsed<bool> {
    if !at_end(tokens) && tokens[0].value == TokenValueView::Const(Keyword::Primary) {
        match spec_token_value(tokens.skip(1), TokenValueView::Const(Keyword::Key)) {
            Err(message) => Err(message),
            Ok(_) => Ok((true, 2)),
        }
    } else {
        Ok((false, 0))
    }
}

/// A column: its name, its type, and the mark of a primary key if there is
/// one.
pub open spec fn spec_column_definition(tokens: Seq<TokenView>) -> Parsed<ColumnDefinitionView> {
    match spec_identifier(tokens) {
        Err(message) => Err(message),
        Ok((name, name_count)) => match spec_data_type_wrapped(tokens.skip(name_count as int)) {
            Err(message) => Err(message),
            Ok((data_type, type_count)) => match spec_primary_key(
                tokens.skip((name_count + type_count) as int),
            ) {
                Err(message) => Err(message),
                Ok((primary_key, key_count)) => Ok(
                    (
                        ColumnDefinitionView { name, data_type, primary_key },
                        name_count + type_count + key_count,
                    ),
                ),
            },
        },
    }
}

/// The rule for one column, as a function.
pub open spec fn column_rule() -> spec_fn(Seq<TokenView>) -> Parsed<ColumnDefinitionView> {
    |tokens: Seq<TokenView>| spec_column_definition(tokens)
}

/// The rule for the columns of a table, as a function: one column at least,
/// with commas between them.
pub open spec fn column_list_rule() -> spec_fn(Seq<TokenView>) -> Parsed<
    Seq<ColumnDefinitionView>,
> {
    |tokens: Seq<TokenView>| spec_comma_separated(column_rule(), tokens)
}

/// A table: its name, then its columns between parentheses.
pub open spec fn spec_table_definition(tokens: Seq<TokenView>) -> Parsed<TableDefinitionView> {
    match spec_identifier(tokens) {
        Err(message) => Err(message),
        Ok((name, name_count)) => match spec_enclosed(
            column_list_rule(),
            tokens.skip(name_count as int),
        ) {
            Err(message) => Err(message),
            Ok((columns, columns_count)) => Ok(
                (TableDefinitionView { name, columns }, name_count + columns_count),
            ),
        },
    }
}

/// The prefix of a nullable type is there where `NULLABLE` and an opening
/// parenthesis are the first two tokens.
pub proof fn lemma_nullable_prefix(tokens: Seq<TokenView>)
    ensures
        match spec_token_values_sequence(tokens, nullable_prefix()) {
            Ok((_, count)) => {
                &&& count == 2
                &&& tokens.len() >= 2
                &&& tokens[0].value == TokenValueView::Const(Keyword::Nullable)
                &&& tokens[1].value == opening()
            },
            Err(_) => {
                ||| tokens.len() < 2
                ||| tokens[0].value != TokenValueView::Const(Keyword::Nullable)
                ||| tokens[1].value != opening()
            },
        },
{
    reveal_with_fuel(spec_token_values_sequence, 3);
}

/// No column starts with a token that is not a word of the user's.
pub proof fn lemma_column_starts_with_identifier(tokens: Seq<TokenView>)
    requires
        at_end(tokens) || !(tokens[0].value is Arbitrary),
    ensures
        spec_column_definition(tokens) == Err::<(ColumnDefinitionView, nat), Seq<char>>(
            expected_message("an identifier"@, tokens),
        ),
{
}

/// Columns with a comma behind the last of them and a closing parenthesis
/// behind that comma are refused: a column was expected where the
/// parenthesis stands.
pub proof fn lemma_trailing_comma_is_refused(
    tokens: Seq<TokenView>,
    values: Seq<ColumnDefinitionView>,
    widths: Seq<nat>,
    starts: Seq<int>,
)
    requires
        values.len() >= 1,
        elements_listed(column_rule(), tokens, values, widths, starts),
        comma_at(tokens, (starts.last() + widths.last()) as nat),
        token_is(tokens, starts.last() + widths.last() + 1, closing()),
    ensures
        spec_comma_separated(column_rule(), tokens) == Err::<
            (Seq<ColumnDefinitionView>, nat),
            Seq<char>,
        >(expected_message("an identifier"@, tokens.skip(starts.last() + widths.last() + 1))),
{
    let behind = tokens.skip(starts.last() + widths.last() + 1);
    lemma_column_starts_with_identifier(behind);
    lemma_comma_separated_needs_element_behind_comma(
        column_rule(),
        tokens,
        values,
        widths,
        starts,
        expected_message("an identifier"@, behind),
    );
}

/// Takes a type: a type name alone, or a type name between `NULLABLE(` and
/// `)`.
pub fn expect_data_type_wrapped<'t>(tokens: &'t [Token]) -> (res: ExpectResult<'t, DataType>)
    ensures
        yields(res, tokens, spec_data_type_wrapped(tokens.deep_view())),
{
    let mut tokens_consumed_count: usize = 0;
    let mut is_nullable = false;
    let nullable_sequence = [
        TokenValue::Const(Keyword::Nullable),
        TokenValue::Delimiting(Delimiter::ParenthesisOpening),
    ];
    let nullable_values = nullable_sequence.as_slice();
    proof {
        assert(nullable_values.deep_view() =~= nullable_prefix());
        lemma_nullable_prefix(tokens.deep_view());
    }
    match expect_token_values_sequence(tokens, nullable_values) {
        Ok(_) => {
            tokens_consumed_count += nullable_sequence.len();
            is_nullable = true;
        },
        _ => (),
    };
    let behind = rest_after(tokens, tokens_consumed_count);
    let expected = if is_nullable {
        "a type"
    } else {
        "a type or `NULLABLE(`"
    };
    if is_at_end(behind) {
        return Err(expectation_failed(expected, behind));
    }
    let data_type = match &behind[0].value {
        TokenValue::Type(found_data_type) => {
            tokens_consumed_count += 1;
            *found_data_type
        },
        _ => {
            return Err(expectation_failed(expected, behind));
        },
    };
    if is_nullable {
        let last = rest_after(tokens, tokens_consumed_count);
        if is_at_end(last) {
            return Err(expectation_failed("a closing parenthesis", last));
        }
        match &last[0].value {
            TokenValue::Delimiting(Delimiter::ParenthesisClosing) => Ok(
                ExpectOk {
                    rest: rest_after(tokens, tokens_consumed_count + 1),
                    tokens_consumed_count: tokens_consumed_count + 1,
                    outcome: DataType { data_type, is_nullable },
                },
            ),
            _ => Err(expectation_failed("a closing parenthesis", last)),
        }
    } else {
        Ok(
            ExpectOk {
                rest: rest_after(tokens, tokens_consumed_count),
                tokens_consumed_count,
                outcome: DataType { data_type, is_nullable },
            },
        )
    }
}

/// Takes `PRIMARY KEY` if `PRIMARY` stands first, and nothing otherwise. The
/// outcome says whether the mark was there.
pub fn expect_primary_key<'t>(tokens: &'t [Token]) -> (res: ExpectResult<'t, bool>)
    ensures
        yields(res, tokens, spec_primary_key(tokens.deep_view())),
{
    let marked = !is_at_end(tokens) && match &tokens[0].value {
        TokenValue::Const(Keyword::Primary) => true,
        _ => false,
    };
    if marked {
        match expect_token_value(rest_after(tokens, 1), &TokenValue::Const(Keyword::Key)) {
            Err(error) => Err(error),
            Ok(ok) => {
                assert(tokens@.skip(1).skip(1) =~= tokens@.skip(2));
                Ok(ExpectOk { rest: ok.rest, tokens_consumed_count: 2, outcome: true })
            },
        }
    } else {
        Ok(ExpectOk { rest: rest_after(tokens, 0), tokens_consumed_count: 0, outcome: false })
    }
}

/// Takes a column: an identifier, a type, and `PRIMARY KEY` if it is there.
pub fn expect_column_definition<'t>(tokens: &'t [Token]) -> (res: ExpectResult<
    't,
    ColumnDefinition,
>)
    ensures
        yields(res, tokens, spec_column_definition(tokens.deep_view())),
{
    let ExpectOk { rest, tokens_consumed_count: tokens_consumed_count_name, outcome: name } =
        match expect_identifier(tokens) {
        Err(error) => {
            return Err(error);
        },
        Ok(ok) => ok,
    };
    proof {
        lemma_rest_views(tokens, rest, tokens_consumed_count_name as int);
    }
    let ExpectOk { rest, tokens_consumed_count: tokens_consumed_count_data_type, outcome: data_type } =
        match expect_data_type_wrapped(rest) {
        Err(error) => {
            return Err(error);
        },
        Ok(ok) => ok,
    };
    proof {
        assert(tokens@.skip(tokens_consumed_count_name as int).skip(
            tokens_consumed_count_data_type as int,
        ) =~= tokens@.skip(tokens_consumed_count_name + tokens_consumed_count_data_type));
        lemma_rest_views(
            tokens,
            rest,
            tokens_consumed_count_name + tokens_consumed_count_data_type,
        );
    }
    let ExpectOk { rest, tokens_consumed_count: tokens_consumed_count_key, outcome: primary_key } =
        match expect_primary_key(rest) {
        Err(error) => {
            return Err(error);
        },
        Ok(ok) => ok,
    };
    proof {
        assert(tokens@.skip(tokens_consumed_count_name + tokens_consumed_count_data_type).skip(
            tokens_consumed_count_key as int,
        ) =~= tokens@.skip(
            tokens_consumed_count_name + tokens_consumed_count_data_type
                + tokens_consumed_count_key,
        ));
    }
    Ok(
        ExpectOk {
            rest,
            tokens_consumed_count: tokens_consumed_count_name + tokens_consumed_count_data_type
                + tokens_consumed_count_key,
            outcome: ColumnDefinition { name, data_type, primary_key },
        },
    )
}

/// Takes a table: an identifier, then its columns between parentheses, with
/// commas between them.
pub fn expect_table_definition<'t>(tokens: &'t [Token]) -> (res: ExpectResult<
    't,
    TableDefinition,
>)
    ensures
        yields(res, tokens, spec_table_definition(tokens.deep_view())),
{
    let ExpectOk { rest, tokens_consumed_count: tokens_consumed_count_name, outcome: name } =
        match expect_identifier(tokens) {
        Err(error) => {
            return Err(error);
        },
        Ok(ok) => ok,
    };
    proof {
        lemma_rest_views(tokens, rest, tokens_consumed_count_name as int);
    }
    let expect_columns = |tokens_enclosed: &'t [Token]| -> (answer: ExpectResult<
        't,
        Vec<ColumnDefinition>,
    >)
        ensures
            yields(answer, tokens_enclosed, column_list_rule()(tokens_enclosed.deep_view())),
        {
            assert(rule_computes(expect_column_definition, column_rule()));
            expect_comma_separated(tokens_enclosed, expect_column_definition)
        };
    assert(rule_computes(expect_columns, column_list_rule()));
    let ExpectOk { rest, tokens_consumed_count: tokens_consumed_count_columns, outcome: columns } =
        match expect_enclosed(rest, expect_columns) {
        Err(error) => {
            return Err(error);
        },
        Ok(ok) => ok,
    };
    proof {
        assert(tokens_consumed_count_name + tokens_consumed_count_columns <= tokens.len());
        assert(tokens@.skip(tokens_consumed_count_name as int).skip(
            tokens_consumed_count_columns as int,
        ) =~= tokens@.skip(tokens_consumed_count_name + tokens_consumed_count_columns));
    }
    Ok(
        ExpectOk {
            rest,
            tokens_consumed_count: tokens_consumed_count_name + tokens_consumed_count_columns,
            outcome: TableDefinition { name, columns },
        },
    )
}

} // verus!
