//! What the server answers to a request, as far as it can be decided without
//! reading from or writing to the network.

use crate::sql::{parse_statement, spec_parse_statement, ParseError};
use vstd::prelude::*;

verus! {

/// What the routing reads of a request's method.
#[derive(Debug, PartialEq, Eq, Clone, Copy, Structural)]
pub enum Method {
    Get,
    Post,
    Other,
}

/// What is done with a request.
#[derive(Debug, PartialEq, Eq, Clone, Copy, Structural)]
pub enum Route {
    /// The body holds a statement that may write.
    Write,
    /// The query string holds a statement that only reads.
    Read,
    /// The path is served, but not with this method.
    MethodNotAllowed,
    /// The path is not served.
    NotFound,
}

/// The status of an answer.
#[derive(Debug, PartialEq, Eq, Clone, Copy, Structural)]
pub enum Status {
    Success,
    BadRequest,
    MethodNotAllowed,
    NotFound,
}

/// An answer: its status and its body.
#[derive(Debug, PartialEq, Eq)]
pub struct Reply {
    pub status: Status,
    pub body: String,
}

/// An answer as a mathematical value.
pub struct ReplyView {
    pub status: Status,
    pub body: Seq<char>,
}

impl View for Reply {
    type V = ReplyView;

    open spec fn view(&self) -> ReplyView {
        ReplyView { status: self.status, body: self.body@ }
    }
}

/// What the server does next with a request: it reads the statement from
/// the body, or it answers at once.
#[derive(Debug, PartialEq, Eq)]
pub enum Action {
    ReadStatement,
    Answer(Reply),
}

/// What the server does next, as a mathematical value.
pub enum ActionView {
    ReadStatement,
    Answer(ReplyView),
}

impl View for Action {
    type V = ActionView;

    open spec fn view(&self) -> ActionView {
        match self {
            Action::ReadStatement => ActionView::ReadStatement,
            Action::Answer(reply) => ActionView::Answer(reply@),
        }
    }
}

/// The answer to a statement that is refused: its status, and the error
/// that the client is told.
#[derive(Debug, PartialEq, Eq)]
pub struct Refusal {
    pub status: Status,
    pub error: ParseError,
}

/// An answer of the given status without a body.
pub open spec fn empty_reply(status: Status) -> ReplyView {
    ReplyView { status, body: Seq::empty() }
}

/// The name of the parameter that holds the statement.
pub open spec fn statement_parameter() -> Seq<char> {
    "query"@
}

/// The route of a request: the root path is served, with `POST` for
/// statements that may write and with `GET` for statements that only read.
pub open spec fn spec_route(path: Seq<char>, method: Method) -> Route {
    if path == "/"@ {
        match method {
            Method::Post => Route::Write,
            Method::Get => Route::Read,
            Method::Other => Route::MethodNotAllowed,
        }
    } else {
        Route::NotFound
    }
}

/// The pairs of names and values that a query string in the format
/// `application/x-www-form-urlencoded` holds, in their order; `None` where
/// the string cannot be read as such pairs.
pub uninterp spec fn urlencoded_pairs(query_string: Seq<char>) -> Option<
    Seq<(Seq<char>, Seq<char>)>,
>;

/// The value of the last pair of the given name, if there is one.
pub open spec fn last_value(pairs: Seq<(Seq<char>, Seq<char>)>, name: Seq<char>) -> Option<
    Seq<char>,
>
    decreases pairs.len(),
{
    if pairs.len() == 0 {
        None
    } else if pairs.last().0 == name {
        Some(pairs.last().1)
    } else {
        last_value(pairs.drop_last(), name)
    }
}

/// The answer to a request that reads, given the pairs of its query string,
/// if it has one that can be read as pairs: the statement is handed back
/// where a parameter holds one; the request is bad otherwise.
pub open spec fn spec_answer_pairs(pairs: Option<Seq<(Seq<char>, Seq<char>)>>) -> ReplyView {
    match pairs {
        Some(pairs) => match last_value(pairs, statement_parameter()) {
            Some(statement) => ReplyView { status: Status::Success, body: statement },
            None => empty_reply(Status::BadRequest),
        },
        None => empty_reply(Status::BadRequest),
    }
}

/// What is done on a route, given the pairs of the query string, if there is
/// one that can be read as pairs: a statement that may write is read from
/// the body first; a statement that only reads is answered from the pairs;
/// a request that is not served is answered with its status and no body.
pub open spec fn spec_action(
    route: Route,
    pairs: Option<Seq<(Seq<char>, Seq<char>)>>,
) -> ActionView {
    match route {
        Route::Write => ActionView::ReadStatement,
        Route::Read => ActionView::Answer(spec_answer_pairs(pairs)),
        Route::MethodNotAllowed => ActionView::Answer(empty_reply(Status::MethodNotAllowed)),
        Route::NotFound => ActionView::Answer(empty_reply(Status::NotFound)),
    }
}

/// Calls `serde_urlencoded::from_str` for a sequence of pairs of strings.
/// Taken on trust, not proved: what the call hands back depends on the query
/// string alone, so it is what `urlencoded_pairs` names for that string;
/// a failure of the call is `None`.
#[verifier::external_body]
fn parse_urlencoded(query_string: &str) -> (pairs: Option<Vec<(String, String)>>)
    ensures
        match pairs {
            Some(found) => urlencoded_pairs(query_string@) == Some(found.deep_view()),
            None => urlencoded_pairs(query_string@) is None,
        },
{
    serde_urlencoded::from_str::<Vec<(String, String)>>(query_string).ok()
}

/// Decides what is done with a request from its path and method.
pub fn route(path: &str, method: Method) -> (route: Route)
    ensures
        route == spec_route(path@, method),
{
    proof {
        reveal_strlit("/");
    }
    let is_root = path.unicode_len() == 1 && path.get_char(0) == '/';
    assert(is_root == (path@ =~= "/"@));
    if is_root {
        match method {
            Method::Post => Route::Write,
            Method::Get => Route::Read,
            Method::Other => Route::MethodNotAllowed,
        }
    } else {
        Route::NotFound
    }
}

/// The value of the last pair of the given name, if there is one.
pub fn find_last_value(pairs: &[(String, String)], name: &str) -> (found: Option<String>)
    ensures
        match found {
            Some(value) => last_value(pairs.deep_view(), name@) == Some(value@),
            None => last_value(pairs.deep_view(), name@) is None,
        },
{
    let ghost all = pairs.deep_view();
    let wanted = name.to_owned();
    let mut index: usize = pairs.len();
    assert(all.take(index as int) =~= all);
    while index > 0
        invariant
            index <= pairs.len(),
            all == pairs.deep_view(),
            wanted@ == name@,
            last_value(all, name@) == last_value(all.take(index as int), name@),
        decreases index,
    {
        index -= 1;
        proof {
            assert(all.take(index + 1).drop_last() =~= all.take(index as int));
        }
        if pairs[index].0 == wanted {
            return Some(pairs[index].1.clone());
        }
    }
    None
}

/// The answer to a request that reads, given the pairs of its query string,
/// if it has one that can be read as pairs.
pub fn answer_pairs(pairs: Option<Vec<(String, String)>>) -> (reply: Reply)
    ensures
        reply@ == spec_answer_pairs(
            match pairs {
                Some(found) => Some(found.deep_view()),
                None => None,
            },
        ),
{
    let statement = match pairs {
        Some(found) => find_last_value(found.as_slice(), "query"),
        None => None,
    };
    match statement {
        Some(statement) => Reply { status: Status::Success, body: statement },
        None => Reply { status: Status::BadRequest, body: String::new() },
    }
}

/// What is done on a route, given the pairs of the query string, if there is
/// one that can be read as pairs.
pub fn action_on(route: Route, pairs: Option<Vec<(String, String)>>) -> (action: Action)
    ensures
        action@ == spec_action(
            route,
            match pairs {
                Some(found) => Some(found.deep_view()),
                None => None,
            },
        ),
{
    match route {
        Route::Write => Action::ReadStatement,
        Route::Read => Action::Answer(answer_pairs(pairs)),
        Route::MethodNotAllowed => Action::Answer(
            Reply { status: Status::MethodNotAllowed, body: String::new() },
        ),
        Route::NotFound => Action::Answer(Reply { status: Status::NotFound, body: String::new() }),
    }
}

/// What the server does next with a request, decided from its path, its
/// method and its query string.
pub fn act(path: &str, method: Method, query_string: Option<&str>) -> (action: Action)
    ensures
        action@ == spec_action(
            spec_route(path@, method),
            match query_string {
                Some(given) => urlencoded_pairs(given@),
                None => None,
            },
        ),
{
    let pairs = match query_string {
        Some(given) => parse_urlencoded(given),
        None => None,
    };
    action_on(route(path, method), pairs)
}

/// The answer to a request that may write: a statement that is accepted is
/// handed back; one that is refused makes the request a bad one, and gives
/// the error that the client is told.
pub fn answer_write(statement: String) -> (res: Result<Reply, Refusal>)
    ensures
        match res {
            Ok(reply) => spec_parse_statement(statement@) is Ok && reply@ == (ReplyView {
                status: Status::Success,
                body: statement@,
            }),
            Err(refusal) => {
                &&& refusal.status == Status::BadRequest
                &&& spec_parse_statement(statement@) is Err
                &&& spec_parse_statement(statement@)->Err_0 == refusal.error@
            },
        },
{
    match parse_statement(statement.as_str()) {
        Ok(_) => Ok(Reply { status: Status::Success, body: statement }),
        Err(error) => Err(Refusal { status: Status::BadRequest, error }),
    }
}

} // verus!
