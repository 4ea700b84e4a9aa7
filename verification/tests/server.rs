use sqlschema::server::{
    act, action_on, answer_pairs, answer_write, find_last_value, route, Action, Method, Refusal,
    Reply, Route, Status,
};
use sqlschema::sql::errors::{StatementValidationError, SyntaxError};
use sqlschema::sql::ParseError;

fn pairs(given: &[(&str, &str)]) -> Vec<(String, String)> {
    given
        .iter()
        .map(|(name, value)| (name.to_string(), value.to_string()))
        .collect()
}

fn bad_request() -> Reply {
    Reply {
        status: Status::BadRequest,
        body: String::new(),
    }
}

#[test]
fn root_is_served_with_get_and_post() {
    assert_eq!(route("/", Method::Post), Route::Write);
    assert_eq!(route("/", Method::Get), Route::Read);
    assert_eq!(route("/", Method::Other), Route::MethodNotAllowed);
}

#[test]
fn other_paths_are_not_found() {
    assert_eq!(route("/tables", Method::Get), Route::NotFound);
    assert_eq!(route("", Method::Post), Route::NotFound);
    assert_eq!(route("//", Method::Other), Route::NotFound);
    assert_eq!(route("?", Method::Get), Route::NotFound);
}

#[test]
fn last_value_of_a_name_is_found() {
    let given = pairs(&[("a", "1"), ("query", "x"), ("b", "2"), ("query", "y"), ("c", "3")]);
    assert_eq!(find_last_value(&given, "query"), Some("y".to_string()));
    assert_eq!(find_last_value(&given, "a"), Some("1".to_string()));
    assert_eq!(find_last_value(&given, "c"), Some("3".to_string()));
    assert_eq!(find_last_value(&given, "Query"), None);
    assert_eq!(find_last_value(&[], "query"), None);
}

#[test]
fn statement_of_the_pairs_is_handed_back() {
    assert_eq!(
        answer_pairs(Some(pairs(&[("query", "select 1")]))),
        Reply {
            status: Status::Success,
            body: "select 1".to_string()
        }
    );
    assert_eq!(
        answer_pairs(Some(pairs(&[("query", "")]))),
        Reply {
            status: Status::Success,
            body: String::new()
        }
    );
}

#[test]
fn pairs_without_a_statement_are_a_bad_request() {
    assert_eq!(answer_pairs(Some(pairs(&[("q", "select 1")]))), bad_request());
    assert_eq!(answer_pairs(Some(vec![])), bad_request());
    assert_eq!(answer_pairs(None), bad_request());
}

fn empty(status: Status) -> Action {
    Action::Answer(Reply {
        status,
        body: String::new(),
    })
}

#[test]
fn query_string_is_decoded() {
    assert_eq!(
        act(
            "/",
            Method::Get,
            Some("query=CREATE+TABLE+t+%28a+Bool%29&other=1")
        ),
        Action::Answer(Reply {
            status: Status::Success,
            body: "CREATE TABLE t (a Bool)".to_string()
        })
    );
    assert_eq!(
        act("/", Method::Get, Some("query=a&query=b")),
        Action::Answer(Reply {
            status: Status::Success,
            body: "b".to_string()
        })
    );
}

#[test]
fn query_string_without_a_statement_is_a_bad_request() {
    assert_eq!(
        act("/", Method::Get, Some("other=1")),
        empty(Status::BadRequest)
    );
    assert_eq!(act("/", Method::Get, Some("")), empty(Status::BadRequest));
    assert_eq!(act("/", Method::Get, None), empty(Status::BadRequest));
}

#[test]
fn statement_that_may_write_is_read_from_the_body() {
    assert_eq!(act("/", Method::Post, None), Action::ReadStatement);
    assert_eq!(
        act("/", Method::Post, Some("query=a")),
        Action::ReadStatement
    );
}

#[test]
fn unserved_requests_are_answered_without_a_body() {
    assert_eq!(
        act("/", Method::Other, Some("query=a")),
        empty(Status::MethodNotAllowed)
    );
    assert_eq!(
        act("/tables", Method::Get, Some("query=a")),
        empty(Status::NotFound)
    );
    assert_eq!(act("", Method::Post, None), empty(Status::NotFound));
}

#[test]
fn action_follows_the_route() {
    assert_eq!(action_on(Route::Write, None), Action::ReadStatement);
    assert_eq!(
        action_on(Route::Write, Some(pairs(&[("query", "a")]))),
        Action::ReadStatement
    );
    assert_eq!(
        action_on(Route::Read, Some(pairs(&[("query", "a")]))),
        Action::Answer(Reply {
            status: Status::Success,
            body: "a".to_string()
        })
    );
    assert_eq!(action_on(Route::Read, None), empty(Status::BadRequest));
    assert_eq!(
        action_on(Route::MethodNotAllowed, Some(pairs(&[("query", "a")]))),
        empty(Status::MethodNotAllowed)
    );
    assert_eq!(action_on(Route::NotFound, None), empty(Status::NotFound));
}

#[test]
fn accepted_statement_is_handed_back() {
    let statement = "CREATE TABLE t (a Bool PRIMARY KEY)".to_string();
    assert_eq!(
        answer_write(statement.clone()),
        Ok(Reply {
            status: Status::Success,
            body: statement
        })
    );
}

#[test]
fn refused_statement_is_a_bad_request_with_its_error() {
    assert_eq!(
        answer_write("CREATE TABLE".to_string()),
        Err(Refusal {
            status: Status::BadRequest,
            error: ParseError::Syntax(SyntaxError(
                "Expected an identifier, instead found end of statement.".to_string()
            ))
        })
    );
    assert_eq!(
        answer_write("CREATE TABLE t (a Bool)".to_string()),
        Err(Refusal {
            status: Status::BadRequest,
            error: ParseError::StatementValidation(StatementValidationError(
                "A table must have exactly 1 PRIMARY KEY column, not 0".to_string()
            ))
        })
    );
}
