use fills_archive::cursor::{PageQuery, RequestCursor};
use fills_archive::request::{fills_request, ApiRequest, FetchError};

#[test]
fn fills_request_carries_both_bounds_in_seconds() {
    let request = fills_request(&PageQuery { start_inclusive: 0, end_exclusive: 1_704_240_000 });
    assert_eq!(
        request,
        ApiRequest {
            method: "GET".to_string(),
            path: "/api/fills".to_string(),
            query: Some("start_time=0&end_time=1704240000".to_string()),
        }
    );
    assert_eq!(request.url(), "https://ftx.com/api/fills?start_time=0&end_time=1704240000");
}

#[test]
fn fills_request_of_a_cursor_ends_at_the_cursor() {
    let cursor = RequestCursor { end_time: -5, oldest_id_seen: 9 };
    let request = fills_request(&cursor.query());
    assert_eq!(request.query.as_deref(), Some("start_time=0&end_time=-5"));
}

#[test]
fn url_without_a_query_has_no_question_mark() {
    let request =
        ApiRequest { method: "GET".to_string(), path: "/api/account".to_string(), query: None };
    assert_eq!(request.url(), "https://ftx.com/api/account");
}

#[test]
fn transport_failure_reports_its_cause() {
    let e = FetchError::Transport { cause: "connection refused".to_string() };
    assert_eq!(e.message(), "connection refused");
}

#[test]
fn malformed_response_reports_the_body_as_received() {
    let e = FetchError::Malformed {
        cause: "missing field `result`".to_string(),
        body: "{\"success\":false}".to_string(),
    };
    assert_eq!(
        e.message(),
        "unexpected response json format. \n\nresponse body:\n{\"success\":false}"
    );
    assert_ne!(e, FetchError::Transport { cause: "missing field `result`".to_string() });
}
