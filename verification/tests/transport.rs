//! Behavioral tests of the transport core against simulated senders.

use paged_client::error::ClientError;
use paged_client::http::{
    normalize, BodyOutcome, HttpRequest, Method, Payload, RawResponse, SendOutcome, UreqClient,
};
use std::cell::RefCell;
use std::rc::Rc;

/// A sender that records the outgoing request and answers with the given
/// outcome.
fn recording_sender(
    outcome: fn() -> SendOutcome,
) -> (impl Fn(HttpRequest) -> SendOutcome, Rc<RefCell<Option<HttpRequest>>>) {
    let seen: Rc<RefCell<Option<HttpRequest>>> = Rc::new(RefCell::new(None));
    let seen_in = Rc::clone(&seen);
    let sender = move |req: HttpRequest| {
        *seen_in.borrow_mut() = Some(req);
        outcome()
    };
    (sender, seen)
}

fn ok_response() -> SendOutcome {
    SendOutcome::Response(RawResponse {
        status: 200,
        body: BodyOutcome::Text("ok".to_string()),
    })
}

fn pairs(v: &[(&str, &str)]) -> Vec<(String, String)> {
    v.iter().map(|(k, val)| (k.to_string(), val.to_string())).collect()
}

#[test]
fn status_error_carries_code_and_text() {
    // A simulated 404 with body "not found" yields exactly the status error.
    let (sender, _) = recording_sender(|| {
        SendOutcome::Response(RawResponse {
            status: 404,
            body: BodyOutcome::Text("not found".to_string()),
        })
    });
    let client = UreqClient::default();
    let r = client.get("https://example.test/x", None, &Vec::new(), sender);
    match r {
        Err(ClientError::StatusCode(code, text)) => {
            assert_eq!(code, 404);
            assert_eq!(text, "not found");
        },
        _ => panic!("expected a status error"),
    }
}

#[test]
fn connection_failure_is_a_transport_error() {
    let (sender, _) = recording_sender(|| SendOutcome::Failure("connection refused".to_string()));
    let client = UreqClient::default();
    let r = client.get("https://example.test/x", None, &Vec::new(), sender);
    match r {
        Err(ClientError::Request(m)) => assert_eq!(m, "connection refused"),
        _ => panic!("expected a transport error"),
    }
}

#[test]
fn unreadable_body_of_a_success_is_a_body_error() {
    let (sender, _) = recording_sender(|| {
        SendOutcome::Response(RawResponse {
            status: 200,
            body: BodyOutcome::Unreadable("invalid utf-8".to_string()),
        })
    });
    let client = UreqClient::default();
    let r = client.get("https://example.test/x", None, &Vec::new(), sender);
    match r {
        Err(ClientError::Body(m)) => assert_eq!(m, "invalid utf-8"),
        _ => panic!("expected a body error"),
    }
}

#[test]
fn successful_response_yields_its_body() {
    let (sender, _) = recording_sender(|| {
        SendOutcome::Response(RawResponse {
            status: 204,
            body: BodyOutcome::Text("".to_string()),
        })
    });
    let client = UreqClient::default();
    let r = client.get("https://example.test/x", None, &Vec::new(), sender);
    assert_eq!(r.unwrap_or_else(|_| panic!("expected a body")), "");
}

#[test]
fn normalize_status_boundaries() {
    let text = |s: &str| BodyOutcome::Text(s.to_string());
    assert!(normalize(SendOutcome::Response(RawResponse { status: 199, body: text("t") })).is_err());
    assert!(normalize(SendOutcome::Response(RawResponse { status: 200, body: text("t") })).is_ok());
    assert!(normalize(SendOutcome::Response(RawResponse { status: 299, body: text("t") })).is_ok());
    assert!(normalize(SendOutcome::Response(RawResponse { status: 300, body: text("t") })).is_err());
}

#[test]
fn from_response_keeps_status_and_text() {
    let e = ClientError::from_response(RawResponse {
        status: 503,
        body: BodyOutcome::Text("unavailable".to_string()),
    });
    match e {
        ClientError::StatusCode(code, text) => {
            assert_eq!(code, 503);
            assert_eq!(text, "unavailable");
        },
        _ => panic!("expected a status error"),
    }
}

#[test]
fn get_sends_headers_verbatim() {
    let headers = pairs(&[("Authorization", "Bearer token"), ("Accept", "application/json")]);
    let query = pairs(&[("limit", "10"), ("offset", "0")]);
    let (sender, seen) = recording_sender(ok_response);
    let client = UreqClient::default();
    let r = client.get("https://example.test/items", Some(&headers), &query, sender);
    assert_eq!(r.unwrap_or_else(|_| panic!("expected a body")), "ok");
    let req = seen.borrow_mut().take().unwrap_or_else(|| panic!("no request sent"));
    assert!(matches!(req.method, Method::Get));
    assert_eq!(req.url, "https://example.test/items");
    assert_eq!(req.headers, headers);
    match req.payload {
        Payload::Query(q) => assert_eq!(q, query),
        _ => panic!("expected query parameters"),
    }
}

#[test]
fn post_sends_headers_verbatim() {
    let headers = pairs(&[("Authorization", "Bearer token")]);
    let body = serde_json::Value::String("payload".to_string());
    let (sender, seen) = recording_sender(ok_response);
    let client = UreqClient::default();
    let r = client.post("https://example.test/items", Some(&headers), &body, sender);
    assert_eq!(r.unwrap_or_else(|_| panic!("expected a body")), "ok");
    let req = seen.borrow_mut().take().unwrap_or_else(|| panic!("no request sent"));
    assert!(matches!(req.method, Method::Post));
    assert_eq!(req.headers, headers);
    match req.payload {
        Payload::Json(v) => assert_eq!(v, body),
        _ => panic!("expected a json payload"),
    }
}

#[test]
fn post_form_sends_headers_verbatim() {
    let headers = pairs(&[("Authorization", "Bearer token")]);
    let form = pairs(&[("grant_type", "client_credentials")]);
    let (sender, seen) = recording_sender(ok_response);
    let client = UreqClient::default();
    let r = client.post_form("https://example.test/token", Some(&headers), &form, sender);
    assert_eq!(r.unwrap_or_else(|_| panic!("expected a body")), "ok");
    let req = seen.borrow_mut().take().unwrap_or_else(|| panic!("no request sent"));
    assert!(matches!(req.method, Method::Post));
    assert_eq!(req.headers, headers);
    match req.payload {
        Payload::Form(f) => assert_eq!(f, form),
        _ => panic!("expected a form payload"),
    }
}

#[test]
fn put_sends_headers_verbatim() {
    let headers = pairs(&[("Authorization", "Bearer token")]);
    let body = serde_json::Value::Null;
    let (sender, seen) = recording_sender(ok_response);
    let client = UreqClient::default();
    let r = client.put("https://example.test/items/1", Some(&headers), &body, sender);
    assert_eq!(r.unwrap_or_else(|_| panic!("expected a body")), "ok");
    let req = seen.borrow_mut().take().unwrap_or_else(|| panic!("no request sent"));
    assert!(matches!(req.method, Method::Put));
    assert_eq!(req.headers, headers);
}

#[test]
fn delete_sends_headers_verbatim() {
    let headers = pairs(&[("Authorization", "Bearer token")]);
    let body = serde_json::Value::Null;
    let (sender, seen) = recording_sender(ok_response);
    let client = UreqClient::default();
    let r = client.delete("https://example.test/items/1", Some(&headers), &body, sender);
    assert_eq!(r.unwrap_or_else(|_| panic!("expected a body")), "ok");
    let req = seen.borrow_mut().take().unwrap_or_else(|| panic!("no request sent"));
    assert!(matches!(req.method, Method::Delete));
    assert_eq!(req.headers, headers);
}

#[test]
fn absent_headers_leave_the_request_bare() {
    let (sender, seen) = recording_sender(ok_response);
    let client = UreqClient::default();
    let r = client.get("https://example.test/items", None, &Vec::new(), sender);
    assert_eq!(r.unwrap_or_else(|_| panic!("expected a body")), "ok");
    let req = seen.borrow_mut().take().unwrap_or_else(|| panic!("no request sent"));
    assert!(req.headers.is_empty());
}

#[test]
fn shared_request_routine_appends_caller_headers() {
    let headers = pairs(&[("X-One", "1"), ("X-Two", "2")]);
    let (sender, seen) = recording_sender(ok_response);
    let client = UreqClient::default();
    let base = HttpRequest {
        method: Method::Get,
        url: "https://example.test/".to_string(),
        headers: pairs(&[("X-Zero", "0")]),
        payload: Payload::Query(Vec::new()),
    };
    let r = client.request(base, Some(&headers), sender);
    assert_eq!(r.unwrap_or_else(|_| panic!("expected a body")), "ok");
    let req = seen.borrow_mut().take().unwrap_or_else(|| panic!("no request sent"));
    assert_eq!(req.headers, pairs(&[("X-Zero", "0"), ("X-One", "1"), ("X-Two", "2")]));
}
