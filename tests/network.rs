use bx::auth::{AccessToken, SingleTokenAuth};
use bx::error::SDKError;
use bx::network::{Body, HTTPMethod, MultipartBody, NetworkAgent, Part, Response, DEFAULT_API_ROOT};

fn pairs(v: &[(&str, &str)]) -> Vec<(String, String)> {
    v.iter().map(|(a, b)| (a.to_string(), b.to_string())).collect()
}

fn response_with_status(code: u16) -> Response {
    let res = reqwest::Response::from(http::Response::builder().status(code).body("").unwrap());
    Response::from_parts(res.status().as_u16(), res)
}

#[test]
fn root_relative_target_resolves_against_root() {
    let agent = NetworkAgent::new(Some("http://localhost:5000".to_string()));
    let req = agent.start_request(HTTPMethod::GET, "/users/me");
    assert_eq!(req.url(), "http://localhost:5000/users/me");
    assert_eq!(req.method(), HTTPMethod::GET);
    assert!(req.headers().is_empty());
    assert!(matches!(req.body(), Body::Empty));

    let req = agent.start_request(HTTPMethod::GET, "https://other/x");
    assert_eq!(req.url(), "https://other/x");
}

#[test]
fn default_root_is_used_without_override() {
    let agent = NetworkAgent::new(None);
    let req = agent.start_request(HTTPMethod::DELETE, "/files/5");
    assert_eq!(req.url(), format!("{}/files/5", DEFAULT_API_ROOT));
    assert_eq!(req.url(), "https://api.box.com/2.0/files/5");
    assert_eq!(agent.start_request(HTTPMethod::GET, "").url(), "");
}

#[test]
fn headers_keep_order_and_last_write_wins() {
    let agent = NetworkAgent::new(None);
    let req = agent
        .start_request(HTTPMethod::GET, "/x")
        .with_header("Accept", "text/plain")
        .with_header("X-One", "1")
        .with_header("accept", "application/json");
    assert_eq!(
        req.headers(),
        &pairs(&[("accept", "application/json"), ("X-One", "1")])
    );
}

#[test]
fn with_body_sets_and_empty_keeps() {
    let agent = NetworkAgent::new(None);
    let req = agent
        .start_request(HTTPMethod::PUT, "/files/1")
        .with_body(Body::JSON("{\"name\":\"n\"}".to_string()))
        .with_body(Body::Empty);
    match req.body() {
        Body::JSON(s) => assert_eq!(s, "{\"name\":\"n\"}"),
        _ => panic!("expected a JSON body"),
    }
    let req = req.with_body(Body::Multipart(MultipartBody::new().with_text_part("a", "b")));
    let (method, url, headers, body) = req.into_parts();
    assert_eq!(method, HTTPMethod::PUT);
    assert_eq!(url, "https://api.box.com/2.0/files/1");
    assert!(headers.is_empty());
    match body {
        Body::Multipart(m) => {
            let parts = m.into_parts();
            assert_eq!(parts.len(), 1);
            assert!(matches!(&parts[0], Part::Text { name, value } if name == "a" && value == "b"));
        }
        _ => panic!("expected a multipart body"),
    }
}

#[test]
fn prepared_request_carries_bearer_token() {
    let agent = NetworkAgent::new(Some("http://localhost:5000".to_string()));
    let token = AccessToken::new("access_token".to_string());
    let req = agent
        .start_request(HTTPMethod::GET, "/folders/0")
        .with_header("authorization", "stale");
    let req = agent.prepare(req, &token).ok().unwrap();
    assert_eq!(req.headers(), &pairs(&[("Authorization", "Bearer access_token")]));
    assert_eq!(req.url(), "http://localhost:5000/folders/0");
}

#[test]
fn authorize_appends_when_absent() {
    let agent = NetworkAgent::new(None);
    let auth = SingleTokenAuth::new("tok".to_string());
    let token = auth.token().ok().unwrap();
    let req = agent.start_request(HTTPMethod::POST, "/x").with_header("X-A", "1");
    let req = NetworkAgent::authorize(req, token);
    assert_eq!(req.headers(), &pairs(&[("X-A", "1"), ("Authorization", "Bearer tok")]));
}

#[test]
fn malformed_target_is_invalid_url() {
    let agent = NetworkAgent::new(Some("not a root".to_string()));
    let token = AccessToken::new("t".to_string());
    let req = agent.start_request(HTTPMethod::GET, "/users/me");
    match agent.prepare(req, &token) {
        Err(SDKError::InvalidURL(_)) => {}
        _ => panic!("expected an invalid url"),
    }
}

#[test]
fn success_status_passes_and_others_are_api_errors() {
    let agent = NetworkAgent::new(None);
    let ok = agent.classify(response_with_status(200));
    assert_eq!(ok.ok().unwrap().status(), 200);
    assert!(agent.classify(response_with_status(204)).is_ok());

    match agent.classify(response_with_status(404)) {
        Err(SDKError::APIError { response }) => assert_eq!(response.status(), 404),
        _ => panic!("expected an api error"),
    }
    match agent.classify(response_with_status(300)) {
        Err(e) => assert_eq!(e.kind(), "api error"),
        _ => panic!("expected an api error"),
    }
    assert!(agent.classify(response_with_status(199)).is_err());
}

#[test]
fn response_reports_status() {
    let r = response_with_status(503);
    assert_eq!(r.status(), 503);
    assert!(!r.is_success());
    assert!(response_with_status(299).is_success());
    assert_eq!(r.into_inner().status().as_u16(), 503);
}

#[test]
fn method_tokens() {
    assert_eq!(HTTPMethod::GET.as_str(), "GET");
    assert_eq!(HTTPMethod::POST.as_str(), "POST");
    assert_eq!(HTTPMethod::PUT.as_str(), "PUT");
    assert_eq!(HTTPMethod::OPTIONS.as_str(), "OPTIONS");
    assert_eq!(HTTPMethod::DELETE.as_str(), "DELETE");
}

#[test]
fn access_token_from_string() {
    let t = AccessToken::from("from-string".to_string());
    assert_eq!(t.as_str(), "from-string");
}

#[test]
fn single_token_auth_hands_out_its_token() {
    let auth = SingleTokenAuth::new("abc".to_string());
    assert_eq!(auth.token().ok().unwrap().as_str(), "abc");
    assert_eq!(AccessToken::new("xyz".to_string()).as_str(), "xyz");
}

#[test]
fn error_kinds() {
    assert_eq!(SDKError::Auth.kind(), "authentication error");
    let e: SDKError = url::Url::parse("nope").unwrap_err().into();
    assert_eq!(e.kind(), "invalid url");
    let e: SDKError = std::io::Error::new(std::io::ErrorKind::AlreadyExists, "exists").into();
    assert_eq!(e.kind(), "error reading file");
    let e: SDKError = serde_json::from_str::<serde_json::Value>("{").unwrap_err().into();
    assert_eq!(e.kind(), "deserialization error");
}

#[test]
fn header_that_cannot_go_on_the_wire_is_invalid_header() {
    let agent = NetworkAgent::new(None);
    let token = AccessToken::new("bad\ntoken".to_string());
    let req = agent.start_request(HTTPMethod::GET, "/users/me");
    match agent.prepare(req, &token) {
        Err(SDKError::InvalidHeader(_)) => {}
        _ => panic!("expected an invalid header"),
    }

    let token = AccessToken::new("good".to_string());
    let req = agent.start_request(HTTPMethod::GET, "/users/me").with_header("bad name", "v");
    match agent.prepare(req, &token) {
        Err(SDKError::InvalidHeader(_)) => {}
        _ => panic!("expected an invalid header"),
    }

    let req = agent
        .start_request(HTTPMethod::GET, "/users/me")
        .with_header("X-Tab", "a\tb \u{e9}");
    assert!(agent.prepare(req, &token).is_ok());
}

#[test]
fn invalid_url_is_reported_before_invalid_header() {
    let agent = NetworkAgent::new(Some("nowhere".to_string()));
    let token = AccessToken::new("bad\rtoken".to_string());
    let req = agent.start_request(HTTPMethod::GET, "/x");
    match agent.prepare(req, &token) {
        Err(SDKError::InvalidURL(_)) => {}
        _ => panic!("expected an invalid url"),
    }
}

#[test]
fn target_without_host_is_invalid_url() {
    let agent = NetworkAgent::new(None);
    let token = AccessToken::new("t".to_string());
    let req = agent.start_request(HTTPMethod::GET, "mailto:someone@example.com");
    match agent.prepare(req, &token) {
        Err(SDKError::InvalidURL(e)) => assert_eq!(e, url::ParseError::EmptyHost),
        _ => panic!("expected an invalid url"),
    }
}

#[test]
fn response_keeps_the_status_it_was_given() {
    let res = reqwest::Response::from(http::Response::builder().status(404).body("").unwrap());
    let r = Response::from_parts(404, res);
    assert_eq!(r.status(), 404);
    assert_eq!(r.inner().status().as_u16(), 404);
}
