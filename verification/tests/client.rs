use mlc_cli::client::{api_base, decode, failure, login_body, login_request, redact, Client};
use mlc_cli::cli::Method;
use mlc_cli::config::Credentials;
use mlc_cli::json::Json;
use serde_json::Value;

fn value(j: &Json) -> Value {
    match j {
        Json::Null => Value::Null,
        Json::Bool(b) => Value::Bool(*b),
        Json::Number(n) => serde_json::from_str(n).unwrap(),
        Json::Str(s) => Value::String(s.clone()),
        Json::Array(items) => Value::Array(items.iter().map(value).collect()),
        Json::Object(entries) => {
            let mut map = serde_json::Map::new();
            for (k, v) in entries {
                map.insert(k.clone(), value(v));
            }
            Value::Object(map)
        }
    }
}

fn from_value(v: &Value) -> Json {
    match v {
        Value::Null => Json::Null,
        Value::Bool(b) => Json::Bool(*b),
        Value::Number(n) => Json::Number(n.to_string()),
        Value::String(s) => Json::Str(s.clone()),
        Value::Array(items) => Json::Array(items.iter().map(from_value).collect()),
        Value::Object(map) => {
            Json::Object(map.iter().map(|(k, v)| (k.clone(), from_value(v))).collect())
        }
    }
}

fn json(text: &str) -> Value {
    serde_json::from_str(text).unwrap()
}

fn parsed(text: &str) -> Json {
    from_value(&json(text))
}

#[test]
fn login_uses_documented_body_without_returning_tokens() {
    let credentials = Credentials { username: "fake-user".into(), password: "fake-password".into() };
    assert_eq!(
        value(&login_body(&credentials)),
        json(r#"{"username":"fake-user", "password":"fake-password"}"#)
    );
    let response = parsed(r#"{"accessToken":"fake-access-token","idToken":"fake-id-token"}"#);
    let client = match Client::from_login_response("http://127.0.0.1/".into(), &response) {
        Ok(client) => client,
        Err(error) => panic!("login failed: {}", error.message),
    };
    assert_eq!(client.token, "fake-id-token");
    assert_eq!(client.secrets, vec!["fake-id-token", "fake-access-token"]);
    assert_eq!(client.url("oauth/token"), "http://127.0.0.1/oauth/token");
    let request = login_request(&credentials);
    assert_eq!(request.method, Method::Post);
    assert_eq!(request.path, "oauth/token");
    let body = request.body.as_ref().map(value).unwrap();
    assert_eq!(body["username"], "fake-user");
    assert_eq!(body["password"], "fake-password");
    let text = serde_json::to_string(&body).unwrap();
    assert!(!text.contains("fake-id-token") && !text.contains("fake-access-token"));
}

#[test]
fn access_token_alone_is_not_accepted_as_data_authentication() {
    let response = parsed(r#"{"accessToken":"fake-access-token"}"#);
    let Err(error) = Client::from_login_response("http://127.0.0.1/".into(), &response) else {
        panic!("Expected missing ID token error")
    };
    assert_eq!(error.code, 2);
    assert!(!error.text().contains("fake-access-token"));
    let empty = parsed(r#"{"idToken":""}"#);
    assert!(Client::from_login_response("http://127.0.0.1/".into(), &empty).is_err());
}

#[test]
fn refresh_tokens_are_scrubbed_too() {
    let response = parsed(r#"{"refreshToken":"r","idToken":"i","accessToken":7}"#);
    let client = match Client::from_login_response("https://h/".into(), &response) {
        Ok(client) => client,
        Err(error) => panic!("login failed: {}", error.message),
    };
    assert_eq!(client.secrets, vec!["i", "r"]);
}

#[test]
fn malformed_success_response_does_not_leak_body() {
    let body = serde_json::from_slice::<Value>(b"FAKE_SECRET_NOT_JSON").ok().map(|v| from_value(&v));
    let error = decode(200, body).unwrap_err();
    assert_eq!(error.code, 1);
    assert!(!error.text().contains("FAKE_SECRET"));
    assert_eq!(error.message, "MLC returned invalid JSON");
}

#[test]
fn errors_never_echo_response_secrets() {
    for (status, code) in [(401, 2), (403, 2), (404, 3), (429, 4), (500, 1), (302, 1)] {
        let error = decode(status, Some(Json::Str("SECRET".into()))).unwrap_err();
        assert_eq!(error.code, code);
        assert!(!error.text().contains("SECRET"));
    }
}

#[test]
fn status_errors_name_the_http_status() {
    let error = decode(404, None).unwrap_err();
    assert_eq!(error.message, "MLC resource not found (HTTP 404 Not Found)");
    let error = decode(400, None).unwrap_err();
    assert_eq!(
        error.message,
        "MLC rejected the query; check search criteria and identifier values (HTTP 400 Bad Request)"
    );
    let error = decode(299, None).unwrap_err();
    assert_eq!(error.message, "MLC returned invalid JSON");
    let ok = decode(204, Some(Json::Null)).unwrap();
    assert_eq!(ok, Json::Null);
}

#[test]
fn request_uses_bearer_and_redacts_echoed_tokens_but_not_titles() {
    let client = Client {
        base: "http://127.0.0.1/".into(),
        token: "fake-token".into(),
        secrets: vec!["fake-token".into()],
    };
    let response = parsed(r#"[{"title":"Love","fake-token":"fake-token"}]"#);
    let result = client.receive(200, Some(response)).unwrap();
    assert_eq!(value(&result), json(r#"[{"title":"Love","[REDACTED]":"[REDACTED]"}]"#));
    assert_eq!(client.url("works"), "http://127.0.0.1/works");
}

#[test]
fn redaction_reaches_nested_strings_and_keeps_other_values() {
    let mut document = parsed(
        r#"{"a":[1,true,null,"xtokx"],"b":{"tok":"tok tok"},"c":"Love","d":2.5}"#,
    );
    redact(&mut document, &vec!["tok".to_string(), String::new()]);
    assert_eq!(
        value(&document),
        json(r#"{"a":[1,true,null,"x[REDACTED]x"],"b":{"[REDACTED]":"[REDACTED] [REDACTED]"},"c":"Love","d":2.5}"#)
    );
}

#[test]
fn api_override_must_be_http() {
    assert_eq!(api_base(None), "https://public-api.themlc.com/");
    assert_eq!(api_base(Some("ftp://example".into())), "https://public-api.themlc.com/");
    assert_eq!(api_base(Some("http://127.0.0.1:9///".into())), "http://127.0.0.1:9/");
    assert_eq!(api_base(Some("https://proxy.example/mlc".into())), "https://proxy.example/mlc/");
}

#[test]
fn failures_map_statuses_to_exit_codes() {
    let error = failure(429, "429 Too Many Requests");
    assert_eq!(error.code, 4);
    assert_eq!(error.message, "MLC rate limit reached; retry later (HTTP 429 Too Many Requests)");
    assert_eq!(failure(403, "403 Forbidden").code, 2);
    assert_eq!(failure(418, "418 I'm a teapot").message, "MLC request was unsuccessful (HTTP 418 I'm a teapot)");
}

#[test]
fn numbers_outside_http_statuses_fail_without_a_reason() {
    let error = decode(42, Some(Json::Str("SECRET".into()))).unwrap_err();
    assert_eq!((error.code, error.message.as_str()), (1, "MLC request was unsuccessful (HTTP )"));
    let error = decode(1000, None).unwrap_err();
    assert_eq!(error.message, "MLC request was unsuccessful (HTTP )");
}
