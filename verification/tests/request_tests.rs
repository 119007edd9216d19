use curl_lite::kv::CliError;
use curl_lite::request::{build_request, Method, RequestSpec};

fn spec_ok(r: Result<RequestSpec, CliError>) -> RequestSpec {
    match r {
        Ok(s) => s,
        Err(e) => panic!("expected a valid descriptor, got: {}", e.message()),
    }
}

fn post_body(url: &str, tokens: &[&str]) -> String {
    let tokens: Vec<String> = tokens.iter().map(|t| t.to_string()).collect();
    let spec = spec_ok(RequestSpec::post(url, &tokens));
    let built = build_request(&spec);
    match built.body {
        Some(b) => b,
        None => panic!("a POST must carry a body"),
    }
}

#[test]
fn get_never_attaches_a_body() {
    let spec = spec_ok(RequestSpec::get("https://example.test/ok"));
    assert!(matches!(spec.method, Method::Get));
    assert_eq!(spec.url, "https://example.test/ok");
    let built = build_request(&spec);
    assert!(built.body.is_none());
    assert_eq!(built.url, "https://example.test/ok");
}

#[test]
fn get_rejects_malformed_url() {
    match RequestSpec::get("not a url") {
        Ok(_) => panic!("a URL without a scheme must be rejected"),
        Err(CliError::MalformedUrl { ref token }) => assert_eq!(token, "not a url"),
        Err(CliError::MalformedPair { .. }) => panic!("wrong error kind"),
    }
}

#[test]
fn post_rejects_malformed_url_before_pairs() {
    let tokens = vec!["a=1".to_string()];
    match RequestSpec::post("/relative/only", &tokens) {
        Ok(_) => panic!("a relative URL must be rejected"),
        Err(CliError::MalformedUrl { ref token }) => assert_eq!(token, "/relative/only"),
        Err(CliError::MalformedPair { .. }) => panic!("wrong error kind"),
    }
}

#[test]
fn post_rejects_first_bad_token() {
    let tokens = vec!["ok=1".to_string(), "bad".to_string(), "also".to_string()];
    match RequestSpec::post("https://example.test/create", &tokens) {
        Ok(_) => panic!("a token without = must be rejected"),
        Err(CliError::MalformedPair { ref token }) => assert_eq!(token, "bad"),
        Err(CliError::MalformedUrl { .. }) => panic!("wrong error kind"),
    }
}

#[test]
fn post_two_pairs_round_trip() {
    let body = post_body("https://example.test/create", &["a=1", "b=2"]);
    let v: serde_json::Value = serde_json::from_str(&body).expect("body must be valid JSON");
    let obj = v.as_object().expect("body must be a JSON object");
    assert_eq!(obj.len(), 2);
    assert_eq!(obj.get("a").and_then(|x| x.as_str()), Some("1"));
    assert_eq!(obj.get("b").and_then(|x| x.as_str()), Some("2"));
}

#[test]
fn post_duplicate_keys_last_wins() {
    let body = post_body("https://example.test/create", &["a=1", "a=2"]);
    assert_eq!(body, "{\"a\":\"2\"}");
    let v: serde_json::Value = serde_json::from_str(&body).expect("body must be valid JSON");
    let obj = v.as_object().expect("body must be a JSON object");
    assert_eq!(obj.len(), 1);
    assert_eq!(obj.get("a").and_then(|x| x.as_str()), Some("2"));
}

#[test]
fn post_no_pairs_sends_empty_object() {
    let body = post_body("https://example.test/create", &[]);
    assert_eq!(body, "{}");
}

#[test]
fn post_escapes_values_and_keys() {
    let body = post_body("https://example.test/create", &["q=say \"hi\"\\now", "a\nb=c"]);
    let v: serde_json::Value = serde_json::from_str(&body).expect("body must be valid JSON");
    let obj = v.as_object().expect("body must be a JSON object");
    assert_eq!(obj.get("q").and_then(|x| x.as_str()), Some("say \"hi\"\\now"));
    assert_eq!(obj.get("a\nb").and_then(|x| x.as_str()), Some("c"));
}

#[test]
fn post_values_stay_strings() {
    let body = post_body("https://example.test/create", &["name=Ann", "age=30"]);
    let v: serde_json::Value = serde_json::from_str(&body).expect("body must be valid JSON");
    let obj = v.as_object().expect("body must be a JSON object");
    assert_eq!(obj.len(), 2);
    assert_eq!(obj.get("name").and_then(|x| x.as_str()), Some("Ann"));
    let age = obj.get("age").expect("age must be present");
    assert!(age.is_string());
    assert_eq!(age.as_str(), Some("30"));
}
