use curl_lite::kv::{CliError, KvPair};

fn parse_ok(token: &str) -> KvPair {
    match KvPair::parse(token) {
        Ok(p) => p,
        Err(_) => panic!("expected {token} to parse"),
    }
}

fn parse_err(token: &str) -> CliError {
    match KvPair::parse(token) {
        Ok(_) => panic!("expected {token} to be rejected"),
        Err(e) => e,
    }
}

#[test]
fn parse_simple_pair() {
    let p = parse_ok("name=Ann");
    assert_eq!(p.key, "name");
    assert_eq!(p.value, "Ann");
}

#[test]
fn parse_splits_at_first_equals_only() {
    let p = parse_ok("a=b=c");
    assert_eq!(p.key, "a");
    assert_eq!(p.value, "b=c");
}

#[test]
fn parse_keeps_empty_value() {
    let p = parse_ok("a=");
    assert_eq!(p.key, "a");
    assert_eq!(p.value, "");
}

#[test]
fn parse_keeps_empty_key() {
    let p = parse_ok("=v");
    assert_eq!(p.key, "");
    assert_eq!(p.value, "v");
}

#[test]
fn parse_does_not_trim() {
    let p = parse_ok(" a = b ");
    assert_eq!(p.key, " a ");
    assert_eq!(p.value, " b ");
}

#[test]
fn parse_without_separator_fails_naming_token() {
    let e = parse_err("abc");
    match e {
        CliError::MalformedPair { ref token } => assert_eq!(token, "abc"),
        CliError::MalformedUrl { .. } => panic!("wrong error kind"),
    }
    assert_eq!(e.message(), "Failed to parse abc");
}

#[test]
fn parse_empty_token_fails() {
    let e = parse_err("");
    match e {
        CliError::MalformedPair { ref token } => assert_eq!(token, ""),
        CliError::MalformedUrl { .. } => panic!("wrong error kind"),
    }
}

#[test]
fn parse_handles_multibyte_characters() {
    let p = parse_ok("caf\u{e9}=se\u{f1}al=x");
    assert_eq!(p.key, "caf\u{e9}");
    assert_eq!(p.value, "se\u{f1}al=x");
}
