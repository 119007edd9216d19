use curl_lite::render::{
    format_body, render_response, render_response_plain, status_line, ResponseView,
};

fn view(code: u16, reason: &str, headers: &[(&str, &str)], body: &str) -> ResponseView {
    ResponseView {
        version: "HTTP/1.1".to_string(),
        status_code: code,
        reason: reason.to_string(),
        headers: headers
            .iter()
            .map(|(n, v)| (n.to_string(), v.to_string()))
            .collect(),
        body: body.to_string(),
    }
}

fn strip_ansi(s: &str) -> String {
    let mut out = String::new();
    let mut chars = s.chars();
    while let Some(c) = chars.next() {
        if c == '\u{1b}' {
            for d in chars.by_ref() {
                if d.is_ascii_alphabetic() {
                    break;
                }
            }
        } else {
            out.push(c);
        }
    }
    out
}

#[test]
fn status_line_joins_version_code_reason() {
    assert_eq!(status_line("HTTP/1.1", 200, "OK"), "HTTP/1.1 200 OK");
    assert_eq!(status_line("HTTP/2.0", 404, "Not Found"), "HTTP/2.0 404 Not Found");
    assert_eq!(status_line("HTTP/1.0", 65535, "X"), "HTTP/1.0 65535 X");
    assert_eq!(status_line("HTTP/1.0", 0, ""), "HTTP/1.0 0 ");
}

#[test]
fn error_status_renders_like_success() {
    let ok = render_response_plain(&view(200, "OK", &[("X-A", "1")], "hello"));
    let not_found = render_response_plain(&view(404, "Not Found", &[("X-A", "1")], "hello"));
    assert!(ok.starts_with("HTTP/1.1 200 OK\n\n"));
    assert!(not_found.starts_with("HTTP/1.1 404 Not Found\n\n"));
    let ok_tail = &ok["HTTP/1.1 200 OK".len()..];
    let nf_tail = &not_found["HTTP/1.1 404 Not Found".len()..];
    assert_eq!(ok_tail, nf_tail);
}

#[test]
fn json_body_is_pretty_printed() {
    let r = render_response_plain(&view(
        200,
        "OK",
        &[("Content-Type", "application/json")],
        "{\"x\":1}",
    ));
    assert!(r.contains("{\n  \"x\": 1\n}"));
    assert!(!r.contains("{\"x\":1}"));
}

#[test]
fn no_content_type_emits_body_verbatim() {
    let r = render_response_plain(&view(200, "OK", &[], "hello"));
    assert_eq!(r, "HTTP/1.1 200 OK\n\n\nhello");
}

#[test]
fn invalid_json_body_falls_back_to_verbatim() {
    let r = render_response_plain(&view(
        200,
        "OK",
        &[("Content-Type", "application/json")],
        "not json",
    ));
    assert_eq!(
        r,
        "HTTP/1.1 200 OK\n\nContent-Type => \"application/json\"\n\nnot json"
    );
}

#[test]
fn non_json_content_type_emits_body_verbatim() {
    let r = render_response_plain(&view(
        200,
        "OK",
        &[("Content-Type", "text/plain; charset=utf-8")],
        "{\"x\":1}",
    ));
    assert!(r.ends_with("\n{\"x\":1}"));
}

#[test]
fn json_with_charset_parameter_still_pretty_prints() {
    let r = render_response_plain(&view(
        200,
        "OK",
        &[("Content-Type", "application/json; charset=utf-8")],
        "{\"x\":1}",
    ));
    assert!(r.contains("\"x\": 1"));
}

#[test]
fn malformed_content_type_is_treated_as_none() {
    let r = render_response_plain(&view(
        200,
        "OK",
        &[("Content-Type", "not a media type @@")],
        "{\"x\":1}",
    ));
    assert!(r.ends_with("\n{\"x\":1}"));
}

#[test]
fn content_type_name_is_matched_case_insensitively() {
    let r = render_response_plain(&view(
        200,
        "OK",
        &[("content-TYPE", "application/json")],
        "{\"x\":1}",
    ));
    assert!(r.contains("\"x\": 1"));
    assert!(r.contains("content-TYPE => \"application/json\""));
}

#[test]
fn headers_render_in_wire_order_with_quoted_values() {
    let r = render_response_plain(&view(
        200,
        "OK",
        &[("B-Second", "two"), ("A-First", "one")],
        "",
    ));
    let b = r.find("B-Second => \"two\"\n").expect("first header line");
    let a = r.find("A-First => \"one\"\n").expect("second header line");
    assert!(b < a);
}

#[test]
fn format_body_ignores_content_type_for_non_json() {
    assert_eq!(format_body(false, "{\"x\":1}"), "{\"x\":1}");
    assert_eq!(format_body(true, "not json"), "not json");
    assert_eq!(format_body(true, "{\"x\":1}"), "{\n  \"x\": 1\n}");
}

#[test]
fn end_to_end_shape_of_a_json_response() {
    let r = render_response_plain(&view(
        200,
        "OK",
        &[("Content-Type", "application/json")],
        "{\"a\":1}",
    ));
    assert!(r.contains("200"));
    assert!(r.contains("Content-Type => \"application/json\""));
    let has_indented_line = r.split('\n').any(|line| line == "  \"a\": 1");
    assert!(has_indented_line);
}

#[test]
fn colored_render_matches_plain_after_stripping_escapes() {
    let v = view(200, "OK", &[("X-A", "1")], "hello");
    let plain = render_response_plain(&v);
    let colored = render_response(&v);
    assert_eq!(strip_ansi(&colored), plain);
}

#[test]
fn colored_render_highlights_pretty_json() {
    let v = view(200, "OK", &[("Content-Type", "application/json")], "{\"x\":1}");
    let colored = render_response(&v);
    let stripped = strip_ansi(&colored);
    assert!(stripped.contains("  \"x\": 1"));
    assert!(colored.contains("HTTP/1.1 200 OK"));
}

#[test]
fn json_highlighting_emits_terminal_escapes() {
    let v = view(200, "OK", &[("Content-Type", "application/json")], "{\"x\":1}");
    let colored_out = render_response(&v);
    assert!(colored_out.contains('\u{1b}'));
}

#[test]
fn forced_color_paints_status_line() {
    colored::control::set_override(true);
    let v = view(200, "OK", &[("X-A", "1")], "hello");
    let colored_out = render_response(&v);
    assert!(colored_out.contains('\u{1b}'));
    assert!(colored_out.contains("HTTP/1.1 200 OK"));
    assert!(colored_out.contains("X-A"));
    assert_eq!(strip_ansi(&colored_out), render_response_plain(&v));
}
