//! The response renderer: status line, headers in wire order, and a
//! content-type-aware body formatter that pretty-prints a declared JSON
//! payload and falls back to the verbatim text otherwise. The colored
//! renderer additionally paints the status line and header names and
//! syntax-highlights the pretty-printed JSON.

use vstd::prelude::*;
use vstd::string::*;
use colored::Colorize;

verus! {

/// Whether a `Content-Type` value parses as a media type whose essence
/// (type and subtype, parameters such as charset dropped) is
/// `application/json`.
pub uninterp spec fn is_json_media(s: Seq<char>) -> bool;

/// Relies on mime::Mime::from_str and Mime::essence_str: a malformed value
/// does not parse and counts as "not JSON"; of a well-formed value the
/// essence is compared against the `application/json` constant. The answer
/// is a function of the text alone.
#[verifier::external_body]
fn media_type_is_json(s: &str) -> (r: bool)
    ensures
        r == is_json_media(s@),
{
    match s.parse::<mime::Mime>() {
        Ok(m) => m.essence_str() == mime::APPLICATION_JSON.essence_str(),
        Err(_) => false,
    }
}

/// What re-serializing a JSON document with stable indentation gives:
/// `None` exactly when the text is not valid JSON.
pub uninterp spec fn json_pretty(s: Seq<char>) -> Option<Seq<char>>;

/// Relies on serde_json::from_str::<Value> and serde_json::to_string_pretty
/// (with insertion order preserved): the pretty-printed document when the
/// text is valid JSON, nothing otherwise; a function of the text alone.
#[verifier::external_body]
fn pretty_print_json(s: &str) -> (r: Option<String>)
    ensures
        (match r {
            Option::Some(p) => json_pretty(s@) == Some(p@),
            Option::None => json_pretty(s@) is None,
        }),
{
    match serde_json::from_str::<serde_json::Value>(s) {
        Ok(v) => match serde_json::to_string_pretty(&v) {
            Ok(p) => Some(p),
            Err(_) => None,
        },
        Err(_) => None,
    }
}

/// The text with JSON terminal syntax highlighting applied line by line.
pub uninterp spec fn highlighted_json(s: Seq<char>) -> Seq<char>;

/// Relies on syntect: the bundled grammar set and theme set are loaded, the
/// JSON grammar drives a line-by-line highlighter over the text (line
/// endings preserved), and each line is emitted as 24-bit terminal escapes.
/// The grammar and theme are compiled into the crate, so the result is a
/// function of the text alone.
#[verifier::external_body]
fn highlight_json_text(s: &str) -> (r: String)
    ensures
        r@ == highlighted_json(s@),
{
    let ps = syntect::parsing::SyntaxSet::load_defaults_newlines();
    let ts = syntect::highlighting::ThemeSet::load_defaults();
    let syntax = match ps.find_syntax_by_extension("json") {
        Some(x) => x,
        None => return s.to_string(),
    };
    let mut h = syntect::easy::HighlightLines::new(syntax, &ts.themes["base16-ocean.dark"]);
    let mut out = String::new();
    for line in syntect::util::LinesWithEndings::from(s) {
        match h.highlight_line(line, &ps) {
            Ok(ranges) => out.push_str(&syntect::util::as_24_bit_terminal_escaped(&ranges[..], true)),
            Err(_) => return s.to_string(),
        }
    }
    out
}

/// The text holds no terminal escape character.
pub open spec fn esc_free(s: Seq<char>) -> bool {
    forall|i: int| 0 <= i < s.len() ==> s[i] != '\u{1b}'
}

/// Relies on colored::Colorize::blue: the painted text is the input between
/// an optional style prefix and reset suffix; only an input that itself
/// holds a reset sequence is rewritten inside, so an input without escape
/// characters appears contiguously and unchanged.
#[verifier::external_body]
fn paint_blue(s: &str) -> (r: String)
    ensures
        esc_free(s@) ==> exists|p: Seq<char>, q: Seq<char>| r@ == p + s@ + q,
{
    s.blue().to_string()
}

/// Relies on colored::Colorize::green: as for the blue painter.
#[verifier::external_body]
fn paint_green(s: &str) -> (r: String)
    ensures
        esc_free(s@) ==> exists|p: Seq<char>, q: Seq<char>| r@ == p + s@ + q,
{
    s.green().to_string()
}

/// `needle` occurs contiguously in `hay`.
pub open spec fn contains_seq(hay: Seq<char>, needle: Seq<char>) -> bool {
    exists|k: int|
        0 <= k && k + needle.len() <= hay.len() && #[trigger] hay.subrange(
            k,
            k + needle.len() as int,
        ) == needle
}

/// An occurrence survives appending text on the right.
pub proof fn lemma_contains_extend(a: Seq<char>, b: Seq<char>, n: Seq<char>)
    requires
        contains_seq(a, n),
    ensures
        contains_seq(a + b, n),
{
    let k = choose|k: int| 0 <= k && k + n.len() <= a.len() && #[trigger] a.subrange(k, k + n.len() as int) == n;
    assert((a + b).subrange(k, k + n.len() as int) =~= a.subrange(k, k + n.len() as int));
}

/// An occurrence in the appended text is one in the whole.
pub proof fn lemma_contains_in_suffix(a: Seq<char>, b: Seq<char>, n: Seq<char>)
    requires
        contains_seq(b, n),
    ensures
        contains_seq(a + b, n),
{
    let k = choose|k: int| 0 <= k && k + n.len() <= b.len() && #[trigger] b.subrange(k, k + n.len() as int) == n;
    assert((a + b).subrange(a.len() + k as int, a.len() + k + n.len() as int) =~= b.subrange(k, k + n.len() as int));
}

/// A text wrapped between two others still occurs in the whole.
pub proof fn lemma_contains_mid(p: Seq<char>, s: Seq<char>, q: Seq<char>)
    ensures
        contains_seq(p + s + q, s),
{
    assert((p + s + q).subrange(p.len() as int, p.len() + s.len() as int) =~= s);
}

/// Every text occurs in itself.
pub proof fn lemma_contains_whole(s: Seq<char>)
    ensures
        contains_seq(s, s),
{
    assert(s.subrange(0, 0 + s.len() as int) =~= s);
}

/// The decimal digit character for a value below ten.
pub open spec fn digit_char(n: nat) -> char {
    if n == 0 {
        '0'
    } else if n == 1 {
        '1'
    } else if n == 2 {
        '2'
    } else if n == 3 {
        '3'
    } else if n == 4 {
        '4'
    } else if n == 5 {
        '5'
    } else if n == 6 {
        '6'
    } else if n == 7 {
        '7'
    } else if n == 8 {
        '8'
    } else {
        '9'
    }
}

/// The decimal digits of `n`, most significant first, no leading zeros.
pub open spec fn dec_digits(n: nat) -> Seq<char>
    decreases n,
{
    if n < 10 {
        seq![digit_char(n)]
    } else {
        dec_digits(n / 10) + seq![digit_char(n % 10)]
    }
}

/// The decimal digit for a value below ten, as a one-character text.
fn digit_str(d: u16) -> (r: &'static str)
    requires
        d < 10,
    ensures
        r@ == seq![digit_char(d as nat)],
{
    proof {
        reveal_strlit("0");
        reveal_strlit("1");
        reveal_strlit("2");
        reveal_strlit("3");
        reveal_strlit("4");
        reveal_strlit("5");
        reveal_strlit("6");
        reveal_strlit("7");
        reveal_strlit("8");
        reveal_strlit("9");
    }
    if d == 0 {
        "0"
    } else if d == 1 {
        "1"
    } else if d == 2 {
        "2"
    } else if d == 3 {
        "3"
    } else if d == 4 {
        "4"
    } else if d == 5 {
        "5"
    } else if d == 6 {
        "6"
    } else if d == 7 {
        "7"
    } else if d == 8 {
        "8"
    } else {
        "9"
    }
}

/// The decimal rendering of a status code.
pub fn dec_string(n: u16) -> (r: String)
    ensures
        r@ == dec_digits(n as nat),
    decreases n,
{
    if n < 10 {
        digit_str(n).to_owned()
    } else {
        proof {
            assert(n / 10 < n) by (nonlinear_arith)
                requires
                    n >= 10,
            ;
        }
        let mut s = dec_string(n / 10);
        s.append(digit_str(n % 10));
        s
    }
}

/// The plain status line: `{version} {code} {reason}`.
pub open spec fn status_text(version: Seq<char>, code: u16, reason: Seq<char>) -> Seq<char> {
    version + " "@ + dec_digits(code as nat) + " "@ + reason
}

/// The plain status line as a string. It is computed the same way for every
/// status code: error statuses are not special-cased.
pub fn status_line(version: &str, code: u16, reason: &str) -> (r: String)
    ensures
        r@ == status_text(version@, code, reason@),
{
    let mut out = version.to_owned();
    out.append(" ");
    let d = dec_string(code);
    out.append(d.as_str());
    out.append(" ");
    out.append(reason);
    proof {
        assert(out@ =~= status_text(version@, code, reason@));
    }
    out
}

/// The part of a header line after the name: ` => "{value}"` and a newline.
pub open spec fn header_value_part(value: Seq<char>) -> Seq<char> {
    " => \""@ + value + "\"\n"@
}

/// One plain header line: `{name} => "{value}"` and a newline.
pub open spec fn header_line(name: Seq<char>, value: Seq<char>) -> Seq<char> {
    name + header_value_part(value)
}

/// All plain header lines, in wire order.
pub open spec fn headers_text(hs: Seq<(String, String)>) -> Seq<char>
    decreases hs.len(),
{
    if hs.len() == 0 {
        Seq::empty()
    } else {
        headers_text(hs.drop_last()) + header_line(hs.last().0@, hs.last().1@)
    }
}

/// ASCII-case-insensitive character equality, over code points.
pub open spec fn ci_char_eq(a: char, b: char) -> bool {
    ||| (a as u32) == (b as u32)
    ||| (65 <= (a as u32) && (a as u32) <= 90 && (b as u32) == (a as u32) + 32)
    ||| (65 <= (b as u32) && (b as u32) <= 90 && (a as u32) == (b as u32) + 32)
}

/// ASCII-case-insensitive text equality.
pub open spec fn ci_eq(a: Seq<char>, b: Seq<char>) -> bool {
    a.len() == b.len() && forall|i: int| 0 <= i < a.len() ==> ci_char_eq(a[i], b[i])
}

fn ci_char_eq_exec(a: char, b: char) -> (r: bool)
    ensures
        r == ci_char_eq(a, b),
{
    let x = a as u32;
    let y = b as u32;
    x == y || (65 <= x && x <= 90 && y == x + 32) || (65 <= y && y <= 90 && x == y + 32)
}

fn ci_eq_str(a: &str, b: &str) -> (r: bool)
    ensures
        r == ci_eq(a@, b@),
{
    let na = a.unicode_len();
    let nb = b.unicode_len();
    if na != nb {
        return false;
    }
    let mut i: usize = 0;
    while i < na
        invariant
            na == a@.len(),
            nb == b@.len(),
            na == nb,
            0 <= i <= na,
            forall|j: int| 0 <= j < i ==> ci_char_eq(a@[j], b@[j]),
        decreases na - i,
    {
        if !ci_char_eq_exec(a.get_char(i), b.get_char(i)) {
            assert(!ci_char_eq(a@[i as int], b@[i as int]));
            return false;
        }
        i = i + 1;
    }
    true
}

/// The value of the first `Content-Type` header, names matched
/// ASCII-case-insensitively; `None` when there is none.
pub open spec fn content_type_value(hs: Seq<(String, String)>) -> Option<Seq<char>>
    decreases hs.len(),
{
    if hs.len() == 0 {
        None
    } else if ci_eq(hs[0].0@, "content-type"@) {
        Some(hs[0].1@)
    } else {
        content_type_value(hs.drop_first())
    }
}

/// Looks the `Content-Type` header up, first match in wire order, name
/// matched without regard to ASCII case.
pub fn content_type_of(headers: &Vec<(String, String)>) -> (r: Option<String>)
    ensures
        (match r {
            Option::Some(v) => content_type_value(headers@) == Some(v@),
            Option::None => content_type_value(headers@) is None,
        }),
{
    let n = headers.len();
    let mut i: usize = 0;
    proof {
        assert(headers@.skip(0) =~= headers@);
    }
    while i < n
        invariant
            n == headers@.len(),
            0 <= i <= n,
            content_type_value(headers@) == content_type_value(headers@.skip(i as int)),
        decreases n - i,
    {
        proof {
            assert(headers@.skip(i as int).drop_first() =~= headers@.skip(i as int + 1));
            assert(headers@.skip(i as int)[0] == headers@[i as int]);
        }
        if ci_eq_str(headers[i].0.as_str(), "content-type") {
            return Some(headers[i].1.clone());
        }
        i = i + 1;
    }
    proof {
        assert(headers@.skip(n as int) =~= Seq::<(String, String)>::empty());
    }
    None
}

/// Whether the headers declare a JSON payload: a `Content-Type` is present
/// and names `application/json` (a missing or malformed value counts as no
/// content type).
pub open spec fn declares_json(hs: Seq<(String, String)>) -> bool {
    match content_type_value(hs) {
        Option::Some(v) => is_json_media(v),
        Option::None => false,
    }
}

pub fn response_declares_json(headers: &Vec<(String, String)>) -> (r: bool)
    ensures
        r == declares_json(headers@),
{
    match content_type_of(headers) {
        Option::Some(v) => media_type_is_json(v.as_str()),
        Option::None => false,
    }
}

/// The body as the plain formatter emits it: pretty-printed when declared
/// and valid JSON; the raw text verbatim otherwise.
pub open spec fn body_plain(is_json: bool, b: Seq<char>) -> Seq<char> {
    if is_json {
        match json_pretty(b) {
            Option::Some(p) => p,
            Option::None => b,
        }
    } else {
        b
    }
}

/// The body as the colored formatter emits it: highlighted pretty-printed
/// JSON when declared and valid; the raw text verbatim otherwise.
pub open spec fn body_colored(is_json: bool, b: Seq<char>) -> Seq<char> {
    if is_json {
        match json_pretty(b) {
            Option::Some(p) => highlighted_json(p),
            Option::None => b,
        }
    } else {
        b
    }
}

/// Formats the body without color: a declared JSON payload is
/// pretty-printed; a body that fails to parse despite the declaration, or
/// any other payload, is emitted verbatim, never an error.
pub fn format_body(is_json: bool, body: &str) -> (r: String)
    ensures
        r@ == body_plain(is_json, body@),
{
    if is_json {
        match pretty_print_json(body) {
            Option::Some(p) => p,
            Option::None => body.to_owned(),
        }
    } else {
        body.to_owned()
    }
}

/// Formats the body for the terminal: as the plain formatter, with the
/// pretty-printed JSON additionally syntax-highlighted.
pub fn format_body_colored(is_json: bool, body: &str) -> (r: String)
    ensures
        r@ == body_colored(is_json, body@),
{
    if is_json {
        match pretty_print_json(body) {
            Option::Some(p) => highlight_json_text(p.as_str()),
            Option::None => body.to_owned(),
        }
    } else {
        body.to_owned()
    }
}

/// The renderer's read-only view of a received response: protocol version,
/// status code and reason, headers in wire order with names as they came,
/// and the full body text.
pub struct ResponseView {
    pub version: String,
    pub status_code: u16,
    pub reason: String,
    pub headers: Vec<(String, String)>,
    pub body: String,
}

/// The whole plain rendering: status line, blank line, header lines, blank
/// line, formatted body.
pub open spec fn rendered_plain(r: ResponseView) -> Seq<char> {
    status_text(r.version@, r.status_code, r.reason@) + "\n\n"@ + headers_text(r.headers@) + "\n"@
        + body_plain(declares_json(r.headers@), r.body@)
}

/// Renders the response without color: the status line (for every status
/// code alike), a blank line, one line per header in wire order, a blank
/// line, then the formatted body.
pub fn render_response_plain(resp: &ResponseView) -> (r: String)
    ensures
        r@ == rendered_plain(*resp),
{
    let mut out = status_line(resp.version.as_str(), resp.status_code, resp.reason.as_str());
    out.append("\n\n");
    let hs = &resp.headers;
    let n = hs.len();
    let ghost base = out@;
    let mut i: usize = 0;
    while i < n
        invariant
            n == hs@.len(),
            0 <= i <= n,
            out@ == base + headers_text(hs@.subrange(0, i as int)),
        decreases n - i,
    {
        out.append(hs[i].0.as_str());
        out.append(" => \"");
        out.append(hs[i].1.as_str());
        out.append("\"\n");
        proof {
            let pre = hs@.subrange(0, i as int + 1);
            assert(pre.drop_last() =~= hs@.subrange(0, i as int));
            assert(pre.last() == hs@[i as int]);
            assert(out@ =~= base + headers_text(pre));
        }
        i = i + 1;
    }
    proof {
        assert(hs@.subrange(0, n as int) =~= hs@);
    }
    out.append("\n");
    let is_json = response_declares_json(&resp.headers);
    let body = format_body(is_json, resp.body.as_str());
    out.append(body.as_str());
    proof {
        assert(out@ =~= rendered_plain(*resp));
    }
    out
}

/// Status-line rendering is uniform across status codes: two responses that
/// differ only in status code and reason render, after their status lines,
/// to the same text.
pub proof fn lemma_status_uniform(a: ResponseView, b: ResponseView)
    requires
        a.version == b.version,
        a.headers == b.headers,
        a.body == b.body,
    ensures
        rendered_plain(a).skip(status_text(a.version@, a.status_code, a.reason@).len() as int)
            == rendered_plain(b).skip(status_text(b.version@, b.status_code, b.reason@).len() as int),
{
    let tail = "\n\n"@ + headers_text(a.headers@) + "\n"@ + body_plain(
        declares_json(a.headers@),
        a.body@,
    );
    assert(rendered_plain(a).skip(
        status_text(a.version@, a.status_code, a.reason@).len() as int,
    ) =~= tail);
    assert(rendered_plain(b).skip(
        status_text(b.version@, b.status_code, b.reason@).len() as int,
    ) =~= tail);
}

/// Renders the response for the terminal: the status line painted blue,
/// header names painted green, the body highlighted when it is declared and
/// valid JSON. The painted text still holds the status line, each header
/// name (when they hold no escape character of their own) and each header's
/// ` => "{value}"` part, and it ends with exactly the formatted body.
pub fn render_response(resp: &ResponseView) -> (r: String)
    ensures
        exists|pre: Seq<char>|
            r@ == pre + "\n"@ + body_colored(declares_json(resp.headers@), resp.body@),
        esc_free(status_text(resp.version@, resp.status_code, resp.reason@)) ==> contains_seq(
            r@,
            status_text(resp.version@, resp.status_code, resp.reason@),
        ),
        forall|i: int|
            0 <= i < resp.headers@.len() && esc_free((#[trigger] resp.headers@[i]).0@)
                ==> contains_seq(r@, resp.headers@[i].0@),
        forall|i: int|
            0 <= i < resp.headers@.len() ==> contains_seq(
                r@,
                header_value_part((#[trigger] resp.headers@[i]).1@),
            ),
{
    let ghost st = status_text(resp.version@, resp.status_code, resp.reason@);
    let line = status_line(resp.version.as_str(), resp.status_code, resp.reason.as_str());
    let mut out = paint_blue(line.as_str());
    proof {
        if esc_free(st) {
            let (p, q) = choose|p: Seq<char>, q: Seq<char>| out@ == p + st + q;
            lemma_contains_mid(p, st, q);
        }
    }
    let ghost after_paint = out@;
    out.append("\n\n");
    proof {
        if esc_free(st) {
            lemma_contains_extend(after_paint, "\n\n"@, st);
        }
    }
    let hs = &resp.headers;
    let n = hs.len();
    let mut i: usize = 0;
    while i < n
        invariant
            n == hs@.len(),
            0 <= i <= n,
            esc_free(st) ==> contains_seq(out@, st),
            forall|j: int|
                0 <= j < i && esc_free((#[trigger] hs@[j]).0@) ==> contains_seq(out@, hs@[j].0@),
            forall|j: int|
                0 <= j < i ==> contains_seq(out@, header_value_part((#[trigger] hs@[j]).1@)),
        decreases n - i,
    {
        let ghost name = hs@[i as int].0@;
        let ghost vpart = header_value_part(hs@[i as int].1@);
        let painted = paint_green(hs[i].0.as_str());
        let ghost pv = painted@;
        let mut line = painted;
        line.append(" => \"");
        line.append(hs[i].1.as_str());
        line.append("\"\n");
        proof {
            assert(line@ =~= pv + vpart);
        }
        let ghost prev = out@;
        let ghost lv = line@;
        out.append(line.as_str());
        proof {
            // the value part of the new line occurs in the whole
            lemma_contains_whole(vpart);
            lemma_contains_in_suffix(pv, vpart, vpart);
            assert(pv + vpart == lv);
            lemma_contains_in_suffix(prev, lv, vpart);
            // the name occurs when it is escape-free
            if esc_free(name) {
                let (p, q) = choose|p: Seq<char>, q: Seq<char>| pv == p + name + q;
                lemma_contains_mid(p, name, q);
                lemma_contains_extend(pv, vpart, name);
                lemma_contains_in_suffix(prev, lv, name);
            }
            // earlier occurrences survive the append
            if esc_free(st) {
                lemma_contains_extend(prev, lv, st);
            }
            assert forall|j: int|
                0 <= j < i && esc_free((#[trigger] hs@[j]).0@) implies contains_seq(
                out@,
                hs@[j].0@,
            ) by {
                lemma_contains_extend(prev, lv, hs@[j].0@);
            }
            assert forall|j: int| 0 <= j < i implies contains_seq(
                out@,
                header_value_part((#[trigger] hs@[j]).1@),
            ) by {
                lemma_contains_extend(prev, lv, header_value_part(hs@[j].1@));
            }
        }
        i = i + 1;
    }
    let ghost lead = out@;
    out.append("\n");
    proof {
        if esc_free(st) {
            lemma_contains_extend(lead, "\n"@, st);
        }
        assert forall|j: int|
            0 <= j < n && esc_free((#[trigger] hs@[j]).0@) implies contains_seq(
            out@,
            hs@[j].0@,
        ) by {
            lemma_contains_extend(lead, "\n"@, hs@[j].0@);
        }
        assert forall|j: int| 0 <= j < n implies contains_seq(
            out@,
            header_value_part((#[trigger] hs@[j]).1@),
        ) by {
            lemma_contains_extend(lead, "\n"@, header_value_part(hs@[j].1@));
        }
    }
    let is_json = response_declares_json(&resp.headers);
    let body = format_body_colored(is_json, resp.body.as_str());
    let ghost pre_body = out@;
    out.append(body.as_str());
    proof {
        if esc_free(st) {
            lemma_contains_extend(pre_body, body@, st);
        }
        assert forall|j: int|
            0 <= j < n && esc_free((#[trigger] hs@[j]).0@) implies contains_seq(
            out@,
            hs@[j].0@,
        ) by {
            lemma_contains_extend(pre_body, body@, hs@[j].0@);
        }
        assert forall|j: int| 0 <= j < n implies contains_seq(
            out@,
            header_value_part((#[trigger] hs@[j]).1@),
        ) by {
            lemma_contains_extend(pre_body, body@, header_value_part(hs@[j].1@));
        }
        assert(out@ =~= lead + "\n"@ + body@);
    }
    out
}

} // verus!
