//! The decisions of the HTTP rendering server: which endpoint a request
//! goes to, and what a request is answered when it is refused or when
//! rendering fails or warns in strict mode. Sockets, threads and the
//! renderer itself stay with the caller.
use vstd::prelude::*;
use crate::diagnostics::Warning;
use crate::text::{chars_of, string_of, push_all, push_str, eq_str, decimal, decimal_exec};

verus! {

/// The remote-asset size cap a request gets when it names none: 10 MiB.
pub fn default_asset_size() -> (r: u64)
    ensures
        r == 10 * 1024 * 1024,
{
    10 * 1024 * 1024
}

/// The endpoints.
#[derive(PartialEq, Eq, Structural, Clone, Copy, Debug)]
pub enum Route {
    Health,
    Render,
    NotFound,
}

/// `GET /healthz` is the liveness probe, `POST /render` renders; anything
/// else is not found.
pub open spec fn route_of(method: Seq<char>, url: Seq<char>) -> Route {
    if method == "GET"@ && url == "/healthz"@ {
        Route::Health
    } else if method == "POST"@ && url == "/render"@ {
        Route::Render
    } else {
        Route::NotFound
    }
}

pub fn route(method: &str, url: &str) -> (r: Route)
    ensures
        r == route_of(method@, url@),
{
    let m = chars_of(method);
    let u = chars_of(url);
    if eq_str(&m, "GET") && eq_str(&u, "/healthz") {
        Route::Health
    } else if eq_str(&m, "POST") && eq_str(&u, "/render") {
        Route::Render
    } else {
        Route::NotFound
    }
}

/// The body of the liveness probe's answer.
pub fn health_body(version: &str) -> (r: String)
    ensures
        r@ == "{\"status\":\"ok\",\"version\":\""@ + version@ + "\"}"@,
{
    let mut out: Vec<char> = Vec::new();
    push_str(&mut out, "{\"status\":\"ok\",\"version\":\"");
    push_str(&mut out, version);
    push_str(&mut out, "\"}");
    string_of(&out)
}

/// The body of the answer to an unknown endpoint.
pub fn not_found_body(method: &str, url: &str) -> (r: String)
    ensures
        r@ == "not found: "@ + method@ + " "@ + url@,
{
    let mut out: Vec<char> = Vec::new();
    push_str(&mut out, "not found: ");
    push_str(&mut out, method);
    push_str(&mut out, " ");
    push_str(&mut out, url);
    string_of(&out)
}

/// An answer with a JSON body and a status code.
pub struct JsonReply {
    pub status: u16,
    pub body: String,
}

// ---------------------------------------------------------------------------
// JSON strings
// ---------------------------------------------------------------------------

/// A lower-case hexadecimal digit.
pub open spec fn hex_digit(d: int) -> char {
    if d < 10 {
        ('0' as int + d) as char
    } else {
        ('a' as int + d - 10) as char
    }
}

/// The JSON escape of one character: quote and backslash are escaped,
/// control characters get their short escape or `\u00XX`, every other
/// character stands for itself.
pub open spec fn json_escape_char(c: char) -> Seq<char> {
    if c == '"' {
        seq!['\\', '"']
    } else if c == '\\' {
        seq!['\\', '\\']
    } else if c == '\x08' {
        seq!['\\', 'b']
    } else if c == '\t' {
        seq!['\\', 't']
    } else if c == '\n' {
        seq!['\\', 'n']
    } else if c == '\x0C' {
        seq!['\\', 'f']
    } else if c == '\r' {
        seq!['\\', 'r']
    } else if (c as int) < 0x20 {
        seq!['\\', 'u', '0', '0', hex_digit(c as int / 16), hex_digit(c as int % 16)]
    } else {
        seq![c]
    }
}

/// The escapes of the characters of `s`, in order.
pub open spec fn json_escaped(s: Seq<char>) -> Seq<char>
    decreases s.len(),
{
    if s.len() == 0 {
        Seq::empty()
    } else {
        json_escaped(s.drop_last()) + json_escape_char(s.last())
    }
}

/// A JSON string literal for `s`.
pub open spec fn json_quoted(s: Seq<char>) -> Seq<char> {
    seq!['"'] + json_escaped(s) + seq!['"']
}

/// Serialises a string as a JSON string literal with `serde_json`: the
/// text between double quotes, with quote and backslash escaped, the
/// control characters U+0000 to U+001F written as `\b`, `\t`, `\n`, `\f`,
/// `\r` or `\u00XX` (lower-case hex), and every other character as is.
#[verifier::external_body]
fn json_string(s: &str) -> (r: String)
    ensures
        r@ == json_quoted(s@),
{
    match serde_json::to_string(s) {
        Ok(t) => t,
        Err(_) => String::new(),
    }
}

// ---------------------------------------------------------------------------
// Refusals
// ---------------------------------------------------------------------------

/// A request body over the cap is refused with 413.
pub open spec fn body_refusal(len: int, max_body: int) -> Option<(u16, Seq<char>)> {
    if len > max_body {
        Some((413u16, "{\"error\":\"request body exceeds "@ + decimal(max_body as nat) + " bytes\"}"@))
    } else {
        None
    }
}

pub open spec fn reply_view(r: Option<JsonReply>) -> Option<(u16, Seq<char>)> {
    match r {
        Some(j) => Some((j.status, j.body@)),
        None => None,
    }
}

/// The answer to a body of `len` bytes when the cap is `max_body`: `None`
/// when the body is within the cap.
pub fn body_limit_reply(len: usize, max_body: usize) -> (r: Option<JsonReply>)
    ensures
        reply_view(r) == body_refusal(len as int, max_body as int),
{
    if len > max_body {
        let mut out: Vec<char> = Vec::new();
        push_str(&mut out, "{\"error\":\"request body exceeds ");
        let n = decimal_exec(max_body);
        push_all(&mut out, &n);
        push_str(&mut out, " bytes\"}");
        Some(JsonReply { status: 413, body: string_of(&out) })
    } else {
        None
    }
}

/// `s` with each double quote preceded by a backslash.
pub open spec fn quotes_escaped(s: Seq<char>) -> Seq<char>
    decreases s.len(),
{
    if s.len() == 0 {
        Seq::empty()
    } else {
        quotes_escaped(s.drop_last()) + if s.last() == '"' {
            seq!['\\', '"']
        } else {
            seq![s.last()]
        }
    }
}

/// The answer to a body that is not valid JSON: 400, with the parser's
/// message (its double quotes escaped) in the error.
pub fn invalid_json_reply(message: &str) -> (r: JsonReply)
    ensures
        r.status == 400,
        r.body@ == "{\"error\":\"invalid JSON: "@ + quotes_escaped(message@) + "\"}"@,
{
    let v = chars_of(message);
    let mut out: Vec<char> = Vec::new();
    push_str(&mut out, "{\"error\":\"invalid JSON: ");
    let ghost start = out@;
    let mut i: usize = 0;
    while i < v.len()
        invariant
            i <= v.len(),
            out@ == start + quotes_escaped(v@.take(i as int)),
        decreases v.len() - i,
    {
        proof {
            assert(v@.take(i + 1).drop_last() == v@.take(i as int));
        }
        if v[i] == '"' {
            out.push('\\');
            out.push('"');
        } else {
            out.push(v[i]);
        }
        i = i + 1;
        assert(out@ =~= start + quotes_escaped(v@.take(i as int)));
    }
    assert(v@.take(v.len() as int) == v@);
    push_str(&mut out, "\"}");
    JsonReply { status: 400, body: string_of(&out) }
}

/// The content of a render request: the HTML (with input format `html`)
/// or the Markdown (with input format `md`); exactly one must be given.
pub open spec fn content_choice(html: Option<Seq<char>>, markdown: Option<Seq<char>>)
    -> Result<(Seq<char>, Seq<char>), (u16, Seq<char>)>
{
    match (html, markdown) {
        (Some(_), Some(_)) => Err((400u16, "{\"error\":\"provide exactly one of 'html' or 'markdown'\"}"@)),
        (Some(h), None) => Ok((h, "html"@)),
        (None, Some(m)) => Ok((m, "md"@)),
        (None, None) => Err((400u16, "{\"error\":\"provide 'html' or 'markdown' in the JSON body\"}"@)),
    }
}

pub open spec fn opt_string_view(o: Option<String>) -> Option<Seq<char>> {
    match o {
        Some(s) => Some(s@),
        None => None,
    }
}

pub open spec fn content_view(r: Result<(String, String), JsonReply>) -> Result<(Seq<char>, Seq<char>), (u16, Seq<char>)> {
    match r {
        Ok((c, f)) => Ok((c@, f@)),
        Err(j) => Err((j.status, j.body@)),
    }
}

/// Picks the document of a render request and its input format, or the
/// refusal when both or neither of `html` and `markdown` are given.
pub fn select_content(html: Option<String>, markdown: Option<String>) -> (r: Result<(String, String), JsonReply>)
    ensures
        content_view(r) == content_choice(opt_string_view(html), opt_string_view(markdown)),
{
    match (html, markdown) {
        (Some(_), Some(_)) => {
            let body = string_of(&chars_of("{\"error\":\"provide exactly one of 'html' or 'markdown'\"}"));
            Err(JsonReply { status: 400, body })
        },
        (Some(h), None) => Ok((h, string_of(&chars_of("html")))),
        (None, Some(m)) => Ok((m, string_of(&chars_of("md")))),
        (None, None) => {
            let body = string_of(&chars_of("{\"error\":\"provide 'html' or 'markdown' in the JSON body\"}"));
            Err(JsonReply { status: 400, body })
        },
    }
}

// ---------------------------------------------------------------------------
// Outcomes
// ---------------------------------------------------------------------------

/// A warning as a line of text: `[code] message`.
pub open spec fn warning_line(w: Warning) -> Seq<char> {
    "["@ + w.code@ + "] "@ + w.message@
}

/// The JSON array of the warning lines, in order.
pub open spec fn warning_items(ws: Seq<Warning>) -> Seq<char>
    decreases ws.len(),
{
    if ws.len() == 0 {
        Seq::empty()
    } else if ws.len() == 1 {
        json_quoted(warning_line(ws[0]))
    } else {
        warning_items(ws.drop_last()) + seq![','] + json_quoted(warning_line(ws.last()))
    }
}

/// In strict mode a render that warned is refused with 422 and the
/// warnings; otherwise the PDF is sent.
pub open spec fn strict_refusal(strict: bool, ws: Seq<Warning>) -> Option<(u16, Seq<char>)> {
    if strict && ws.len() > 0 {
        Some((422u16, "{\"error\":\"strict mode: warnings\",\"warnings\":["@ + warning_items(ws) + "]}"@))
    } else {
        None
    }
}

fn warning_line_string(w: &Warning) -> (r: String)
    ensures
        r@ == warning_line(*w),
{
    let mut out: Vec<char> = Vec::new();
    push_str(&mut out, "[");
    push_str(&mut out, w.code);
    push_str(&mut out, "] ");
    push_str(&mut out, w.message.as_str());
    string_of(&out)
}

/// The answer to a finished render: `None` means the PDF goes out.
pub fn strict_reply(strict: bool, warnings: &[Warning]) -> (r: Option<JsonReply>)
    ensures
        reply_view(r) == strict_refusal(strict, warnings@),
{
    if !strict || warnings.len() == 0 {
        return None;
    }
    let mut out: Vec<char> = Vec::new();
    push_str(&mut out, "{\"error\":\"strict mode: warnings\",\"warnings\":[");
    let ghost start = out@;
    let mut i: usize = 0;
    while i < warnings.len()
        invariant
            i <= warnings.len(),
            out@ == start + warning_items(warnings@.take(i as int)),
        decreases warnings.len() - i,
    {
        proof {
            assert(warnings@.take(i + 1).drop_last() == warnings@.take(i as int));
        }
        if i > 0 {
            out.push(',');
        }
        let line = warning_line_string(&warnings[i]);
        let q = chars_of(json_string(line.as_str()).as_str());
        push_all(&mut out, &q);
        i = i + 1;
        assert(out@ =~= start + warning_items(warnings@.take(i as int)));
    }
    assert(warnings@.take(warnings.len() as int) == warnings@);
    push_str(&mut out, "]}");
    Some(JsonReply { status: 422, body: string_of(&out) })
}

/// The answer to a render that failed: 500 with the error text.
pub fn render_error_reply(message: &str) -> (r: JsonReply)
    ensures
        r.status == 500,
        r.body@ == "{\"error\":"@ + json_quoted(message@) + "}"@,
{
    let mut out: Vec<char> = Vec::new();
    push_str(&mut out, "{\"error\":");
    let q = chars_of(json_string(message).as_str());
    push_all(&mut out, &q);
    push_str(&mut out, "}");
    JsonReply { status: 500, body: string_of(&out) }
}

} // verus!
