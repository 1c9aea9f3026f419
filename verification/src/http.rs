//! The HTTP front end's own logic: how a request is read and routed, how
//! its query string is decoded, what a write or a query asks of the engine,
//! and how a response is framed.
//!
//! Parameter names are matched ignoring ASCII case.

use vstd::prelude::*;
use vstd::string::*;
use crate::api::ENGINE_VERSION;
use crate::chars::{is_white_space, trim, trim_seq, white_space};
use crate::downsample::{div_toward_zero, trunc_div};
use crate::error::{error_text, Error};
use crate::influxql::{find_seq, find_str, Parser, Statement};
use crate::line_protocol::{char_pos, lines_view, split_char, split_on, strings, LineProtocolParser, ParsedLine, ParsedLineView};
use crate::text::{append_u64, dec_nat, lossy_string, push_char, push_str, str_eq, utf8_lossy};

verus! {

/// Where the HTTP server listens, and its limits.
#[derive(Debug, Clone)]
pub struct HttpConfig {
    pub bind_addr: String,
    pub read_timeout_secs: u64,
    pub write_timeout_secs: u64,
    pub max_connections: usize,
}

impl Default for HttpConfig {
    /// Port 8086 on every address, 30 s to read and to write, 100 connections.
    fn default() -> (c: Self)
        ensures
            c.bind_addr@ == "0.0.0.0:8086"@,
            c.read_timeout_secs == 30,
            c.write_timeout_secs == 30,
            c.max_connections == 100,
    {
        HttpConfig {
            bind_addr: "0.0.0.0:8086".to_owned(),
            read_timeout_secs: 30,
            write_timeout_secs: 30,
            max_connections: 100,
        }
    }
}

/// The parameters of `/write`.
#[derive(Debug, Clone)]
pub struct WriteParams {
    pub db: Option<String>,
    pub rp: Option<String>,
    pub precision: Option<String>,
    pub consistency: Option<String>,
}

/// The parameters of `/query`.
#[derive(Debug, Clone)]
pub struct QueryParams {
    pub db: Option<String>,
    pub rp: Option<String>,
    pub query: Option<String>,
    pub chunked: Option<bool>,
    pub chunk_size: Option<usize>,
}

/// The answer to `/ping`.
#[derive(Debug, Clone)]
pub struct PingResponse {
    pub status: String,
    pub version: String,
}

// ----- responses -----

/// An HTTP/1.1 response with a JSON body: the status line, the server, the
/// content type, the length of the body in bytes, `Connection: close`, a
/// blank line, and the body, left out for 204.
pub open spec fn http_response(status_code: u16, status_text: Seq<char>, body: Seq<char>) -> Seq<char> {
    "HTTP/1.1 "@ + dec_nat(status_code as nat) + " "@ + status_text
        + "\r\nServer: openGemini-rs/"@ + ENGINE_VERSION@
        + "\r\nContent-Type: application/json\r\nContent-Length: "@
        + dec_nat(vstd::utf8::encode_utf8(body).len())
        + "\r\nConnection: close\r\n\r\n"@
        + (if status_code == 204 { Seq::empty() } else { body })
}

/// Frames a response.
pub fn format_http_response(status_code: u16, status_text: &str, body: &str) -> (r: String)
    ensures
        r@ == http_response(status_code, status_text@, body@),
{
    let content_length = body.as_bytes().len();
    let mut s = "HTTP/1.1 ".to_owned();
    append_u64(&mut s, status_code as u64);
    push_str(&mut s, " ");
    push_str(&mut s, status_text);
    push_str(&mut s, "\r\nServer: openGemini-rs/");
    push_str(&mut s, ENGINE_VERSION);
    push_str(&mut s, "\r\nContent-Type: application/json\r\nContent-Length: ");
    append_u64(&mut s, content_length as u64);
    push_str(&mut s, "\r\nConnection: close\r\n\r\n");
    if status_code != 204 {
        push_str(&mut s, body);
    }
    proof {
        reveal_strlit("");
    }
    s
}

// ----- query strings -----

/// The value of a hexadecimal digit.
pub open spec fn hex_value(c: char) -> Option<u8> {
    if '0' <= c <= '9' {
        Some((c as int - '0' as int) as u8)
    } else if 'a' <= c <= 'f' {
        Some((c as int - 'a' as int + 10) as u8)
    } else if 'A' <= c <= 'F' {
        Some((c as int - 'A' as int + 10) as u8)
    } else {
        None
    }
}

/// The byte that two characters after `%` stand for, as
/// `u8::from_str_radix(_, 16)` reads them: two hexadecimal digits, or `+`
/// and one.
pub open spec fn escaped_byte(t: Seq<char>) -> Option<u8> {
    if t.len() != 2 {
        None
    } else if t[0] == '+' {
        hex_value(t[1])
    } else {
        match (hex_value(t[0]), hex_value(t[1])) {
            (Some(a), Some(b)) => Some((a * 16 + b) as u8),
            _ => None,
        }
    }
}

/// A query-string value decoded: `%` and the (up to) two characters after it
/// become the character of that byte where they read as one, else stay as
/// they are; `+` becomes a space.
pub open spec fn url_decoded(s: Seq<char>) -> Seq<char>
    decreases s.len(),
{
    if s.len() == 0 {
        s
    } else if s[0] == '%' {
        let k = if s.len() >= 3 { 3 } else { s.len() as int };
        let t = s.subrange(1, k);
        let out = match escaped_byte(t) {
            Some(b) => seq![b as char],
            None => seq!['%'] + t,
        };
        out + url_decoded(s.subrange(k, s.len() as int))
    } else if s[0] == '+' {
        seq![' '] + url_decoded(s.subrange(1, s.len() as int))
    } else {
        seq![s[0]] + url_decoded(s.subrange(1, s.len() as int))
    }
}

fn hex_digit(c: char) -> (r: Option<u8>)
    ensures
        r == hex_value(c),
{
    if '0' <= c && c <= '9' {
        Some(((c as u32) - ('0' as u32)) as u8)
    } else if 'a' <= c && c <= 'f' {
        Some(((c as u32) - ('a' as u32) + 10) as u8)
    } else if 'A' <= c && c <= 'F' {
        Some(((c as u32) - ('A' as u32) + 10) as u8)
    } else {
        None
    }
}

/// Decodes a query-string value.
pub fn url_decode(s: &str) -> (r: String)
    ensures
        r@ == url_decoded(s@),
{
    let n = s.unicode_len();
    let mut result = String::new();
    let mut i: usize = 0;
    proof { assert(s@.subrange(0, n as int) =~= s@); }
    while i < n
        invariant
            n == s@.len(),
            i <= n,
            result@ + url_decoded(s@.subrange(i as int, n as int)) == url_decoded(s@),
        decreases n - i,
    {
        let ghost rest = s@.subrange(i as int, n as int);
        let c = s.get_char(i);
        if c == '%' {
            let k: usize = if n - i >= 3 { 3 } else { n - i };
            let t = s.substring_char(i + 1, i + k);
            let mut byte: Option<u8> = None;
            if k == 3 {
                let a = s.get_char(i + 1);
                let b = s.get_char(i + 2);
                if a == '+' {
                    byte = hex_digit(b);
                } else {
                    match (hex_digit(a), hex_digit(b)) {
                        (Some(x), Some(y)) => {
                            proof { assert(x < 16 && y < 16); }
                            byte = Some(x * 16 + y);
                        },
                        _ => {},
                    }
                }
            }
            proof {
                assert(t@ =~= rest.subrange(1, k as int));
                assert(rest.subrange(k as int, rest.len() as int) =~= s@.subrange(i + k, n as int));
                assert(byte == escaped_byte(t@));
            }
            match byte {
                Some(b) => { push_char(&mut result, b as char); },
                None => { push_char(&mut result, '%'); push_str(&mut result, t); },
            }
            proof {
                assert(result@ + url_decoded(s@.subrange(i + k, n as int)) =~= url_decoded(s@));
            }
            i = i + k;
        } else {
            if c == '+' { push_char(&mut result, ' '); } else { push_char(&mut result, c); }
            proof { assert(rest.subrange(1, rest.len() as int) =~= s@.subrange(i + 1, n as int)); }
            i = i + 1;
        }
    }
    proof { assert(s@.subrange(n as int, n as int) =~= Seq::<char>::empty()); }
    result
}

/// A timestamp in the given precision, in nanoseconds' stead: `u`/`us`
/// divide by a thousand, `ms` by a million, `s` by a billion, `m` and `h`
/// by a minute's and an hour's nanoseconds (each cut toward zero); any
/// other precision leaves it as it is.
pub open spec fn converted_timestamp(ts: i64, precision: Seq<char>) -> i64 {
    if precision == "u"@ || precision == "us"@ {
        trunc_div(ts as int, 1000) as i64
    } else if precision == "ms"@ {
        trunc_div(ts as int, 1_000_000) as i64
    } else if precision == "s"@ {
        trunc_div(ts as int, 1_000_000_000) as i64
    } else if precision == "m"@ {
        trunc_div(ts as int, 60_000_000_000) as i64
    } else if precision == "h"@ {
        trunc_div(ts as int, 3_600_000_000_000) as i64
    } else {
        ts
    }
}

/// Converts a timestamp of the given precision.
pub fn convert_timestamp(ts: i64, precision: &str) -> (r: i64)
    ensures
        r == converted_timestamp(ts, precision@),
{
    if str_eq(precision, "u") || str_eq(precision, "us") {
        div_toward_zero(ts, 1000)
    } else if str_eq(precision, "ms") {
        div_toward_zero(ts, 1_000_000)
    } else if str_eq(precision, "s") {
        div_toward_zero(ts, 1_000_000_000)
    } else if str_eq(precision, "m") {
        div_toward_zero(ts, 60_000_000_000)
    } else if str_eq(precision, "h") {
        div_toward_zero(ts, 3_600_000_000_000)
    } else {
        ts
    }
}


// ----- requests -----

/// The lines of a text as `str::lines` gives them: split at each `\n`, a
/// `\r` just before a `\n` dropped, and nothing after a final `\n`.
pub open spec fn text_lines(s: Seq<char>) -> Seq<Seq<char>> {
    let pieces = split_on(s, '\n');
    let kept = if pieces.len() > 0 && pieces.last().len() == 0 { pieces.drop_last() } else { pieces };
    Seq::new(kept.len(), |i: int|
        if i < pieces.len() - 1 && kept[i].len() > 0 && kept[i].last() == '\r' { kept[i].drop_last() } else { kept[i] })
}

/// The lines of a text.
pub fn lines_of_text(s: &str) -> (r: Vec<String>)
    ensures
        strings(r@) == text_lines(s@),
{
    let parts = split_char(s, '\n');
    let ghost pieces = strings(parts@);
    let n = parts.len();
    let kept: usize = if n > 0 && parts[n - 1].unicode_len() == 0 { n - 1 } else { n };
    let mut out: Vec<String> = Vec::new();
    let mut i: usize = 0;
    while i < kept
        invariant
            n == parts@.len(),
            pieces == strings(parts@),
            pieces == split_on(s@, '\n'),
            kept <= n,
            kept == (if pieces.len() > 0 && pieces.last().len() == 0 { n - 1 } else { n as int }),
            i <= kept,
            strings(out@) =~= text_lines(s@).take(i as int),
        decreases kept - i,
    {
        let piece = parts[i].as_str();
        let m = piece.unicode_len();
        let line = if i + 1 < n && m > 0 && piece.get_char(m - 1) == '\r' {
            piece.substring_char(0, m - 1).to_owned()
        } else {
            piece.to_owned()
        };
        proof {
            assert(pieces[i as int] == parts@[i as int]@);
            assert(line@ == text_lines(s@)[i as int]);
            assert(strings(out@.push(line)) =~= strings(out@).push(line@));
        }
        out.push(line);
        i = i + 1;
    }
    proof { assert(text_lines(s@).take(kept as int) =~= text_lines(s@)); }
    out
}

/// The lines of a request, its bytes read as UTF-8 with invalid sequences
/// replaced.
pub fn request_lines(buffer: &[u8]) -> (r: Vec<String>)
    ensures
        strings(r@) == text_lines(utf8_lossy(buffer@)),
{
    let text = lossy_string(buffer);
    lines_of_text(text.as_str())
}

/// The longest request that is read before it is handled.
pub const MAX_REQUEST_BYTES: usize = 32768;

/// Whether enough of a request has been read: more than the limit, or up to
/// the blank line that ends the header.
pub open spec fn request_read(buffer: Seq<u8>) -> bool {
    buffer.len() > MAX_REQUEST_BYTES
        || (buffer.len() >= 4 && buffer.subrange(buffer.len() - 4, buffer.len() as int) == seq![13u8, 10u8, 13u8, 10u8])
}

/// Whether to stop reading a request.
pub fn request_complete(buffer: &[u8]) -> (r: bool)
    ensures
        r == request_read(buffer@),
{
    let n = buffer.len();
    if n > MAX_REQUEST_BYTES {
        return true;
    }
    if n < 4 {
        return false;
    }
    let r = buffer[n - 4] == 13 && buffer[n - 3] == 10 && buffer[n - 2] == 13 && buffer[n - 1] == 10;
    proof {
        let tail = buffer@.subrange(n - 4, n as int);
        if r { assert(tail =~= seq![13u8, 10u8, 13u8, 10u8]); }
        if tail == seq![13u8, 10u8, 13u8, 10u8] {
            assert(tail[0] == buffer@[n - 4]);
            assert(tail[1] == buffer@[n - 3]);
            assert(tail[2] == buffer@[n - 2]);
            assert(tail[3] == buffer@[n - 1]);
        }
    }
    r
}

/// What a request asks for.
#[derive(Debug, Clone, Copy, PartialEq, Eq)]
pub enum Route {
    Ping,
    Write,
    Query,
    Root,
    NotFound,
    MethodNotAllowed,
}

/// The end of the run of characters that are not white space from `p`.
pub open spec fn word_end(s: Seq<char>, p: int) -> int
    decreases s.len() - p,
{
    if 0 <= p < s.len() && !white_space(s[p]) { word_end(s, p + 1) } else { p }
}

/// The end of the run of white space from `p`.
pub open spec fn space_end(s: Seq<char>, p: int) -> int
    decreases s.len() - p,
{
    if 0 <= p < s.len() && white_space(s[p]) { space_end(s, p + 1) } else { p }
}

/// The first word of a text, or nothing.
pub open spec fn first_word(s: Seq<char>) -> Seq<char> {
    let b = space_end(s, 0);
    s.subrange(b, word_end(s, b))
}

proof fn lemma_runs(s: Seq<char>, p: int)
    requires
        0 <= p <= s.len(),
    ensures
        p <= space_end(s, p) <= s.len(),
        p <= word_end(s, p) <= s.len(),
    decreases s.len() - p,
{
    if p < s.len() {
        lemma_runs(s, p + 1);
    }
}

/// The route of a request by its first line, upper-cased: `/PING`,
/// `/WRITE` and `/QUERY`, then `GET` of a path, where `/` (or none) is the
/// root; any other method is not allowed.
pub open spec fn route_of(first_line: Seq<char>) -> Route {
    let u = crate::chars::upper_case(first_line);
    if "GET /PING"@.is_prefix_of(u) {
        Route::Ping
    } else if "POST /WRITE"@.is_prefix_of(u) || "GET /WRITE"@.is_prefix_of(u) {
        Route::Write
    } else if "POST /QUERY"@.is_prefix_of(u) || "GET /QUERY"@.is_prefix_of(u) {
        Route::Query
    } else if "GET /"@.is_prefix_of(u) {
        let path = first_word(u.subrange(4, u.len() as int));
        if path == "/"@ || path.len() == 0 {
            Route::Root
        } else if path == "/ping"@ {
            Route::Ping
        } else {
            Route::NotFound
        }
    } else {
        Route::MethodNotAllowed
    }
}

fn first_word_of(s: &str) -> (r: String)
    ensures
        r@ == first_word(s@),
{
    let n = s.unicode_len();
    proof { lemma_runs(s@, 0); }
    let mut b: usize = 0;
    while b < n && is_white_space(s.get_char(b))
        invariant
            n == s@.len(),
            b <= n,
            space_end(s@, 0) == space_end(s@, b as int),
        decreases n - b,
    {
        b = b + 1;
    }
    proof { lemma_runs(s@, b as int); }
    let mut e: usize = b;
    while e < n && !is_white_space(s.get_char(e))
        invariant
            n == s@.len(),
            b <= e <= n,
            b == space_end(s@, 0),
            word_end(s@, b as int) == word_end(s@, e as int),
        decreases n - e,
    {
        e = e + 1;
    }
    s.substring_char(b, e).to_owned()
}

/// Routes a request by its first line.
pub fn route(first_line: &str) -> (r: Route)
    ensures
        r == route_of(first_line@),
{
    let upper = crate::chars::to_upper(first_line);
    let u = upper.as_str();
    if crate::text::starts_with(u, "GET /PING") {
        Route::Ping
    } else if crate::text::starts_with(u, "POST /WRITE") || crate::text::starts_with(u, "GET /WRITE") {
        Route::Write
    } else if crate::text::starts_with(u, "POST /QUERY") || crate::text::starts_with(u, "GET /QUERY") {
        Route::Query
    } else if crate::text::starts_with(u, "GET /") {
        proof { reveal_strlit("GET /"); }
        let rest = u.substring_char(4, u.unicode_len());
        let path = first_word_of(rest);
        if str_eq(path.as_str(), "/") || path.unicode_len() == 0 {
            Route::Root
        } else if str_eq(path.as_str(), "/ping") {
            Route::Ping
        } else {
            Route::NotFound
        }
    } else {
        Route::MethodNotAllowed
    }
}


// ----- parameters -----

/// The lower case of an ASCII letter; any other character as it is.
pub open spec fn ascii_lower(c: char) -> char {
    if 'A' <= c <= 'Z' { ((c as int) + 32) as char } else { c }
}

/// Whether a parameter begins with a key (lower case), ignoring ASCII case.
pub open spec fn has_key(p: Seq<char>, key: Seq<char>) -> bool {
    key.len() <= p.len() && forall|i: int| 0 <= i < key.len() ==> ascii_lower(#[trigger] p[i]) == key[i]
}

/// The value of the last parameter with the key, decoded.
pub open spec fn last_param(params: Seq<Seq<char>>, key: Seq<char>) -> Option<Seq<char>>
    decreases params.len(),
{
    if params.len() == 0 {
        None
    } else if has_key(params.last(), key) {
        Some(url_decoded(params.last().subrange(key.len() as int, params.last().len() as int)))
    } else {
        last_param(params.drop_last(), key)
    }
}

/// The value of the parameter with the key, or a default.
pub open spec fn param_or(params: Seq<Seq<char>>, key: Seq<char>, default: Seq<char>) -> Seq<char> {
    match last_param(params, key) {
        Some(v) => v,
        None => default,
    }
}

fn key_matches(p: &str, key: &str) -> (r: bool)
    requires
        forall|i: int| 0 <= i < key@.len() ==> !('A' <= #[trigger] key@[i] <= 'Z'),
    ensures
        r == has_key(p@, key@),
{
    let m = key.unicode_len();
    if m > p.unicode_len() {
        return false;
    }
    let mut i: usize = 0;
    while i < m
        invariant
            m == key@.len(),
            m <= p@.len(),
            i <= m,
            forall|j: int| 0 <= j < i ==> ascii_lower(#[trigger] p@[j]) == key@[j],
        decreases m - i,
    {
        let c = p.get_char(i);
        let l = if 'A' <= c && c <= 'Z' { ((c as u32) + 32) as u8 as char } else { c };
        proof {
            if 'A' <= c && c <= 'Z' {
                assert(l == ascii_lower(c));
            }
        }
        if l != key.get_char(i) {
            return false;
        }
        i = i + 1;
    }
    true
}

/// The decoded value of the last parameter with the key, or the default.
fn find_param(params: &Vec<String>, key: &str, default: &str) -> (r: String)
    requires
        forall|i: int| 0 <= i < key@.len() ==> !('A' <= #[trigger] key@[i] <= 'Z'),
    ensures
        r@ == param_or(strings(params@), key@, default@),
{
    let mut i: usize = params.len();
    proof { assert(strings(params@).take(i as int) =~= strings(params@)); }
    while i > 0
        invariant
            i <= params@.len(),
            forall|i: int| 0 <= i < key@.len() ==> !('A' <= #[trigger] key@[i] <= 'Z'),
            last_param(strings(params@), key@) == last_param(strings(params@).take(i as int), key@),
        decreases i,
    {
        let p = params[i - 1].as_str();
        let ghost ps = strings(params@).take(i as int);
        proof { assert(ps.last() == p@); assert(ps.drop_last() =~= strings(params@).take(i - 1)); }
        if key_matches(p, key) {
            return url_decode(p.substring_char(key.unicode_len(), p.unicode_len()));
        }
        i = i - 1;
    }
    default.to_owned()
}

/// The parameters of `/write` in a request line: those after the first `?`
/// that follows `/write`, split at `&`; none without them.
pub open spec fn write_query(first_line: Seq<char>) -> Seq<Seq<char>> {
    match find_seq(first_line, "/write"@) {
        None => Seq::empty(),
        Some(q) => {
            let after = first_line.subrange(q + 6, first_line.len() as int);
            match char_pos(after, '?') {
                None => Seq::empty(),
                Some(p) => split_on(after.subrange(p + 1, after.len() as int), '&'),
            }
        },
    }
}

/// The parameters of `/query` in a request line: those after the first `?`
/// that follows `/query` (or all that follows it), split at `&`.
pub open spec fn query_query(first_line: Seq<char>) -> Seq<Seq<char>> {
    match find_seq(first_line, "/query"@) {
        None => Seq::empty(),
        Some(q) => {
            let after = first_line.subrange(q + 6, first_line.len() as int);
            match char_pos(after, '?') {
                None => split_on(after, '&'),
                Some(p) => split_on(after.subrange(p + 1, after.len() as int), '&'),
            }
        },
    }
}

fn params_after(first_line: &str, path: &str, whole_without_mark: bool) -> (r: Vec<String>)
    requires
        path@.len() == 6,
    ensures
        !whole_without_mark && path@ == "/write"@ ==> strings(r@) == write_query(first_line@),
        whole_without_mark && path@ == "/query"@ ==> strings(r@) == query_query(first_line@),
{
    let n = first_line.unicode_len();
    match find_str(first_line, path) {
        None => Vec::new(),
        Some(q) => {
            let after = first_line.substring_char(q + 6, n);
            match crate::line_protocol::find_char(after, '?') {
                None => if whole_without_mark { split_char(after, '&') } else { Vec::new() },
                Some(p) => split_char(after.substring_char(p + 1, after.unicode_len()), '&'),
            }
        },
    }
}

/// The database and precision that a `/write` request line names: by
/// default none and nanoseconds.
pub fn write_target(first_line: &str) -> (r: (String, String))
    ensures
        r.0@ == param_or(write_query(first_line@), "db="@, ""@),
        r.1@ == param_or(write_query(first_line@), "precision="@, "ns"@),
{
    proof { reveal_strlit("/write"); reveal_strlit("db="); reveal_strlit("precision="); }
    let params = params_after(first_line, "/write", false);
    (find_param(&params, "db=", ""), find_param(&params, "precision=", "ns"))
}


// ----- writes -----

/// The first position from `i` where a blank line (`\r\n\r\n`) begins.
pub open spec fn blank_line_from(b: Seq<u8>, i: int) -> Option<int>
    decreases b.len() - i,
{
    if i < 0 || i + 4 > b.len() {
        None
    } else if b.subrange(i, i + 4) == seq![13u8, 10u8, 13u8, 10u8] {
        Some(i)
    } else {
        blank_line_from(b, i + 1)
    }
}

/// Where the body of a request begins: after its first blank line, or 0
/// when it has none.
pub open spec fn body_start(b: Seq<u8>) -> int {
    match blank_line_from(b, 0) {
        Some(p) => p + 4,
        None => 0,
    }
}

proof fn lemma_blank_line(b: Seq<u8>, i: int)
    requires
        0 <= i,
    ensures
        blank_line_from(b, i) matches Some(p) ==> i <= p && p + 4 <= b.len(),
    decreases b.len() - i,
{
    if i + 4 <= b.len() && b.subrange(i, i + 4) != seq![13u8, 10u8, 13u8, 10u8] {
        lemma_blank_line(b, i + 1);
    }
}

fn find_blank_line(b: &[u8]) -> (r: Option<usize>)
    ensures
        r matches Some(p) ==> blank_line_from(b@, 0) == Some(p as int) && p + 4 <= b@.len(),
        r is None ==> blank_line_from(b@, 0) is None,
{
    proof { lemma_blank_line(b@, 0); }
    let n = b.len();
    if n < 4 {
        return None;
    }
    let mut i: usize = 0;
    while i <= n - 4
        invariant
            n == b@.len(),
            n >= 4,
            blank_line_from(b@, 0) == blank_line_from(b@, i as int),
        decreases n - i,
    {
        let hit = b[i] == 13 && b[i + 1] == 10 && b[i + 2] == 13 && b[i + 3] == 10;
        proof {
            let w = b@.subrange(i as int, i + 4);
            if hit { assert(w =~= seq![13u8, 10u8, 13u8, 10u8]); }
            if w == seq![13u8, 10u8, 13u8, 10u8] {
                assert(w[0] == b@[i as int] && w[1] == b@[i + 1] && w[2] == b@[i + 2] && w[3] == b@[i + 3]);
            }
        }
        if hit {
            return Some(i);
        }
        i = i + 1;
    }
    None
}

/// The lines that a `/write` request carries: those of its body, read as
/// UTF-8, where it has a non-empty one, else the request lines after the
/// first.
pub open spec fn lines_to_write(lines: Seq<Seq<char>>, buffer: Seq<u8>) -> Seq<Seq<char>> {
    let start = body_start(buffer);
    let body = if start > 0 && start < buffer.len() { utf8_lossy(buffer.subrange(start, buffer.len() as int)) } else { Seq::empty() };
    if body.len() > 0 {
        text_lines(body)
    } else if lines.len() > 0 {
        lines.subrange(1, lines.len() as int)
    } else {
        Seq::empty()
    }
}

/// What becomes of a line of a write.
#[derive(Debug, Clone)]
pub enum LineOutcome {
    /// Blank, or a comment.
    Skipped,
    /// A line to write, its timestamp in nanoseconds.
    Row(ParsedLine),
    /// A line that does not parse, with its message.
    Failed(String),
    /// A line whose field value is a lone quote, which has no inside to take.
    Stuck,
}

/// The abstract value of what becomes of a line.
pub enum LineOutcomeView {
    Skipped,
    Row(ParsedLineView),
    Failed(Seq<char>),
    Stuck,
}

impl View for LineOutcome {
    type V = LineOutcomeView;

    open spec fn view(&self) -> LineOutcomeView {
        match self {
            LineOutcome::Skipped => LineOutcomeView::Skipped,
            LineOutcome::Row(p) => LineOutcomeView::Row(p@),
            LineOutcome::Failed(m) => LineOutcomeView::Failed(m@),
            LineOutcome::Stuck => LineOutcomeView::Stuck,
        }
    }
}

/// What becomes of the line at index `i`: read by a parser without
/// defaults once trimmed, its timestamp converted from the precision; a
/// failure is reported with the line's number (from 1) and the error.
pub open spec fn outcome_of(i: int, line: Seq<char>, precision: Seq<char>) -> LineOutcomeView {
    let t = trim_seq(line);
    if t.len() == 0 || t[0] == '#' {
        LineOutcomeView::Skipped
    } else {
        match crate::line_protocol::line_of(Seq::empty(), 0, t) {
            None => LineOutcomeView::Stuck,
            Some(Ok(p)) => LineOutcomeView::Row(ParsedLineView { timestamp: converted_timestamp(p.timestamp, precision), ..p }),
            Some(Err(m)) => LineOutcomeView::Failed("line "@ + dec_nat((i + 1) as nat) + ": "@ + "Parse error: "@ + m),
        }
    }
}

/// What a `/write` request asks: the database, the precision, and what
/// becomes of each line it carries.
#[derive(Debug, Clone)]
pub struct WritePlan {
    pub database: String,
    pub precision: String,
    pub outcomes: Vec<LineOutcome>,
}

/// The outcomes of a list of lines, in order.
pub open spec fn outcomes_view(v: Seq<LineOutcome>) -> Seq<LineOutcomeView> {
    v.map_values(|o: LineOutcome| o@)
}

/// Whether a plan is what a `/write` request with these lines and bytes asks.
pub open spec fn plans_write(plan: WritePlan, lines: Seq<Seq<char>>, buffer: Seq<u8>) -> bool {
    let first = if lines.len() > 0 { lines[0] } else { Seq::empty() };
    let precision = param_or(write_query(first), "precision="@, "ns"@);
    let todo = lines_to_write(lines, buffer);
    &&& plan.database@ == param_or(write_query(first), "db="@, ""@)
    &&& plan.precision@ == precision
    &&& outcomes_view(plan.outcomes@) == Seq::new(todo.len(), |i: int| outcome_of(i, todo[i], precision))
}

fn outcome(i: usize, line: &str, precision: &str) -> (r: LineOutcome)
    requires
        i < usize::MAX,
    ensures
        r@ == outcome_of(i as int, line@, precision@),
{
    let t = trim(line);
    if t.unicode_len() == 0 || t.as_str().get_char(0) == '#' {
        return LineOutcome::Skipped;
    }
    let parser = LineProtocolParser::new();
    proof {
        assert(crate::otel::pairs(parser.default_tags@) =~= Seq::<(Seq<char>, Seq<char>)>::empty());
    }
    match parser.try_parse(t.as_str()) {
        None => LineOutcome::Stuck,
        Some(Ok(p)) => {
            let ts = convert_timestamp(p.timestamp, precision);
            LineOutcome::Row(ParsedLine { timestamp: ts, ..p })
        },
        Some(Err(e)) => {
            let mut m = "line ".to_owned();
            append_u64(&mut m, (i + 1) as u64);
            push_str(&mut m, ": ");
            let et = e.to_string();
            push_str(&mut m, et.as_str());
            proof {
                reveal_strlit("Parse error: ");
                assert(m@ =~= "line "@ + dec_nat((i + 1) as nat) + ": "@ + "Parse error: "@
                    + crate::line_protocol::line_of(Seq::empty(), 0, t@).unwrap()->Err_0);
            }
            LineOutcome::Failed(m)
        },
    }
}

fn bytes_from(b: &[u8], start: usize) -> (r: Vec<u8>)
    requires
        start <= b@.len(),
    ensures
        r@ == b@.subrange(start as int, b@.len() as int),
{
    let mut v: Vec<u8> = Vec::new();
    let mut i: usize = start;
    while i < b.len()
        invariant
            start <= i <= b@.len(),
            v@ =~= b@.subrange(start as int, i as int),
        decreases b@.len() - i,
    {
        v.push(b[i]);
        i = i + 1;
    }
    v
}

/// What a `/write` request asks, from its lines and its bytes.
pub fn plan_write(lines: &Vec<String>, buffer: &[u8]) -> (r: WritePlan)
    ensures
        plans_write(r, strings(lines@), buffer@),
{
    let first: &str = if lines.len() > 0 { lines[0].as_str() } else { "" };
    proof {
        reveal_strlit("");
        if lines@.len() > 0 { assert(strings(lines@)[0] == lines@[0]@); }
    }
    let (database, precision) = write_target(first);
    let bl = buffer.len();
    let body: String = match find_blank_line(buffer) {
        Some(p) => {
            let start = p + 4;
            if start < bl {
                let tail = bytes_from(buffer, start);
                lossy_string(tail.as_slice())
            } else {
                String::new()
            }
        },
        None => String::new(),
    };
    let todo: Vec<String> = if body.unicode_len() > 0 {
        lines_of_text(body.as_str())
    } else {
        let mut rest: Vec<String> = Vec::new();
        if lines.len() > 0 {
            let mut k: usize = 1;
            while k < lines.len()
                invariant
                    1 <= k <= lines@.len(),
                    strings(rest@) =~= strings(lines@).subrange(1, k as int),
                decreases lines@.len() - k,
            {
                let l = lines[k].clone();
                proof { assert(strings(rest@.push(l)) =~= strings(rest@).push(l@)); }
                rest.push(l);
                k = k + 1;
            }
        }
        rest
    };
    let ghost want = lines_to_write(strings(lines@), buffer@);
    proof {
        let st = body_start(buffer@);
        let bd = if st > 0 && st < buffer@.len() { utf8_lossy(buffer@.subrange(st, buffer@.len() as int)) } else { Seq::empty() };
        assert(body@ == bd);
        assert(strings(todo@) =~= want);
        let fl = if strings(lines@).len() > 0 { strings(lines@)[0] } else { Seq::empty() };
        assert(first@ == fl);
    }
    let mut outcomes: Vec<LineOutcome> = Vec::new();
    let mut i: usize = 0;
    while i < todo.len()
        invariant
            i <= todo@.len(),
            strings(todo@) == want,
            outcomes_view(outcomes@) =~= Seq::new(i as nat, |j: int| outcome_of(j, want[j], precision@)),
        decreases todo@.len() - i,
    {
        let o = outcome(i, todo[i].as_str(), precision.as_str());
        proof {
            assert(want[i as int] == todo@[i as int]@);
            assert(outcomes_view(outcomes@.push(o)) =~= outcomes_view(outcomes@).push(o@));
        }
        outcomes.push(o);
        i = i + 1;
    }
    WritePlan { database, precision, outcomes }
}


/// The messages of the lines that failed, in order.
pub open spec fn failed_messages(v: Seq<LineOutcomeView>) -> Seq<Seq<char>>
    decreases v.len(),
{
    if v.len() == 0 {
        Seq::empty()
    } else {
        let rest = failed_messages(v.drop_last());
        match v.last() {
            LineOutcomeView::Failed(m) => rest.push(m),
            _ => rest,
        }
    }
}

/// The messages of the lines of a write that failed to parse, in the order
/// of the lines: what the answer to the write reports.
pub fn plan_errors(plan: &WritePlan) -> (r: Vec<String>)
    ensures
        strings(r@) == failed_messages(outcomes_view(plan.outcomes@)),
{
    let ghost v = outcomes_view(plan.outcomes@);
    let mut errors: Vec<String> = Vec::new();
    let mut i: usize = 0;
    while i < plan.outcomes.len()
        invariant
            v == outcomes_view(plan.outcomes@),
            i <= plan.outcomes@.len(),
            strings(errors@) == failed_messages(v.take(i as int)),
        decreases plan.outcomes@.len() - i,
    {
        proof { assert(v.take(i + 1).drop_last() =~= v.take(i as int)); }
        match &plan.outcomes[i] {
            LineOutcome::Failed(m) => {
                proof { assert(strings(errors@.push(*m)) =~= strings(errors@).push(m@)); }
                errors.push(m.clone());
            },
            _ => {},
        }
        i = i + 1;
    }
    proof { assert(v.take(plan.outcomes@.len() as int) =~= v); }
    errors
}

/// Texts joined with a separator between each two.
pub open spec fn joined(v: Seq<Seq<char>>, sep: Seq<char>) -> Seq<char>
    decreases v.len(),
{
    if v.len() == 0 {
        Seq::empty()
    } else if v.len() == 1 {
        v[0]
    } else {
        joined(v.drop_last(), sep) + sep + v.last()
    }
}

pub(crate) fn join(v: &Vec<String>, sep: &str) -> (r: String)
    ensures
        r@ == joined(strings(v@), sep@),
{
    let mut out = String::new();
    let mut i: usize = 0;
    while i < v.len()
        invariant
            i <= v@.len(),
            out@ == joined(strings(v@).take(i as int), sep@),
        decreases v@.len() - i,
    {
        proof {
            let t = strings(v@).take(i + 1);
            assert(t.drop_last() =~= strings(v@).take(i as int));
            assert(t.last() == v@[i as int]@);
        }
        if i > 0 {
            push_str(&mut out, sep);
        } else {
            proof { assert(Seq::<char>::empty() + v@[0]@ =~= v@[0]@); }
        }
        push_str(&mut out, v[i].as_str());
        i = i + 1;
    }
    proof { assert(strings(v@).take(v@.len() as int) =~= strings(v@)); }
    out
}

/// The answer to a write, from how many rows the engine took and the
/// messages of the lines that failed: 400 with the messages joined by `; `
/// where lines failed and no row was written, else 204.
pub open spec fn write_answer(rows_written: nat, errors: Seq<Seq<char>>) -> Seq<char> {
    if errors.len() > 0 && rows_written == 0 {
        http_response(400, "Bad Request"@, "{\"error\":\""@ + joined(errors, "; "@) + "\"}"@)
    } else {
        http_response(204, "No Content"@, ""@)
    }
}

/// Answers a write.
pub fn write_response(rows_written: usize, errors: &Vec<String>) -> (r: String)
    ensures
        r@ == write_answer(rows_written as nat, strings(errors@)),
{
    if errors.len() > 0 && rows_written == 0 {
        let mut body = "{\"error\":\"".to_owned();
        let joined_errors = join(errors, "; ");
        push_str(&mut body, joined_errors.as_str());
        push_str(&mut body, "\"}");
        format_http_response(400, "Bad Request", body.as_str())
    } else {
        format_http_response(204, "No Content", "")
    }
}

// ----- queries -----

/// The text of the `q` parameter of a `/query` request line, decoded.
pub open spec fn query_text(first_line: Seq<char>) -> Seq<char> {
    param_or(query_query(first_line), "q="@, ""@)
}

/// What a `/query` request asks: without a query, 400 `missing query
/// parameter`; with one that does not parse, 400 with the query; else the
/// statement.
pub fn plan_query(first_line: &str) -> (r: Result<Statement, String>)
    ensures
        query_text(first_line@).len() == 0 ==> (r matches Err(resp)
            && resp@ == http_response(400, "Bad Request"@, "{\"error\":\"missing query parameter\"}"@)),
        query_text(first_line@).len() > 0 ==> match crate::influxql::statement_at(query_text(first_line@), 0).0 {
            Some(st) => r matches Ok(x) && x@ == st,
            None => r matches Err(resp) && resp@ == http_response(400, "Bad Request"@,
                "{\"error\":\"invalid query: "@ + query_text(first_line@) + "\"}"@),
        },
{
    proof { reveal_strlit("/query"); reveal_strlit("q="); }
    let params = params_after(first_line, "/query", true);
    let query_str = find_param(&params, "q=", "");
    if query_str.unicode_len() == 0 {
        return Err(format_http_response(400, "Bad Request", "{\"error\":\"missing query parameter\"}"));
    }
    let mut parser = Parser::new(query_str.as_str());
    match parser.parse_statement() {
        Some(st) => Ok(st),
        None => {
            let mut body = "{\"error\":\"invalid query: ".to_owned();
            push_str(&mut body, query_str.as_str());
            push_str(&mut body, "\"}");
            Err(format_http_response(400, "Bad Request", body.as_str()))
        },
    }
}

/// The body that says a statement succeeded.
pub open spec fn success_body() -> Seq<char> {
    "{\"results\":[{\"success\":true}]}"@
}

/// 200 with a body that says the statement succeeded.
pub fn success_response() -> (r: String)
    ensures
        r@ == http_response(200, "OK"@, success_body()),
{
    format_http_response(200, "OK", "{\"results\":[{\"success\":true}]}")
}

/// 500 for a request that finds no engine.
pub fn engine_missing_response() -> (r: String)
    ensures
        r@ == http_response(500, "Internal Server Error"@, "Engine not initialized"@),
{
    format_http_response(500, "Internal Server Error", "Engine not initialized")
}

/// 500 with an engine error's text.
pub fn error_response(e: &Error) -> (r: String)
    ensures
        r@ == http_response(500, "Internal Server Error"@, error_text(*e)),
{
    let t = e.to_string();
    format_http_response(500, "Internal Server Error", t.as_str())
}

/// 501 for a statement the server does not carry out.
pub fn not_implemented_response() -> (r: String)
    ensures
        r@ == http_response(501, "Not Implemented"@, "Query type not implemented"@),
{
    format_http_response(501, "Not Implemented", "Query type not implemented")
}

/// 404 for a path the server does not know.
pub fn not_found_response() -> (r: String)
    ensures
        r@ == http_response(404, "Not Found"@, "404 Not Found"@),
{
    format_http_response(404, "Not Found", "404 Not Found")
}

/// 405 for a method the server does not take.
pub fn method_not_allowed_response() -> (r: String)
    ensures
        r@ == http_response(405, "Method Not Allowed"@, "Method Not Allowed"@),
{
    format_http_response(405, "Method Not Allowed", "Method Not Allowed")
}

/// 200 for the root path.
pub fn root_response() -> (r: String)
    ensures
        r@ == http_response(200, "OK"@, "{\"status\": \"ok\"}"@),
{
    format_http_response(200, "OK", "{\"status\": \"ok\"}")
}

/// Each name as a one-element JSON row, `["name"]`.
pub open spec fn name_rows(names: Seq<Seq<char>>) -> Seq<Seq<char>> {
    names.map_values(|n: Seq<char>| "[\""@ + n + "\"]"@)
}

/// A series of names, one per row: `{"results":[{"series":[{"name":..,"values":[..]}]}]}`.
pub open spec fn names_body(series: Seq<char>, names: Seq<Seq<char>>) -> Seq<char> {
    "{\"results\":[{\"series\":[{\"name\":\""@ + series + "\",\"values\":["@
        + joined(name_rows(names), ","@) + "]}]}]}"@
}

/// 200 with a series of names.
pub fn names_response(series: &str, names: &Vec<String>) -> (r: String)
    ensures
        r@ == http_response(200, "OK"@, names_body(series@, strings(names@))),
{
    let mut rows: Vec<String> = Vec::new();
    let mut i: usize = 0;
    while i < names.len()
        invariant
            i <= names@.len(),
            strings(rows@) =~= name_rows(strings(names@)).take(i as int),
        decreases names@.len() - i,
    {
        let mut row = "[\"".to_owned();
        push_str(&mut row, names[i].as_str());
        push_str(&mut row, "\"]");
        proof { assert(strings(rows@.push(row)) =~= strings(rows@).push(row@)); }
        rows.push(row);
        i = i + 1;
    }
    proof { assert(name_rows(strings(names@)).take(names@.len() as int) =~= name_rows(strings(names@))); }
    let mut body = "{\"results\":[{\"series\":[{\"name\":\"".to_owned();
    push_str(&mut body, series);
    push_str(&mut body, "\",\"values\":[");
    let j = join(&rows, ",");
    push_str(&mut body, j.as_str());
    push_str(&mut body, "]}]}]}");
    format_http_response(200, "OK", body.as_str())
}

/// The body that gives the number of series.
pub open spec fn series_count_body(n: nat) -> Seq<char> {
    "{\"results\":[{\"series\":[{\"name\":\"series\",\"columns\":[\"count\"],\"values\":[[\""@ + dec_nat(n)
        + "\"]]}]}]\"}"@
}

/// 200 with the number of series.
pub fn series_count_response(n: usize) -> (r: String)
    ensures
        r@ == http_response(200, "OK"@, series_count_body(n as nat)),
{
    let mut body = "{\"results\":[{\"series\":[{\"name\":\"series\",\"columns\":[\"count\"],\"values\":[[\"".to_owned();
    append_u64(&mut body, n as u64);
    push_str(&mut body, "\"]]}]}]\"}");
    format_http_response(200, "OK", body.as_str())
}

/// Each retention policy as a JSON row: its name, duration and replica count.
pub open spec fn policy_rows(policies: Seq<(String, u64, u32)>) -> Seq<Seq<char>> {
    policies.map_values(|p: (String, u64, u32)|
        "[\""@ + p.0@ + "\",\""@ + dec_nat(p.1 as nat) + "\",\""@ + dec_nat(p.2 as nat) + "\"]"@)
}

/// The body that lists retention policies: without columns when there are none.
pub open spec fn policies_body(policies: Seq<(String, u64, u32)>) -> Seq<char> {
    if policies.len() == 0 {
        "{\"results\":[{\"series\":[{\"name\":\"retentionPolicies\",\"values\":[]}]}]}"@
    } else {
        "{\"results\":[{\"series\":[{\"name\":\"retentionPolicies\",\"columns\":[\"name\",\"duration\",\"replicaCount\"],\"values\":["@
            + joined(policy_rows(policies), ","@) + "]}]}]}"@
    }
}

/// 200 with the retention policies.
pub fn policies_response(policies: &Vec<(String, u64, u32)>) -> (r: String)
    ensures
        r@ == http_response(200, "OK"@, policies_body(policies@)),
{
    if policies.len() == 0 {
        return format_http_response(200, "OK", "{\"results\":[{\"series\":[{\"name\":\"retentionPolicies\",\"values\":[]}]}]}");
    }
    let mut rows: Vec<String> = Vec::new();
    let mut i: usize = 0;
    while i < policies.len()
        invariant
            i <= policies@.len(),
            strings(rows@) =~= policy_rows(policies@).take(i as int),
        decreases policies@.len() - i,
    {
        let mut row = "[\"".to_owned();
        push_str(&mut row, policies[i].0.as_str());
        push_str(&mut row, "\",\"");
        append_u64(&mut row, policies[i].1);
        push_str(&mut row, "\",\"");
        append_u64(&mut row, policies[i].2 as u64);
        push_str(&mut row, "\"]");
        proof { assert(strings(rows@.push(row)) =~= strings(rows@).push(row@)); }
        rows.push(row);
        i = i + 1;
    }
    proof { assert(policy_rows(policies@).take(policies@.len() as int) =~= policy_rows(policies@)); }
    let mut body = "{\"results\":[{\"series\":[{\"name\":\"retentionPolicies\",\"columns\":[\"name\",\"duration\",\"replicaCount\"],\"values\":[".to_owned();
    let j = join(&rows, ",");
    push_str(&mut body, j.as_str());
    push_str(&mut body, "]}]}]}");
    format_http_response(200, "OK", body.as_str())
}

/// 200 with the database that `USE` chose.
pub fn use_response(database: &str) -> (r: String)
    ensures
        r@ == http_response(200, "OK"@, "{\"results\":[{\"success\":true,\"database\":\""@ + database@ + "\"}]}"@),
{
    let mut body = "{\"results\":[{\"success\":true,\"database\":\"".to_owned();
    push_str(&mut body, database);
    push_str(&mut body, "\"}]}");
    format_http_response(200, "OK", body.as_str())
}

} // verus!
