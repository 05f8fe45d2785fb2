//! HTTP requests and responses, and the routing of requests.

use crate::ast::{opt_text, views};
use crate::host::{invalid_reply, MAX_HTTP_RESPONSE_BYTES};
use crate::json::{to_json, value_to_json, Json, JsonM};
use crate::outside::{base64_bytes, decode_base64, json_text, render_json, text_from_bytes};
use crate::records::{dict, text_value, with};
use crate::table::{get, put, Rows, Table};
use crate::text::{after, ascii_lower, before, byte_len, bytes_of, chars_of, cut, decimal, includes,
    is_blank_text, is_made_of, join, join2, join3, join5, join_texts, length_text, made_of, natural,
    number_text, read_natural, same, size, split, split_once, split_text, split_words, text_holds,
    texts, to_ascii_lower, trim, trimmed, words, Str};
use crate::value::{fail, lemma_value_view, told, Fun, Function, Functions, Val, ZapValue};
use crate::webcheck::{leads, MAX_HTTP_REQUEST_BYTES, MAX_WEB_FIELD_TEXT_BYTES};
use crate::world::{ask, ExecutionContext, World};
use std::rc::Rc;
use vstd::prelude::*;
use vstd::utf8::{decode_utf8, encode_utf8, valid_utf8};

verus! {

// ---------------------------------------------------------------------------
// Request identifiers and status lines
// ---------------------------------------------------------------------------

/// The identifier that a request brings, if it is safe to repeat: 1 to 128 bytes of ASCII
/// letters, digits and the characters `.`, `_`, `:` and `-`.
pub open spec fn given_id(headers: Rows<Str>) -> Option<Str> {
    match get(headers, "x-request-id"@) {
        Some(candidate) => if candidate.len() > 0 && size(candidate) <= 128 && made_of(
            candidate,
            "._:-"@,
        ) {
            Some(candidate)
        } else {
            None
        },
        None => None,
    }
}

/// The identifier of a request that is counted under a number.
pub open spec fn numbered_id(headers: Rows<Str>, number: int) -> Str {
    match given_id(headers) {
        Some(id) => id,
        None => "zap-"@ + decimal(number),
    }
}

fn find_given_id(headers: &Table<String>) -> (r: Option<String>)
    ensures
        opt_text(r) == given_id(headers@),
{
    match headers.find("x-request-id") {
        Some(candidate) => if !is_blank_text(candidate.as_str()) && byte_len(candidate.as_str())
            <= 128 && is_made_of(candidate.as_str(), "._:-") {
            Some(candidate.clone())
        } else {
            None
        },
        None => None,
    }
}

/// The identifier of a request that is counted under a number.
pub fn request_id_from(headers: &Table<String>, number: u64) -> (r: String)
    ensures
        r@ == numbered_id(headers@, number as int),
{
    match find_given_id(headers) {
        Some(id) => id,
        None => join2("zap-", crate::text::count_text(number).as_str()),
    }
}

/// The identifier that a request brings, or else one with the number that the host counts up.
pub open spec fn request_id(headers: Rows<Str>, w: World) -> (Result<Str, Str>, World) {
    match given_id(headers) {
        Some(id) => (Ok(id), w),
        None => {
            let (reply, after) = ask(w, "request_number"@, Seq::empty());
            (
                match reply {
                    Err(error) => Err(error),
                    Ok(Val::Number(n)) => if n < 0 {
                        Err(invalid_reply("request_number"@))
                    } else {
                        Ok(numbered_id(headers, n as int))
                    },
                    Ok(_) => Err(invalid_reply("request_number"@)),
                },
                after,
            )
        },
    }
}

pub fn web_request_id(headers: &Table<String>, context: &mut ExecutionContext) -> (r: Result<
    String,
    String,
>)
    ensures
        (told(r), final(context)@) == request_id(headers@, old(context)@),
{
    if let Some(id) = find_given_id(headers) {
        return Ok(id);
    }
    let none: Vec<ZapValue> = Vec::new();
    assert(views(none@) =~= Seq::<Val>::empty());
    match context.ask("request_number", none) {
        Err(error) => Err(error),
        Ok(ZapValue::Number(n)) => if n < 0 {
            Err(join2("request_number", " failed: invalid host reply"))
        } else {
            Ok(request_id_from(headers, n as u64))
        },
        Ok(_) => Err(join2("request_number", " failed: invalid host reply")),
    }
}

pub open spec fn reason(status: i64) -> Str {
    match status {
        200 => "OK"@,
        201 => "Created"@,
        204 => "No Content"@,
        400 => "Bad Request"@,
        401 => "Unauthorized"@,
        403 => "Forbidden"@,
        404 => "Not Found"@,
        405 => "Method Not Allowed"@,
        413 => "Payload Too Large"@,
        415 => "Unsupported Media Type"@,
        422 => "Unprocessable Entity"@,
        429 => "Too Many Requests"@,
        500 => "Internal Server Error"@,
        503 => "Service Unavailable"@,
        _ => "OK"@,
    }
}

pub fn web_http_reason(status: i64) -> (r: &'static str)
    ensures
        r@ == reason(status),
{
    match status {
        200 => "OK",
        201 => "Created",
        204 => "No Content",
        400 => "Bad Request",
        401 => "Unauthorized",
        403 => "Forbidden",
        404 => "Not Found",
        405 => "Method Not Allowed",
        413 => "Payload Too Large",
        415 => "Unsupported Media Type",
        422 => "Unprocessable Entity",
        429 => "Too Many Requests",
        500 => "Internal Server Error",
        503 => "Service Unavailable",
        _ => "OK",
    }
}

// ---------------------------------------------------------------------------
// Path patterns
// ---------------------------------------------------------------------------

/// Matches the segments from number `i` on, below `n`; a segment with a colon in front binds a
/// name, any other stands for itself.
pub open spec fn segments_match(
    pattern: Seq<Str>,
    path: Seq<Str>,
    i: nat,
    n: nat,
    params: Rows<Val>,
) -> Option<Rows<Val>>
    decreases n - i,
{
    if i >= n {
        Some(params)
    } else {
        let expected = pattern[i as int];
        let actual = path[i as int];
        if leads(expected, ':') {
            if expected.len() == 1 || actual.len() == 0 {
                None
            } else {
                segments_match(
                    pattern,
                    path,
                    i + 1,
                    n,
                    put(params, expected.skip(1), Val::Text(actual)),
                )
            }
        } else if expected != actual {
            None
        } else {
            segments_match(pattern, path, i + 1, n, params)
        }
    }
}

/// The parameters with which a pattern matches a path. A last segment with a star in front binds
/// the whole rest of the path.
pub open spec fn path_params(pattern: Str, path: Str) -> Option<Rows<Val>> {
    let wanted = split(pattern, "/"@);
    let given = split(path, "/"@);
    let wildcard = wanted.len() > 0 && leads(wanted.last(), '*');
    if wildcard {
        let fixed = (wanted.len() - 1) as nat;
        if wanted.len() > given.len() {
            None
        } else {
            match segments_match(wanted, given, 0, fixed, Seq::empty()) {
                None => None,
                Some(params) => {
                    let name = wanted.last().skip(1);
                    let rest = join(given.skip(fixed as int), "/"@);
                    if name.len() == 0 || rest.len() == 0 {
                        None
                    } else {
                        Some(put(params, name, Val::Text(rest)))
                    }
                },
            }
        }
    } else if wanted.len() != given.len() {
        None
    } else {
        segments_match(wanted, given, 0, wanted.len(), Seq::empty())
    }
}

pub open spec fn told_rows(r: Option<Table<ZapValue>>) -> Option<Rows<Val>> {
    match r {
        Some(table) => Some(table@),
        None => None,
    }
}

fn begins_with(s: &str, c: char) -> (r: bool)
    ensures
        r == leads(s@, c),
{
    let v = chars_of(s);
    v.len() > 0 && v[0] == c
}

fn match_segments(pattern: &Vec<String>, path: &Vec<String>, n: usize) -> (r: Option<
    Table<ZapValue>,
>)
    requires
        n <= pattern@.len(),
        n <= path@.len(),
    ensures
        told_rows(r) == segments_match(texts(pattern@), texts(path@), 0, n as nat, Seq::empty()),
{
    let mut params: Table<ZapValue> = Table::new();
    let mut i: usize = 0;
    while i < n
        invariant
            i <= n <= pattern@.len(),
            n <= path@.len(),
            segments_match(texts(pattern@), texts(path@), 0, n as nat, Seq::empty())
                == segments_match(texts(pattern@), texts(path@), i as nat, n as nat, params@),
        decreases n - i,
    {
        let expected = &pattern[i];
        let actual = &path[i];
        assert(texts(pattern@)[i as int] == expected@);
        assert(texts(path@)[i as int] == actual@);
        if begins_with(expected.as_str(), ':') {
            let name = after(expected.as_str(), 1);
            if is_blank_text(name.as_str()) || is_blank_text(actual.as_str()) {
                return None;
            }
            params.insert(name, ZapValue::Text(actual.clone()));
        } else if !same(expected.as_str(), actual.as_str()) {
            return None;
        }
        i += 1;
    }
    Some(params)
}

fn rest_of(parts: &Vec<String>, from: usize) -> (r: String)
    requires
        from <= parts@.len(),
    ensures
        r@ == join(texts(parts@).skip(from as int), "/"@),
{
    let mut rest: Vec<String> = Vec::new();
    let mut i: usize = from;
    while i < parts.len()
        invariant
            from <= i <= parts@.len(),
            texts(rest@) == texts(parts@).subrange(from as int, i as int),
        decreases parts.len() - i,
    {
        let ghost before = texts(rest@);
        rest.push(parts[i].clone());
        assert(texts(rest@) =~= before.push(parts@[i as int]@));
        assert(texts(parts@).subrange(from as int, i + 1) =~= before.push(texts(parts@)[i as int]));
        i += 1;
    }
    assert(texts(parts@).skip(from as int) =~= texts(rest@));
    join_texts(&rest, "/")
}

pub fn web_path_matches(pattern: &str, path: &str) -> (r: Option<Table<ZapValue>>)
    ensures
        told_rows(r) == path_params(pattern@, path@),
{
    let wanted = split_text(pattern, "/");
    let given = split_text(path, "/");
    let ghost wanted_view = texts(wanted@);
    let wildcard = wanted.len() > 0 && begins_with(wanted[wanted.len() - 1].as_str(), '*');
    proof {
        if wanted@.len() > 0 {
            assert(wanted_view.last() == wanted@[wanted@.len() - 1]@);
        }
    }
    if wildcard {
        if wanted.len() > given.len() {
            return None;
        }
        let fixed: usize = wanted.len() - 1;
        match match_segments(&wanted, &given, fixed) {
            None => None,
            Some(mut params) => {
                let name = after(wanted[fixed].as_str(), 1);
                let rest = rest_of(&given, fixed);
                if is_blank_text(name.as_str()) || is_blank_text(rest.as_str()) {
                    return None;
                }
                params.insert(name, ZapValue::Text(rest));
                Some(params)
            },
        }
    } else {
        if wanted.len() != given.len() {
            return None;
        }
        match_segments(&wanted, &given, wanted.len())
    }
}

// ---------------------------------------------------------------------------
// Reading a request
// ---------------------------------------------------------------------------

/// A request as it was read.
#[derive(Debug)]
pub struct WebRequest {
    pub method: String,
    pub path: String,
    pub headers: Table<String>,
    pub body: String,
}

pub struct RequestM {
    pub method: Str,
    pub path: Str,
    pub headers: Rows<Str>,
    pub body: Str,
}

impl View for WebRequest {
    type V = RequestM;

    open spec fn view(&self) -> RequestM {
        RequestM {
            method: self.method@,
            path: self.path@,
            headers: self.headers@,
            body: self.body@,
        }
    }
}

pub open spec fn is_head_end(raw: Seq<u8>, i: int) -> bool {
    0 <= i && i + 4 <= raw.len() && raw[i] == 13 && raw[i + 1] == 10 && raw[i + 2] == 13 && raw[i
        + 3] == 10
}

/// The position behind the empty line that ends the head of a request.
pub open spec fn head_end(raw: Seq<u8>, i: int) -> Option<int>
    decreases raw.len() - i,
{
    if i < 0 || i + 4 > raw.len() {
        None
    } else if is_head_end(raw, i) {
        Some(i + 4)
    } else {
        head_end(raw, i + 1)
    }
}

pub fn http_header_end(raw: &Vec<u8>) -> (r: Option<usize>)
    ensures
        match r {
            Some(e) => head_end(raw@, 0) == Some(e as int) && e <= raw@.len(),
            None => head_end(raw@, 0) is None,
        },
{
    let mut i: usize = 0;
    while raw.len() >= 4 && i <= raw.len() - 4
        invariant
            i <= raw.len(),
            head_end(raw@, 0) == head_end(raw@, i as int),
        decreases raw.len() - i,
    {
        if raw[i] == 13 && raw[i + 1] == 10 && raw[i + 2] == 13 && raw[i + 3] == 10 {
            return Some(i + 4);
        }
        i += 1;
    }
    None
}

pub open spec fn chunk_views(chunks: Seq<Vec<u8>>) -> Seq<Seq<u8>> {
    Seq::new(chunks.len(), |i: int| chunks[i]@)
}

/// What has been read of a request: the bytes, the number of chunks used, the end of the head.
pub struct HeadM {
    pub raw: Seq<u8>,
    pub used: nat,
    pub end: int,
}

pub open spec fn request_limit_error() -> Str {
    "web_serve request exceeds the "@ + decimal(MAX_HTTP_REQUEST_BYTES as int) + " byte limit"@
}

/// Reads chunks, from number `i` on, until the head of the request is complete. The stream ends
/// where the chunks end, or at an empty one.
pub open spec fn head_read(chunks: Seq<Seq<u8>>, i: nat, raw: Seq<u8>) -> Result<HeadM, Str>
    decreases chunks.len() - i,
{
    if i >= chunks.len() || chunks[i as int].len() == 0 {
        Err("web_serve received an incomplete HTTP request"@)
    } else {
        let more = raw + chunks[i as int];
        if more.len() > MAX_HTTP_REQUEST_BYTES {
            Err(request_limit_error())
        } else {
            match head_end(more, 0) {
                Some(end) => Ok(HeadM { raw: more, used: i + 1, end }),
                None => head_read(chunks, i + 1, more),
            }
        }
    }
}

/// Reads chunks, from number `i` on, until `need` bytes are there.
pub open spec fn body_read(chunks: Seq<Seq<u8>>, i: nat, raw: Seq<u8>, end: int, need: int) -> Result<
    Seq<u8>,
    Str,
>
    decreases chunks.len() - i,
{
    if raw.len() >= need {
        Ok(raw)
    } else if i >= chunks.len() || chunks[i as int].len() == 0 {
        Err("web_serve received an incomplete request body"@)
    } else {
        let more = raw + chunks[i as int];
        if more.len() > MAX_HTTP_REQUEST_BYTES + end {
            Err(request_limit_error())
        } else {
            body_read(chunks, i + 1, more, end, need)
        }
    }
}

/// The word with a number, or an empty text.
pub open spec fn word_at(line: Seq<Str>, i: int) -> Str {
    if 0 <= i < line.len() {
        line[i]
    } else {
        Seq::empty()
    }
}

/// The digits of an unsigned number, behind a plus sign if there is one.
pub open spec fn unsigned(s: Str) -> Option<nat> {
    natural(
        if leads(s, '+') {
            s.skip(1)
        } else {
            s
        },
        u64::MAX as nat,
    )
}

fn read_unsigned(s: &str) -> (r: Option<u64>)
    ensures
        match r {
            Some(n) => unsigned(s@) == Some(n as nat),
            None => unsigned(s@) is None,
        },
{
    if begins_with(s, '+') {
        read_natural(&chars_of(after(s, 1).as_str()), u64::MAX)
    } else {
        read_natural(&chars_of(s), u64::MAX)
    }
}

pub open spec fn has_newline(s: Str) -> bool {
    s.contains('\r') || s.contains('\n')
}

/// Reads the header lines from number `i` on: the headers and the length of the body.
pub open spec fn headers_read(lines: Seq<Str>, i: nat, headers: Rows<Str>, length: nat) -> Result<
    (Rows<Str>, nat),
    Str,
>
    decreases lines.len() - i,
{
    if i >= lines.len() {
        Ok((headers, length))
    } else if lines[i as int].len() == 0 {
        headers_read(lines, i + 1, headers, length)
    } else {
        match cut(lines[i as int], ":"@) {
            None => Err("web_serve received a malformed HTTP header"@),
            Some(pair) => {
                let name = ascii_lower(trim(pair.0));
                let value = trim(pair.1);
                if name.len() == 0 || !made_of(name, "-"@) {
                    Err("web_serve received an invalid HTTP header name"@)
                } else if has_newline(value) {
                    Err("web_serve received an invalid HTTP header value"@)
                } else if get(headers, name) is Some {
                    Err("web_serve received a duplicate HTTP header"@)
                } else if name == "transfer-encoding"@ {
                    Err("web_serve does not accept transfer-encoded request bodies"@)
                } else if name == "content-length"@ {
                    match unsigned(value) {
                        None => Err("web_serve received an invalid content-length"@),
                        Some(n) => if n > MAX_HTTP_REQUEST_BYTES {
                            Err("web_serve request body exceeds the "@ + decimal(
                                MAX_HTTP_REQUEST_BYTES as int,
                            ) + " byte limit"@)
                        } else {
                            headers_read(lines, i + 1, put(headers, name, value), n)
                        },
                    }
                } else {
                    headers_read(lines, i + 1, put(headers, name, value), length)
                }
            },
        }
    }
}

pub open spec fn good_version(version: Str) -> bool {
    version == "HTTP/1.0"@ || version == "HTTP/1.1"@
}

/// The path of a request target, without its query.
pub open spec fn target_path(target: Str) -> Str {
    split(target, "?"@)[0]
}

pub open spec fn good_request_path(path: Str) -> bool {
    path.len() > 0 && size(path) <= 2048 && leads(path, '/') && !includes(path, ".."@)
}

/// The request that chunks of bytes hold.
pub open spec fn request_read(chunks: Seq<Seq<u8>>) -> Result<RequestM, Str> {
    match head_read(chunks, 0, Seq::empty()) {
        Err(error) => Err(error),
        Ok(head) => if !valid_utf8(head.raw.take(head.end)) {
            Err("web_serve request headers are not UTF-8"@)
        } else {
            let lines = split(decode_utf8(head.raw.take(head.end)), "\r\n"@);
            let line = words(lines[0]);
            if line.len() < 3 || !good_version(line[2]) {
                Err("web_serve received a malformed HTTP request line"@)
            } else {
                match headers_read(lines, 1, Seq::empty(), 0) {
                    Err(error) => Err(error),
                    Ok((headers, length)) => match body_read(
                        chunks,
                        head.used,
                        head.raw,
                        head.end,
                        head.end + length,
                    ) {
                        Err(error) => Err(error),
                        Ok(raw) => {
                            let body = raw.subrange(head.end, head.end + length);
                            let path = target_path(line[1]);
                            if !valid_utf8(body) {
                                Err("web_serve request body is not UTF-8"@)
                            } else if !good_request_path(path) {
                                Err("web_serve received an invalid request path"@)
                            } else {
                                Ok(
                                    RequestM {
                                        method: line[0],
                                        path,
                                        headers,
                                        body: decode_utf8(body),
                                    },
                                )
                            }
                        },
                    },
                }
            }
        },
    }
}

fn push_bytes(target: &mut Vec<u8>, more: &Vec<u8>)
    ensures
        final(target)@ == old(target)@ + more@,
{
    let mut i: usize = 0;
    let ghost start = target@;
    assert(start + more@.take(0) =~= start);
    while i < more.len()
        invariant
            i <= more@.len(),
            target@ == start + more@.take(i as int),
        decreases more.len() - i,
    {
        target.push(more[i]);
        assert(more@.take(i + 1) =~= more@.take(i as int).push(more@[i as int]));
        assert(target@ =~= start + more@.take(i + 1));
        i += 1;
    }
    assert(more@.take(more@.len() as int) =~= more@);
}

fn slice_bytes(raw: &Vec<u8>, from: usize, to: usize) -> (r: Vec<u8>)
    requires
        from <= to <= raw@.len(),
    ensures
        r@ == raw@.subrange(from as int, to as int),
{
    let mut out: Vec<u8> = Vec::new();
    let mut i: usize = from;
    while i < to
        invariant
            from <= i <= to <= raw@.len(),
            out@ == raw@.subrange(from as int, i as int),
        decreases to - i,
    {
        out.push(raw[i]);
        assert(out@ =~= raw@.subrange(from as int, i + 1));
        i += 1;
    }
    out
}

struct Head {
    raw: Vec<u8>,
    used: usize,
    end: usize,
}

spec fn head_view(r: Result<Head, String>) -> Result<HeadM, Str> {
    match r {
        Ok(head) => Ok(HeadM { raw: head.raw@, used: head.used as nat, end: head.end as int }),
        Err(error) => Err(error@),
    }
}

fn request_limit_text() -> (r: String)
    ensures
        r@ == request_limit_error(),
{
    join3("web_serve request exceeds the ", length_text(MAX_HTTP_REQUEST_BYTES).as_str(), " byte limit")
}

fn read_head(chunks: &Vec<Vec<u8>>) -> (r: Result<Head, String>)
    ensures
        head_view(r) == head_read(chunk_views(chunks@), 0, Seq::empty()),
        match r {
            Ok(head) => head.end <= head.raw@.len() <= MAX_HTTP_REQUEST_BYTES && head.used
                <= chunks@.len(),
            Err(_) => true,
        },
{
    let mut raw: Vec<u8> = Vec::new();
    let mut i: usize = 0;
    assert(raw@ =~= Seq::<u8>::empty());
    while i < chunks.len() && chunks[i].len() > 0
        invariant
            i <= chunks@.len(),
            head_read(chunk_views(chunks@), 0, Seq::empty()) == head_read(
                chunk_views(chunks@),
                i as nat,
                raw@,
            ),
        decreases chunks.len() - i,
    {
        assert(chunk_views(chunks@)[i as int] == chunks@[i as int]@);
        push_bytes(&mut raw, &chunks[i]);
        if raw.len() > MAX_HTTP_REQUEST_BYTES {
            return Err(request_limit_text());
        }
        match http_header_end(&raw) {
            Some(end) => {
                return Ok(Head { raw, used: i + 1, end });
            },
            None => {},
        }
        i += 1;
    }
    proof {
        if i < chunks@.len() {
            assert(chunk_views(chunks@)[i as int] == chunks@[i as int]@);
        }
    }
    fail("web_serve received an incomplete HTTP request")
}

spec fn bytes_view(r: Result<Vec<u8>, String>) -> Result<Seq<u8>, Str> {
    match r {
        Ok(bytes) => Ok(bytes@),
        Err(error) => Err(error@),
    }
}

fn read_body_bytes(chunks: &Vec<Vec<u8>>, used: usize, raw: Vec<u8>, end: usize, need: usize) -> (r:
    Result<Vec<u8>, String>)
    requires
        used <= chunks@.len(),
        end <= MAX_HTTP_REQUEST_BYTES,
    ensures
        bytes_view(r) == body_read(
            chunk_views(chunks@),
            used as nat,
            raw@,
            end as int,
            need as int,
        ),
        match r {
            Ok(bytes) => bytes@.len() >= need,
            Err(_) => true,
        },
{
    let mut out: Vec<u8> = raw;
    let mut i: usize = used;
    while out.len() < need
        invariant
            i <= chunks@.len(),
            end <= MAX_HTTP_REQUEST_BYTES,
            body_read(chunk_views(chunks@), used as nat, raw@, end as int, need as int)
                == body_read(chunk_views(chunks@), i as nat, out@, end as int, need as int),
        decreases chunks.len() - i,
    {
        if i >= chunks.len() {
            return fail("web_serve received an incomplete request body");
        }
        assert(chunk_views(chunks@)[i as int] == chunks@[i as int]@);
        if chunks[i].len() == 0 {
            return fail("web_serve received an incomplete request body");
        }
        push_bytes(&mut out, &chunks[i]);
        if out.len() > MAX_HTTP_REQUEST_BYTES + end {
            return Err(request_limit_text());
        }
        i += 1;
    }
    Ok(out)
}

spec fn headers_view(r: Result<(Table<String>, usize), String>) -> Result<(Rows<Str>, nat), Str> {
    match r {
        Ok(pair) => Ok((pair.0@, pair.1 as nat)),
        Err(error) => Err(error@),
    }
}

fn read_headers(lines: &Vec<String>) -> (r: Result<(Table<String>, usize), String>)
    ensures
        headers_view(r) == headers_read(texts(lines@), 1, Seq::empty(), 0),
        match r {
            Ok(pair) => pair.1 <= MAX_HTTP_REQUEST_BYTES,
            Err(_) => true,
        },
{
    let mut headers: Table<String> = Table::new();
    let mut length: usize = 0;
    let mut i: usize = 1;
    while i < lines.len()
        invariant
            1 <= i,
            length <= MAX_HTTP_REQUEST_BYTES,
            headers_read(texts(lines@), 1, Seq::empty(), 0) == headers_read(
                texts(lines@),
                i as nat,
                headers@,
                length as nat,
            ),
        decreases lines.len() - i,
    {
        let line = &lines[i];
        assert(texts(lines@)[i as int] == line@);
        if is_blank_text(line.as_str()) {
            i += 1;
            continue ;
        }
        let pair = match split_once(line.as_str(), ":") {
            None => {
                return fail("web_serve received a malformed HTTP header");
            },
            Some(pair) => pair,
        };
        let name = to_ascii_lower(trimmed(pair.0.as_str()).as_str());
        let value = trimmed(pair.1.as_str());
        if is_blank_text(name.as_str()) || !is_made_of(name.as_str(), "-") {
            return fail("web_serve received an invalid HTTP header name");
        }
        if text_holds(value.as_str(), '\r') || text_holds(value.as_str(), '\n') {
            return fail("web_serve received an invalid HTTP header value");
        }
        if headers.holds(name.as_str()) {
            return fail("web_serve received a duplicate HTTP header");
        }
        if same(name.as_str(), "transfer-encoding") {
            return fail("web_serve does not accept transfer-encoded request bodies");
        }
        if same(name.as_str(), "content-length") {
            match read_unsigned(value.as_str()) {
                None => {
                    return fail("web_serve received an invalid content-length");
                },
                Some(n) => {
                    if n > MAX_HTTP_REQUEST_BYTES as u64 {
                        return Err(
                            join3(
                                "web_serve request body exceeds the ",
                                length_text(MAX_HTTP_REQUEST_BYTES).as_str(),
                                " byte limit",
                            ),
                        );
                    }
                    length = n as usize;
                },
            }
        }
        headers.insert(name, value);
        i += 1;
    }
    Ok((headers, length))
}

pub open spec fn told_request(r: Result<WebRequest, String>) -> Result<RequestM, Str> {
    match r {
        Ok(request) => Ok(request@),
        Err(error) => Err(error@),
    }
}

pub proof fn lemma_split_some(s: Str, separator: Str)
    requires
        separator.len() > 0,
    ensures
        split(s, separator).len() > 0,
{
}

/// Reads a request from the chunks in which it arrived.
pub fn web_parse_request(chunks: &Vec<Vec<u8>>) -> (r: Result<WebRequest, String>)
    ensures
        told_request(r) == request_read(chunk_views(chunks@)),
{
    let head = match read_head(chunks) {
        Err(error) => {
            return Err(error);
        },
        Ok(head) => head,
    };
    let head_bytes = slice_bytes(&head.raw, 0, head.end);
    assert(head_bytes@ =~= head.raw@.take(head.end as int));
    let head_text = match text_from_bytes(head_bytes) {
        None => {
            return fail("web_serve request headers are not UTF-8");
        },
        Some(text) => text,
    };
    let lines = split_text(head_text.as_str(), "\r\n");
    proof {
        reveal_strlit("\r\n");
        reveal_strlit("?");
        lemma_split_some(head_text@, "\r\n"@);
    }
    let ghost lines_view = texts(lines@);
    assert(lines_view[0] == lines@[0]@);
    let line = split_words(lines[0].as_str());
    let ghost line_view = texts(line@);
    if line.len() < 3 {
        return fail("web_serve received a malformed HTTP request line");
    }
    assert(line_view[0] == line@[0]@ && line_view[1] == line@[1]@ && line_view[2] == line@[2]@);
    if !same(line[2].as_str(), "HTTP/1.0") && !same(line[2].as_str(), "HTTP/1.1") {
        return fail("web_serve received a malformed HTTP request line");
    }
    let (headers, length) = match read_headers(&lines) {
        Err(error) => {
            return Err(error);
        },
        Ok(pair) => pair,
    };
    let end: usize = head.end;
    let need: usize = end + length;
    let raw = match read_body_bytes(chunks, head.used, head.raw, end, need) {
        Err(error) => {
            return Err(error);
        },
        Ok(raw) => raw,
    };
    let body = match text_from_bytes(slice_bytes(&raw, end, need)) {
        None => {
            return fail("web_serve request body is not UTF-8");
        },
        Some(text) => text,
    };
    let pieces = split_text(line[1].as_str(), "?");
    proof {
        lemma_split_some(line_view[1], "?"@);
    }
    let ghost pieces_view = texts(pieces@);
    assert(pieces_view[0] == pieces@[0]@);
    let path = pieces[0].clone();
    if is_blank_text(path.as_str()) || byte_len(path.as_str()) > 2048 || !begins_with(
        path.as_str(),
        '/',
    ) || crate::text::contains(path.as_str(), "..") {
        return fail("web_serve received an invalid request path");
    }
    Ok(WebRequest { method: line[0].clone(), path, headers, body })
}

/// Whether a request is not complete yet, so that more of it has to be read.
pub open spec fn request_waits(chunks: Seq<Seq<u8>>) -> bool {
    match request_read(chunks) {
        Ok(_) => false,
        Err(error) => error == "web_serve received an incomplete HTTP request"@ || error
            == "web_serve received an incomplete request body"@,
    }
}

pub fn web_request_waits(chunks: &Vec<Vec<u8>>) -> (r: bool)
    ensures
        r == request_waits(chunk_views(chunks@)),
{
    match web_parse_request(chunks) {
        Ok(_) => false,
        Err(error) => same(error.as_str(), "web_serve received an incomplete HTTP request")
            || same(error.as_str(), "web_serve received an incomplete request body"),
    }
}

/// The chunks that a list of texts in base64 denotes, from number `i` on behind `done`.
pub open spec fn chunks_told(items: Seq<Val>, i: nat, done: Seq<Seq<u8>>) -> Option<Seq<Seq<u8>>>
    decreases items.len() - i,
{
    if i >= items.len() {
        Some(done)
    } else {
        match items[i as int] {
            Val::Text(notation) => match base64_bytes(notation) {
                Some(bytes) => chunks_told(items, i + 1, done.push(bytes)),
                None => None,
            },
            _ => None,
        }
    }
}

spec fn opt_chunks(r: Option<Vec<Vec<u8>>>) -> Option<Seq<Seq<u8>>> {
    match r {
        Some(chunks) => Some(chunk_views(chunks@)),
        None => None,
    }
}

fn read_chunks(items: &Vec<ZapValue>) -> (r: Option<Vec<Vec<u8>>>)
    ensures
        opt_chunks(r) == chunks_told(views(items@), 0, Seq::empty()),
{
    let mut chunks: Vec<Vec<u8>> = Vec::new();
    let mut i: usize = 0;
    assert(chunk_views(chunks@) =~= Seq::<Seq<u8>>::empty());
    while i < items.len()
        invariant
            i <= items@.len(),
            chunks_told(views(items@), 0, Seq::empty()) == chunks_told(
                views(items@),
                i as nat,
                chunk_views(chunks@),
            ),
        decreases items.len() - i,
    {
        assert(views(items@)[i as int] == items@[i as int]@);
        match &items[i] {
            ZapValue::Text(notation) => match decode_base64(notation.as_str()) {
                Some(bytes) => {
                    let ghost before = chunk_views(chunks@);
                    chunks.push(bytes);
                    assert(chunk_views(chunks@) =~= before.push(bytes@));
                },
                None => {
                    return None;
                },
            },
            _ => {
                return None;
            },
        }
        i += 1;
    }
    Some(chunks)
}

/// The request in a reply of the host; a reply of another form holds no request.
pub open spec fn request_told(reply: Val) -> Result<RequestM, Str> {
    match reply {
        Val::List(items) => match chunks_told(items, 0, Seq::empty()) {
            Some(chunks) => request_read(chunks),
            None => Err(invalid_reply("web_serve"@)),
        },
        _ => Err(invalid_reply("web_serve"@)),
    }
}

pub fn read_request(reply: &ZapValue) -> (r: Result<WebRequest, String>)
    ensures
        told_request(r) == request_told(reply@),
{
    broadcast use lemma_value_view;

    match reply {
        ZapValue::List(items) => match read_chunks(items) {
            Some(chunks) => web_parse_request(&chunks),
            None => Err(join2("web_serve", " failed: invalid host reply")),
        },
        _ => Err(join2("web_serve", " failed: invalid host reply")),
    }
}

// ---------------------------------------------------------------------------
// Responses
// ---------------------------------------------------------------------------

pub open spec fn header_reserved(name: Str) -> bool {
    let lower = ascii_lower(name);
    lower == "cache-control"@ || lower == "connection"@ || lower == "content-length"@ || lower
        == "content-type"@ || lower == "transfer-encoding"@ || lower == "x-content-type-options"@
        || lower == "x-request-id"@
}

/// Whether a response header is set by the server itself.
pub fn web_response_header_is_reserved(name: &str) -> (r: bool)
    ensures
        r == header_reserved(name@),
{
    let lower = to_ascii_lower(name);
    same(lower.as_str(), "cache-control") || same(lower.as_str(), "connection") || same(
        lower.as_str(),
        "content-length",
    ) || same(lower.as_str(), "content-type") || same(lower.as_str(), "transfer-encoding") || same(
        lower.as_str(),
        "x-content-type-options",
    ) || same(lower.as_str(), "x-request-id")
}

/// The status line and the headers that every response has.
pub open spec fn response_head(status: i64, content_type: Str, length: int, id: Str) -> Str {
    "HTTP/1.1 "@ + decimal(status as int) + " "@ + reason(status) + "\r\nContent-Type: "@
        + content_type + "\r\nContent-Length: "@ + decimal(length)
        + "\r\nConnection: close\r\nX-Content-Type-Options: nosniff\r\nCache-Control: no-store\r\nX-Request-Id: "@
        + id + "\r\n"@
}

fn write_head(status: i64, content_type: &str, length: usize, id: &str) -> (r: String)
    ensures
        r@ == response_head(status, content_type@, length as int, id@),
{
    let line = join5(
        "HTTP/1.1 ",
        number_text(status).as_str(),
        " ",
        web_http_reason(status),
        "\r\nContent-Type: ",
    );
    let sized = join5(
        line.as_str(),
        content_type,
        "\r\nContent-Length: ",
        length_text(length).as_str(),
        "\r\nConnection: close\r\nX-Content-Type-Options: nosniff\r\nCache-Control: no-store\r\nX-Request-Id: ",
    );
    join3(sized.as_str(), id, "\r\n")
}

/// The bytes of a response: its head, an empty line, its body.
pub open spec fn response_bytes(head: Str, body: Seq<u8>) -> Seq<u8> {
    encode_utf8(head + "\r\n"@) + body
}

fn write_response(head: &str, body: &Vec<u8>) -> (r: Vec<u8>)
    ensures
        r@ == response_bytes(head@, body@),
{
    let mut out = bytes_of(join2(head, "\r\n").as_str());
    push_bytes(&mut out, body);
    out
}

/// A document as text. Documents of texts can always be written.
pub open spec fn written(document: JsonM) -> Str {
    match json_text(document) {
        Ok(text) => text,
        Err(_) => Seq::empty(),
    }
}

fn write_json(document: &Json) -> (r: String)
    ensures
        r@ == written(document@),
{
    match render_json(document) {
        Ok(text) => text,
        Err(_) => {
            let nothing = String::new();
            assert(nothing@ =~= Seq::<char>::empty());
            nothing
        },
    }
}

pub open spec fn error_document(error: Str, id: Str) -> JsonM {
    let t = put(Seq::empty(), "error"@, JsonM::Text(error));
    let t = put(t, "request_id"@, JsonM::Text(id));
    JsonM::Object(t)
}

pub open spec fn json_type() -> Str {
    "application/json; charset=utf-8"@
}

/// The response that reports an error by its name.
pub open spec fn error_response(status: i64, error: Str, id: Str) -> Seq<u8> {
    let body = encode_utf8(written(error_document(error, id)));
    response_bytes(response_head(status, json_type(), body.len() as int, id), body)
}

fn json_entry(table: Table<Json>, key: &str, value: &str) -> (r: Table<Json>)
    ensures
        r@ == put(table@, key@, JsonM::Text(value@)),
{
    let mut t = table;
    t.insert(key.to_owned(), Json::Text(value.to_owned()));
    t
}

fn json_object(table: Table<Json>) -> (r: Json)
    ensures
        r@ == JsonM::Object(table@),
{
    broadcast use crate::json::lemma_json_view;

    Json::Object(table)
}

fn respond_json(status: i64, document: &Json, id: &str) -> (r: Vec<u8>)
    ensures
        r@ == ({
            let body = encode_utf8(written(document@));
            response_bytes(response_head(status, json_type(), body.len() as int, id@), body)
        }),
{
    let body = bytes_of(write_json(document).as_str());
    let head = write_head(status, "application/json; charset=utf-8", body.len(), id);
    write_response(head.as_str(), &body)
}

pub fn web_error_response(status: i64, error: &str, request_id: &str) -> (r: Vec<u8>)
    ensures
        r@ == error_response(status, error@, request_id@),
{
    let t = json_entry(Table::new(), "error", error);
    let t = json_entry(t, "request_id", request_id);
    respond_json(status, &json_object(t), request_id)
}

pub open spec fn safe_code(code: Str) -> bool {
    code.len() > 0 && size(code) <= 128 && made_of(code, "_-"@)
}

/// The response for the error of a handler's result.
pub open spec fn result_error_response(value: Val, id: Str) -> Result<Seq<u8>, Str> {
    match value {
        Val::Dict(fields) => match get(fields, "status"@) {
            Some(Val::Number(status)) => if 400 <= status <= 599 {
                match get(fields, "code"@) {
                    Some(Val::Text(code)) => if safe_code(code) {
                        match (match get(fields, "message"@) {
                            Some(Val::Text(message)) => if size(message)
                                <= MAX_WEB_FIELD_TEXT_BYTES {
                                Some(message)
                            } else {
                                None
                            },
                            None => Some(code),
                            Some(_) => None,
                        }) {
                            Some(message) => {
                                let t = put(Seq::empty(), "error"@, JsonM::Text(code));
                                let t = put(t, "message"@, JsonM::Text(message));
                                let t = put(t, "request_id"@, JsonM::Text(id));
                                let body = encode_utf8(written(JsonM::Object(t)));
                                Ok(
                                    response_bytes(
                                        response_head(status, json_type(), body.len() as int, id),
                                        body,
                                    ),
                                )
                            },
                            None => Err(
                                "web handler Result error message must be text no longer than 65536 bytes"@,
                            ),
                        }
                    } else {
                        Err("web handler Result error code must be a safe non-empty text token"@)
                    },
                    _ => Err("web handler Result error code must be a safe non-empty text token"@),
                }
            } else {
                Err("web handler Result error status must be a number from 400 to 599"@)
            },
            _ => Err("web handler Result error status must be a number from 400 to 599"@),
        },
        _ => Err("web handler Result error must contain an error map"@),
    }
}

pub open spec fn told_bytes(r: Result<Vec<u8>, String>) -> Result<Seq<u8>, Str> {
    match r {
        Ok(bytes) => Ok(bytes@),
        Err(error) => Err(error@),
    }
}

pub fn web_result_error_response(value: &ZapValue, request_id: &str) -> (r: Result<Vec<u8>, String>)
    ensures
        told_bytes(r) == result_error_response(value@, request_id@),
{
    broadcast use lemma_value_view;

    let fields = match value {
        ZapValue::Dict(fields) => fields,
        _ => {
            return fail("web handler Result error must contain an error map");
        },
    };
    let status: i64 = match fields.find("status") {
        Some(ZapValue::Number(status)) => *status,
        _ => 0,
    };
    if status < 400 || status > 599 {
        return fail("web handler Result error status must be a number from 400 to 599");
    }
    let code = match fields.find("code") {
        Some(ZapValue::Text(code)) => code,
        _ => {
            return fail("web handler Result error code must be a safe non-empty text token");
        },
    };
    if is_blank_text(code.as_str()) || byte_len(code.as_str()) > 128 || !is_made_of(
        code.as_str(),
        "_-",
    ) {
        return fail("web handler Result error code must be a safe non-empty text token");
    }
    let message = match fields.find("message") {
        Some(ZapValue::Text(message)) => {
            if byte_len(message.as_str()) > MAX_WEB_FIELD_TEXT_BYTES {
                return fail(
                    "web handler Result error message must be text no longer than 65536 bytes",
                );
            }
            message
        },
        None => code,
        _ => {
            return fail(
                "web handler Result error message must be text no longer than 65536 bytes",
            );
        },
    };
    let t = json_entry(Table::new(), "error", code.as_str());
    let t = json_entry(t, "message", message.as_str());
    let t = json_entry(t, "request_id", request_id);
    Ok(respond_json(status, &json_object(t), request_id))
}

/// The bytes of a response body: a text as it is, another value as JSON, or decoded base64.
pub open spec fn response_body(fields: Rows<Val>, w: World) -> Result<Seq<u8>, Str> {
    match (get(fields, "body"@), get(fields, "body_base64"@)) {
        (Some(_), Some(_)) => Err(
            "web handler response cannot contain both body and body_base64"@,
        ),
        (Some(body), None) => match body {
            Val::Text(s) => Ok(encode_utf8(s)),
            _ => match to_json(body, w) {
                Err(error) => Err(error),
                Ok(document) => match json_text(document) {
                    Ok(s) => Ok(encode_utf8(s)),
                    Err(error) => Err(error),
                },
            },
        },
        (None, Some(encoded)) => match encoded {
            Val::Text(notation) => match base64_bytes(notation) {
                Some(bytes) => Ok(bytes),
                None => Err("web handler response body_base64 is invalid"@),
            },
            _ => Err("web handler response body_base64 must be text"@),
        },
        (None, None) => Ok(Seq::empty()),
    }
}

fn read_response_body(fields: &Table<ZapValue>, context: &ExecutionContext) -> (r: Result<
    Vec<u8>,
    String,
>)
    ensures
        told_bytes(r) == response_body(fields@, context@),
{
    match (fields.find("body"), fields.find("body_base64")) {
        (Some(_), Some(_)) => fail("web handler response cannot contain both body and body_base64"),
        (Some(body), None) => match body {
            ZapValue::Text(s) => Ok(bytes_of(s.as_str())),
            _ => match value_to_json(body, context) {
                Err(error) => Err(error),
                Ok(document) => match render_json(&document) {
                    Ok(s) => Ok(bytes_of(s.as_str())),
                    Err(error) => Err(error),
                },
            },
        },
        (None, Some(encoded)) => match encoded {
            ZapValue::Text(notation) => match decode_base64(notation.as_str()) {
                Some(bytes) => Ok(bytes),
                None => fail("web handler response body_base64 is invalid"),
            },
            _ => fail("web handler response body_base64 must be text"),
        },
        (None, None) => {
            let nothing: Vec<u8> = Vec::new();
            assert(nothing@ =~= Seq::<u8>::empty());
            Ok(nothing)
        },
    }
}

pub open spec fn content_type_of(fields: Rows<Val>) -> Str {
    match get(fields, "content_type"@) {
        Some(Val::Text(s)) => if s.len() > 0 {
            s
        } else {
            json_type()
        },
        _ => json_type(),
    }
}

/// Writes the headers of a handler, from number `i` on, behind `done`. `seen` holds the names so
/// far in small letters.
pub open spec fn extra_headers(headers: Rows<Val>, i: nat, seen: Seq<Str>, done: Str) -> Result<
    Str,
    Str,
>
    decreases headers.len() - i,
{
    if i >= headers.len() {
        Ok(done)
    } else {
        let name = headers[i as int].0;
        match headers[i as int].1 {
            Val::Text(value) => if name.len() == 0 || !made_of(name, "-"@) || header_reserved(name)
                || seen.contains(ascii_lower(name)) || has_newline(value) {
                Err("web handler response contains an invalid, reserved, or duplicate header"@)
            } else {
                extra_headers(
                    headers,
                    i + 1,
                    seen.push(ascii_lower(name)),
                    done + name + ": "@ + value + "\r\n"@,
                )
            },
            _ => Err("web handler response headers must contain text values"@),
        }
    }
}

fn is_among(items: &Vec<String>, item: &str) -> (r: bool)
    ensures
        r == texts(items@).contains(item@),
{
    let mut i: usize = 0;
    while i < items.len()
        invariant
            i <= items@.len(),
            forall|k: int| 0 <= k < i ==> (#[trigger] texts(items@)[k]) != item@,
        decreases items.len() - i,
    {
        assert(texts(items@)[i as int] == items@[i as int]@);
        if same(items[i].as_str(), item) {
            return true;
        }
        i += 1;
    }
    false
}

fn write_headers(headers: &Table<ZapValue>, head: String) -> (r: Result<String, String>)
    ensures
        told(r) == extra_headers(headers@, 0, Seq::empty(), head@),
{
    let mut out: String = head;
    let mut seen: Vec<String> = Vec::new();
    let mut i: usize = 0;
    assert(texts(seen@) =~= Seq::<Str>::empty());
    while i < headers.entries.len()
        invariant
            i <= headers.entries@.len(),
            extra_headers(headers@, 0, Seq::empty(), head@) == extra_headers(
                headers@,
                i as nat,
                texts(seen@),
                out@,
            ),
        decreases headers.entries.len() - i,
    {
        let name = &headers.entries[i].0;
        assert(headers@[i as int] == (headers.entries@[i as int].0@, headers.entries@[i as int].1@));
        match &headers.entries[i].1 {
            ZapValue::Text(value) => {
                let lower = to_ascii_lower(name.as_str());
                if is_blank_text(name.as_str()) || !is_made_of(name.as_str(), "-")
                    || web_response_header_is_reserved(name.as_str()) || is_among(
                    &seen,
                    lower.as_str(),
                ) || text_holds(value.as_str(), '\r') || text_holds(value.as_str(), '\n') {
                    return fail(
                        "web handler response contains an invalid, reserved, or duplicate header",
                    );
                }
                let ghost before = texts(seen@);
                seen.push(lower);
                assert(texts(seen@) =~= before.push(lower@));
                out = join5(out.as_str(), name.as_str(), ": ", value.as_str(), "\r\n");
            },
            _ => {
                return fail("web handler response headers must contain text values");
            },
        }
        i += 1;
    }
    Ok(out)
}

/// The response that a handler's map describes.
pub open spec fn value_response(value: Val, id: Str, w: World) -> Result<Seq<u8>, Str> {
    match value {
        Val::Dict(fields) => match get(fields, "status"@) {
            Some(Val::Number(status)) => if 100 <= status <= 599 {
                match response_body(fields, w) {
                    Err(error) => Err(error),
                    Ok(body) => if body.len() > MAX_HTTP_RESPONSE_BYTES {
                        Err("web handler response exceeds the "@ + decimal(
                            MAX_HTTP_RESPONSE_BYTES as int,
                        ) + " byte limit"@)
                    } else if has_newline(content_type_of(fields)) {
                        Err("web handler response content type contains a forbidden newline"@)
                    } else {
                        let head = response_head(
                            status,
                            content_type_of(fields),
                            body.len() as int,
                            id,
                        );
                        match (match get(fields, "headers"@) {
                            Some(Val::Dict(headers)) => extra_headers(
                                headers,
                                0,
                                Seq::empty(),
                                head,
                            ),
                            _ => Ok(head),
                        }) {
                            Err(error) => Err(error),
                            Ok(full) => Ok(response_bytes(full, body)),
                        }
                    },
                }
            } else {
                Err("web handler response status must be a number from 100 to 599"@)
            },
            _ => Err("web handler response status must be a number from 100 to 599"@),
        },
        _ => Err("web handler must return a response map"@),
    }
}

pub fn web_response_value(value: &ZapValue, request_id: &str, context: &ExecutionContext) -> (r:
    Result<Vec<u8>, String>)
    ensures
        told_bytes(r) == value_response(value@, request_id@, context@),
{
    broadcast use lemma_value_view;

    let fields = match value {
        ZapValue::Dict(fields) => fields,
        _ => {
            return fail("web handler must return a response map");
        },
    };
    let status: i64 = match fields.find("status") {
        Some(ZapValue::Number(status)) => *status,
        _ => 0,
    };
    if status < 100 || status > 599 {
        return fail("web handler response status must be a number from 100 to 599");
    }
    let body = match read_response_body(fields, context) {
        Err(error) => {
            return Err(error);
        },
        Ok(body) => body,
    };
    if body.len() > MAX_HTTP_RESPONSE_BYTES {
        return Err(
            join3(
                "web handler response exceeds the ",
                length_text(MAX_HTTP_RESPONSE_BYTES).as_str(),
                " byte limit",
            ),
        );
    }
    let content_type = match fields.find("content_type") {
        Some(ZapValue::Text(s)) => if is_blank_text(s.as_str()) {
            "application/json; charset=utf-8".to_owned()
        } else {
            s.clone()
        },
        _ => "application/json; charset=utf-8".to_owned(),
    };
    if text_holds(content_type.as_str(), '\r') || text_holds(content_type.as_str(), '\n') {
        return fail("web handler response content type contains a forbidden newline");
    }
    let head = write_head(status, content_type.as_str(), body.len(), request_id);
    let full = match fields.find("headers") {
        Some(ZapValue::Dict(headers)) => match write_headers(headers, head) {
            Err(error) => {
                return Err(error);
            },
            Ok(full) => full,
        },
        _ => head,
    };
    Ok(write_response(full.as_str(), &body))
}

/// The response for what a handler returned: a map, or a result around one.
pub open spec fn result_response(value: Val, id: Str, w: World) -> Result<Seq<u8>, Str> {
    match value {
        Val::ResultOk(inner) => value_response(*inner, id, w),
        Val::ResultErr(inner) => result_error_response(*inner, id),
        _ => value_response(value, id, w),
    }
}

pub fn web_result_response(value: &ZapValue, request_id: &str, context: &ExecutionContext) -> (r:
    Result<Vec<u8>, String>)
    ensures
        told_bytes(r) == result_response(value@, request_id@, context@),
{
    match value {
        ZapValue::ResultOk(inner) => web_response_value(&**inner, request_id, context),
        ZapValue::ResultErr(inner) => web_result_error_response(&**inner, request_id),
        _ => web_response_value(value, request_id, context),
    }
}

// ---------------------------------------------------------------------------
// Routing
// ---------------------------------------------------------------------------

/// Where a request goes.
pub enum Target {
    Handler(Fun, Rows<Val>),
    NotAllowed,
    NotFound,
}

/// The first of the routes, from number `i` on, whose path matches and whose method is the
/// request's.
pub open spec fn routed(
    routes: Seq<Val>,
    funcs: Rows<Fun>,
    request: RequestM,
    i: nat,
    matched: bool,
) -> Result<Target, Str>
    decreases routes.len() - i,
{
    if i >= routes.len() {
        Ok(
            if matched {
                Target::NotAllowed
            } else {
                Target::NotFound
            },
        )
    } else {
        match routes[i as int] {
            Val::Dict(route) => match get(route, "method"@) {
                Some(Val::Text(method)) => match get(route, "path"@) {
                    Some(Val::Text(path)) => match path_params(path, request.path) {
                        None => routed(routes, funcs, request, i + 1, matched),
                        Some(params) => if method != request.method {
                            routed(routes, funcs, request, i + 1, true)
                        } else {
                            match get(route, "handler"@) {
                                Some(Val::Callable(function)) => Ok(
                                    Target::Handler(function, params),
                                ),
                                Some(Val::Text(name)) => match get(funcs, name) {
                                    Some(function) => Ok(Target::Handler(function, params)),
                                    None => Err("web_serve handler not found: "@ + name),
                                },
                                _ => Err(
                                    "web_serve route handler must be a function or function name"@,
                                ),
                            }
                        },
                    },
                    _ => Err("web_serve route path must be text"@),
                },
                _ => Err("web_serve route method must be text"@),
            },
            _ => Err("web_serve route entries must be maps"@),
        }
    }
}

pub enum Destination {
    Handler(Rc<Function>, Table<ZapValue>),
    NotAllowed,
    NotFound,
}

pub open spec fn told_target(r: Result<Destination, String>) -> Result<Target, Str> {
    match r {
        Ok(Destination::Handler(function, params)) => Ok(Target::Handler(function@, params@)),
        Ok(Destination::NotAllowed) => Ok(Target::NotAllowed),
        Ok(Destination::NotFound) => Ok(Target::NotFound),
        Err(error) => Err(error@),
    }
}

pub fn find_route(routes: &Vec<ZapValue>, funcs: &Functions, request: &WebRequest) -> (r: Result<
    Destination,
    String,
>)
    ensures
        told_target(r) == routed(views(routes@), funcs@, request@, 0, false),
{
    let mut matched: bool = false;
    let mut i: usize = 0;
    while i < routes.len()
        invariant
            i <= routes@.len(),
            routed(views(routes@), funcs@, request@, 0, false) == routed(
                views(routes@),
                funcs@,
                request@,
                i as nat,
                matched,
            ),
        decreases routes.len() - i,
    {
        proof {
            lemma_value_view(&routes@[i as int]);
            assert(views(routes@)[i as int] == routes@[i as int]@);
        }
        let route = match &routes[i] {
            ZapValue::Dict(route) => route,
            _ => {
                return fail("web_serve route entries must be maps");
            },
        };
        let method = match route.find("method") {
            Some(ZapValue::Text(method)) => method,
            _ => {
                return fail("web_serve route method must be text");
            },
        };
        let path = match route.find("path") {
            Some(ZapValue::Text(path)) => path,
            _ => {
                return fail("web_serve route path must be text");
            },
        };
        match web_path_matches(path.as_str(), request.path.as_str()) {
            None => {},
            Some(params) => {
                if same(method.as_str(), request.method.as_str()) {
                    return match route.find("handler") {
                        Some(ZapValue::Callable(function)) => Ok(
                            Destination::Handler(function.clone(), params),
                        ),
                        Some(ZapValue::Text(name)) => match funcs.find(name.as_str()) {
                            Some(function) => Ok(Destination::Handler(function.clone(), params)),
                            None => Err(join2("web_serve handler not found: ", name.as_str())),
                        },
                        _ => fail("web_serve route handler must be a function or function name"),
                    };
                }
                matched = true;
            },
        }
        i += 1;
    }
    if matched {
        Ok(Destination::NotAllowed)
    } else {
        Ok(Destination::NotFound)
    }
}

pub open spec fn text_rows(rows: Rows<Str>) -> Rows<Val> {
    Seq::new(rows.len(), |i: int| (rows[i].0, Val::Text(rows[i].1)))
}

/// The request as a handler sees it.
pub open spec fn request_value(request: RequestM, id: Str, params: Rows<Val>) -> Val {
    let t = put(Seq::empty(), "method"@, Val::Text(request.method));
    let t = put(t, "path"@, Val::Text(request.path));
    let t = put(t, "body"@, Val::Text(request.body));
    let t = put(t, "request_id"@, Val::Text(id));
    let t = put(t, "headers"@, Val::Dict(text_rows(request.headers)));
    let t = put(t, "params"@, Val::Dict(params));
    Val::Dict(t)
}

fn header_values(headers: &Table<String>) -> (r: Table<ZapValue>)
    ensures
        r@ == text_rows(headers@),
{
    let mut entries: Vec<(String, ZapValue)> = Vec::new();
    let mut i: usize = 0;
    while i < headers.entries.len()
        invariant
            i <= headers.entries@.len(),
            entries@.len() == i,
            forall|k: int|
                0 <= k < i ==> (#[trigger] entries@[k]).0@ == headers@[k].0 && entries@[k].1@
                    == Val::Text(headers@[k].1),
        decreases headers.entries.len() - i,
    {
        entries.push(
            (headers.entries[i].0.clone(), ZapValue::Text(headers.entries[i].1.clone())),
        );
        i += 1;
    }
    let t = Table { entries };
    assert(t@ =~= text_rows(headers@));
    t
}

pub fn handler_request(request: &WebRequest, id: &str, params: Table<ZapValue>) -> (r: ZapValue)
    ensures
        r@ == request_value(request@, id@, params@),
{
    let t = with(Table::new(), "method", text_value(request.method.as_str()));
    let t = with(t, "path", text_value(request.path.as_str()));
    let t = with(t, "body", text_value(request.body.as_str()));
    let t = with(t, "request_id", text_value(id));
    let t = with(t, "headers", dict(header_values(&request.headers)));
    let t = with(t, "params", dict(params));
    dict(t)
}

// ---------------------------------------------------------------------------
// A server for one request
// ---------------------------------------------------------------------------

/// Reads chunks, from number `i` on, until the head of the request or the stream ends.
pub open spec fn once_read(chunks: Seq<Seq<u8>>, i: nat, raw: Seq<u8>) -> Result<Seq<u8>, Str>
    decreases chunks.len() - i,
{
    if i >= chunks.len() || chunks[i as int].len() == 0 {
        Ok(raw)
    } else {
        let more = raw + chunks[i as int];
        if head_end(more, 0) is Some {
            Ok(more)
        } else if more.len() > MAX_HTTP_REQUEST_BYTES {
            Err("http_serve_once request exceeds the "@ + decimal(MAX_HTTP_REQUEST_BYTES as int)
                + " byte limit"@)
        } else {
            once_read(chunks, i + 1, more)
        }
    }
}

/// Whether a single request has to be read on: its head has not ended, and the limit is not
/// reached.
pub fn once_request_waits(raw: &Vec<u8>) -> (r: bool)
    ensures
        r == (head_end(raw@, 0) is None && raw@.len() <= MAX_HTTP_REQUEST_BYTES),
{
    http_header_end(raw).is_none() && raw.len() <= MAX_HTTP_REQUEST_BYTES
}

fn read_once(chunks: &Vec<Vec<u8>>) -> (r: Result<Vec<u8>, String>)
    ensures
        told_bytes(r) == once_read(chunk_views(chunks@), 0, Seq::empty()),
{
    let mut raw: Vec<u8> = Vec::new();
    let mut i: usize = 0;
    assert(raw@ =~= Seq::<u8>::empty());
    while i < chunks.len() && chunks[i].len() > 0
        invariant
            i <= chunks@.len(),
            once_read(chunk_views(chunks@), 0, Seq::empty()) == once_read(
                chunk_views(chunks@),
                i as nat,
                raw@,
            ),
        decreases chunks.len() - i,
    {
        assert(chunk_views(chunks@)[i as int] == chunks@[i as int]@);
        push_bytes(&mut raw, &chunks[i]);
        if http_header_end(&raw).is_some() {
            return Ok(raw);
        }
        if raw.len() > MAX_HTTP_REQUEST_BYTES {
            return Err(
                join3(
                    "http_serve_once request exceeds the ",
                    length_text(MAX_HTTP_REQUEST_BYTES).as_str(),
                    " byte limit",
                ),
            );
        }
        i += 1;
    }
    proof {
        if i < chunks@.len() {
            assert(chunk_views(chunks@)[i as int] == chunks@[i as int]@);
        }
    }
    Ok(raw)
}

/// The words of the first line of a request.
pub open spec fn once_line(raw: Seq<u8>) -> Result<Seq<Str>, Str> {
    if !valid_utf8(raw) {
        Err("http_serve_once request is not UTF-8"@)
    } else {
        let line = words(word_at(crate::layout::lines_of(decode_utf8(raw)), 0));
        if line.len() < 3 || !good_version(line[2]) {
            Err("http_serve_once received a malformed HTTP request"@)
        } else {
            Ok(line)
        }
    }
}

pub open spec fn once_response(body: Str) -> Str {
    "HTTP/1.1 200 OK\r\nContent-Length: "@ + decimal(size(body) as int)
        + "\r\nContent-Type: text/plain; charset=utf-8\r\nConnection: close\r\n\r\n"@ + body
}

/// The address of the server and the chunks of the request, as the host tells them.
pub open spec fn once_accepted(reply: Result<Val, Str>) -> Result<(Str, Seq<Seq<u8>>), Str> {
    match reply {
        Err(error) => Err(error),
        Ok(Val::List(parts)) => if parts.len() == 2 {
            match (parts[0], parts[1]) {
                (Val::Text(address), Val::List(items)) => match chunks_told(
                    items,
                    0,
                    Seq::empty(),
                ) {
                    Some(chunks) => Ok((address, chunks)),
                    None => Err(invalid_reply("http_serve_once"@)),
                },
                _ => Err(invalid_reply("http_serve_once"@)),
            }
        } else {
            Err(invalid_reply("http_serve_once"@))
        },
        Ok(_) => Err(invalid_reply("http_serve_once"@)),
    }
}

spec fn accepted_view(r: Result<(String, Vec<Vec<u8>>), String>) -> Result<
    (Str, Seq<Seq<u8>>),
    Str,
> {
    match r {
        Ok(pair) => Ok((pair.0@, chunk_views(pair.1@))),
        Err(error) => Err(error@),
    }
}

fn read_accepted(reply: Result<ZapValue, String>) -> (r: Result<(String, Vec<Vec<u8>>), String>)
    ensures
        accepted_view(r) == once_accepted(told(reply)),
{
    broadcast use lemma_value_view;

    match reply {
        Err(error) => Err(error),
        Ok(ZapValue::List(parts)) => {
            if parts.len() != 2 {
                return Err(join2("http_serve_once", " failed: invalid host reply"));
            }
            match (&parts[0], &parts[1]) {
                (ZapValue::Text(address), ZapValue::List(items)) => match read_chunks(items) {
                    Some(chunks) => Ok((address.clone(), chunks)),
                    None => Err(join2("http_serve_once", " failed: invalid host reply")),
                },
                _ => Err(join2("http_serve_once", " failed: invalid host reply")),
            }
        },
        Ok(_) => Err(join2("http_serve_once", " failed: invalid host reply")),
    }
}

pub open spec fn once_record(address: Str, line: Seq<Str>, body: Str) -> Val {
    let t = put(Seq::empty(), "address"@, Val::Text(address));
    let t = put(t, "method"@, Val::Text(line[0]));
    let t = put(t, "path"@, Val::Text(line[1]));
    let t = put(t, "body"@, Val::Text(body));
    Val::Dict(t)
}

/// Serves one request: the host accepts it, the response is written, a record is returned.
pub open spec fn serve_once(args: Seq<Val>, w: World) -> (Result<Val, Str>, World) {
    if args.len() != 2 {
        (
            Err("http_serve_once expects port and response body, got "@ + decimal(
                args.len() as int,
            ) + " arguments"@),
            w,
        )
    } else {
        match args[0] {
            Val::Number(port) => if 0 <= port <= 65535 {
                match args[1] {
                    Val::Text(body) => if size(body) > MAX_HTTP_RESPONSE_BYTES {
                        (
                            Err("http_serve_once response exceeds the "@ + decimal(
                                MAX_HTTP_RESPONSE_BYTES as int,
                            ) + " byte limit"@),
                            w,
                        )
                    } else {
                        let (reply, w1) = ask(w, "http_accept_once"@, seq![Val::Number(port)]);
                        match once_accepted(reply) {
                            Err(error) => (Err(error), w1),
                            Ok((address, chunks)) => match once_read(chunks, 0, Seq::empty()) {
                                Err(error) => (Err(error), w1),
                                Ok(raw) => match once_line(raw) {
                                    Err(error) => (Err(error), w1),
                                    Ok(line) => {
                                        let (sent, w2) = ask(
                                            w1,
                                            "http_reply_once"@,
                                            seq![Val::Text(once_response(body))],
                                        );
                                        match sent {
                                            Err(error) => (Err(error), w2),
                                            Ok(_) => (Ok(once_record(address, line, body)), w2),
                                        }
                                    },
                                },
                            },
                        }
                    },
                    _ => (Err("http_serve_once expects a text response body"@), w),
                }
            } else {
                (Err("http_serve_once expects a numeric port from 0 to 65535"@), w)
            },
            _ => (Err("http_serve_once expects a numeric port from 0 to 65535"@), w),
        }
    }
}

spec fn told_line(r: Result<Vec<String>, String>) -> Result<Seq<Str>, Str> {
    match r {
        Ok(line) => Ok(texts(line@)),
        Err(error) => Err(error@),
    }
}

fn read_once_line(raw: Vec<u8>) -> (r: Result<Vec<String>, String>)
    ensures
        told_line(r) == once_line(raw@),
        match r {
            Ok(line) => line@.len() >= 3,
            Err(_) => true,
        },
{
    let text = match text_from_bytes(raw) {
        None => {
            return fail("http_serve_once request is not UTF-8");
        },
        Some(text) => text,
    };
    let lines = crate::layout::source_lines(text.as_str());
    let ghost lines_view = texts(lines@);
    let first = if lines.len() > 0 {
        assert(lines_view[0] == lines@[0]@);
        lines[0].clone()
    } else {
        let nothing = String::new();
        assert(nothing@ =~= Seq::<char>::empty());
        nothing
    };
    let line = split_words(first.as_str());
    if line.len() < 3 {
        return fail("http_serve_once received a malformed HTTP request");
    }
    let ghost line_view = texts(line@);
    assert(line_view[2] == line@[2]@);
    if !same(line[2].as_str(), "HTTP/1.1") && !same(line[2].as_str(), "HTTP/1.0") {
        return fail("http_serve_once received a malformed HTTP request");
    }
    Ok(line)
}

pub fn http_serve_once(args: &Vec<ZapValue>, context: &mut ExecutionContext) -> (r: Result<
    ZapValue,
    String,
>)
    ensures
        (told(r), final(context)@) == serve_once(views(args@), old(context)@),
{
    if args.len() != 2 {
        return Err(
            join3(
                "http_serve_once expects port and response body, got ",
                length_text(args.len()).as_str(),
                " arguments",
            ),
        );
    }
    let port: i64 = match &args[0] {
        ZapValue::Number(port) => *port,
        _ => -1,
    };
    if port < 0 || port > 65535 {
        return fail("http_serve_once expects a numeric port from 0 to 65535");
    }
    let body = match &args[1] {
        ZapValue::Text(body) => body,
        _ => {
            return fail("http_serve_once expects a text response body");
        },
    };
    if byte_len(body.as_str()) > MAX_HTTP_RESPONSE_BYTES {
        return Err(
            join3(
                "http_serve_once response exceeds the ",
                length_text(MAX_HTTP_RESPONSE_BYTES).as_str(),
                " byte limit",
            ),
        );
    }
    let mut arguments: Vec<ZapValue> = Vec::new();
    arguments.push(ZapValue::Number(port));
    assert(views(arguments@) =~= seq![Val::Number(port)]);
    let reply = context.ask("http_accept_once", arguments);
    let (address, chunks) = match read_accepted(reply) {
        Err(error) => {
            return Err(error);
        },
        Ok(pair) => pair,
    };
    let raw = match read_once(&chunks) {
        Err(error) => {
            return Err(error);
        },
        Ok(raw) => raw,
    };
    let line = match read_once_line(raw) {
        Err(error) => {
            return Err(error);
        },
        Ok(line) => line,
    };
    let ghost line_view = texts(line@);
    assert(line_view[0] == line@[0]@ && line_view[1] == line@[1]@);
    let response = crate::text::join4(
        "HTTP/1.1 200 OK\r\nContent-Length: ",
        length_text(byte_len(body.as_str())).as_str(),
        "\r\nContent-Type: text/plain; charset=utf-8\r\nConnection: close\r\n\r\n",
        body.as_str(),
    );
    match context.ask("http_reply_once", crate::host::one_text(response.as_str())) {
        Err(error) => Err(error),
        Ok(_) => {
            let t = with(Table::new(), "address", ZapValue::Text(address));
            let t = with(t, "method", text_value(line[0].as_str()));
            let t = with(t, "path", text_value(line[1].as_str()));
            let t = with(t, "body", text_value(body.as_str()));
            Ok(dict(t))
        },
    }
}

} // verus!
