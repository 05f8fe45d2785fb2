//! URLs: percent encoding and the parts of an absolute URL.

use crate::outside::text_from_bytes;
use crate::records::{dict, some_value, text_value, with};
use crate::table::{put, Table};
use crate::text::{alnum, ascii_lower, byte_len, chars_of, cut, decimal, find, is_alnum, join3,
    length_text, natural, read_natural, size, split_once, to_ascii_lower, after, before, Str};
use crate::value::{fail, told, Val, ZapValue};
use vstd::prelude::*;
use vstd::utf8::{decode_utf8, encode_utf8, valid_utf8};

verus! {

pub const MAX_URL_BYTES: usize = 8_192;

// ---------------------------------------------------------------------------
// Percent encoding
// ---------------------------------------------------------------------------

pub open spec fn is_unreserved(b: u8) -> bool {
    ('0' as u8 <= b <= '9' as u8) || ('a' as u8 <= b <= 'z' as u8) || ('A' as u8 <= b <= 'Z' as u8)
        || b == '-' as u8 || b == '_' as u8 || b == '.' as u8 || b == '~' as u8
}

/// The upper case hexadecimal digit of a number below sixteen.
pub open spec fn hex_digit(n: u8) -> char {
    if n < 10 {
        (48 + n) as char
    } else {
        (55 + n) as char
    }
}

/// What a byte becomes in a percent encoded text.
pub open spec fn escape(b: u8) -> Str {
    if is_unreserved(b) {
        seq![b as char]
    } else {
        seq!['%', hex_digit(b / 16), hex_digit(b % 16)]
    }
}

/// The percent encoding of the first `n` bytes.
pub open spec fn escape_all(bytes: Seq<u8>, n: nat) -> Str
    decreases n,
{
    if n == 0 || n > bytes.len() {
        Seq::empty()
    } else {
        escape_all(bytes, (n - 1) as nat) + escape(bytes[n - 1])
    }
}

pub open spec fn percent_encoded(s: Str) -> Str {
    escape_all(encode_utf8(s), encode_utf8(s).len())
}

fn hex_of(n: u8) -> (c: char)
    requires
        n < 16,
    ensures
        c == hex_digit(n),
{
    if n < 10 {
        (48 + n) as char
    } else {
        (55 + n) as char
    }
}

pub fn percent_encode(value: &str) -> (r: String)
    ensures
        r@ == percent_encoded(value@),
{
    let bytes = value.as_bytes();
    let mut out: String = String::new();
    let mut i: usize = 0;
    while i < bytes.len()
        invariant
            i <= bytes@.len(),
            bytes@ == encode_utf8(value@),
            out@ == escape_all(bytes@, i as nat),
        decreases bytes.len() - i,
    {
        let b: u8 = bytes[i];
        let ghost earlier = out@;
        if (48 <= b && b <= 57) || (97 <= b && b <= 122) || (65 <= b && b <= 90) || b == 45 || b
            == 95 || b == 46 || b == 126 {
            assert(is_unreserved(b));
            out.push(b as char);
            assert(out@ =~= earlier + escape(b));
        } else {
            assert(!is_unreserved(b));
            out.push('%');
            out.push(hex_of(b / 16));
            out.push(hex_of(b % 16));
            assert(out@ =~= earlier + escape(b));
        }
        i += 1;
    }
    out
}

pub open spec fn hex_value(b: u8) -> Option<u8> {
    if 48 <= b <= 57 {
        Some((b - 48) as u8)
    } else if 65 <= b <= 70 {
        Some((b - 55) as u8)
    } else if 97 <= b <= 102 {
        Some((b - 87) as u8)
    } else {
        None
    }
}

/// The byte that two characters behind a percent sign denote; the first may be a plus sign.
pub open spec fn hex_pair(a: u8, b: u8) -> Option<u8> {
    if a == 43 {
        hex_value(b)
    } else {
        match (hex_value(a), hex_value(b)) {
            (Some(x), Some(y)) => Some((16 * x + y) as u8),
            _ => None,
        }
    }
}

/// The bytes of a percent encoded text from position `i` on.
pub open spec fn unescape(bytes: Seq<u8>, i: int) -> Result<Seq<u8>, Str>
    decreases bytes.len() - i,
{
    if i < 0 || i >= bytes.len() {
        Ok(Seq::empty())
    } else if bytes[i] != 37 {
        match unescape(bytes, i + 1) {
            Ok(rest) => Ok(seq![bytes[i]] + rest),
            Err(error) => Err(error),
        }
    } else if i + 2 >= bytes.len() {
        Err("url_decode found an incomplete percent escape"@)
    } else {
        match hex_pair(bytes[i + 1], bytes[i + 2]) {
            None => Err("url_decode found invalid percent escape"@),
            Some(b) => match unescape(bytes, i + 3) {
                Ok(rest) => Ok(seq![b] + rest),
                Err(error) => Err(error),
            },
        }
    }
}

pub open spec fn percent_decoded(s: Str) -> Result<Str, Str> {
    match unescape(encode_utf8(s), 0) {
        Err(error) => Err(error),
        Ok(bytes) => if valid_utf8(bytes) {
            Ok(decode_utf8(bytes))
        } else {
            Err("url_decode produced invalid UTF-8"@)
        },
    }
}

pub open spec fn with_bytes(done: Seq<u8>, rest: Result<Seq<u8>, Str>) -> Result<Seq<u8>, Str> {
    match rest {
        Ok(more) => Ok(done + more),
        Err(error) => Err(error),
    }
}

fn value_of_hex(b: u8) -> (r: Option<u8>)
    ensures
        r == hex_value(b),
        r matches Some(n) ==> n < 16,
{
    if 48 <= b && b <= 57 {
        Some(b - 48)
    } else if 65 <= b && b <= 70 {
        Some(b - 55)
    } else if 97 <= b && b <= 102 {
        Some(b - 87)
    } else {
        None
    }
}

fn byte_of_pair(a: u8, b: u8) -> (r: Option<u8>)
    ensures
        r == hex_pair(a, b),
{
    if a == 43 {
        return value_of_hex(b);
    }
    match (value_of_hex(a), value_of_hex(b)) {
        (Some(x), Some(y)) => Some(16 * x + y),
        _ => None,
    }
}

pub fn percent_decode(value: &str) -> (r: Result<String, String>)
    ensures
        told(r) == percent_decoded(value@),
{
    let bytes = value.as_bytes();
    let mut out: Vec<u8> = Vec::new();
    let mut i: usize = 0;
    proof {
        let first = unescape(bytes@, 0);
        if first is Ok {
            assert(out@ + first->Ok_0 =~= first->Ok_0);
        }
    }
    while i < bytes.len()
        invariant
            i <= bytes@.len(),
            bytes@ == encode_utf8(value@),
            unescape(bytes@, 0) == with_bytes(out@, unescape(bytes@, i as int)),
        decreases bytes.len() - i,
    {
        let ghost earlier = out@;
        if bytes[i] != 37 {
            out.push(bytes[i]);
            proof {
                let rest = unescape(bytes@, i + 1);
                if rest is Ok {
                    assert(earlier + (seq![bytes@[i as int]] + rest->Ok_0) =~= out@ + rest->Ok_0);
                }
            }
            i += 1;
            continue ;
        }
        if bytes.len() - i <= 2 {
            return fail("url_decode found an incomplete percent escape");
        }
        match byte_of_pair(bytes[i + 1], bytes[i + 2]) {
            None => {
                return fail("url_decode found invalid percent escape");
            },
            Some(b) => {
                out.push(b);
                proof {
                    let rest = unescape(bytes@, i + 3);
                    if rest is Ok {
                        assert(earlier + (seq![b] + rest->Ok_0) =~= out@ + rest->Ok_0);
                    }
                }
            },
        }
        i += 3;
    }
    assert(out@ + Seq::<u8>::empty() =~= out@);
    match text_from_bytes(out) {
        Some(text) => Ok(text),
        None => fail("url_decode produced invalid UTF-8"),
    }
}

// ---------------------------------------------------------------------------
// The parts of a URL
// ---------------------------------------------------------------------------

pub open spec fn is_scheme_char(c: char) -> bool {
    is_alnum(c) || c == '+' || c == '-' || c == '.'
}

/// The first position at or after `i` that ends the authority of a URL.
pub open spec fn authority_end(s: Str, i: int) -> int
    decreases s.len() - i,
{
    if 0 <= i < s.len() && s[i] != '/' && s[i] != '?' && s[i] != '#' {
        authority_end(s, i + 1)
    } else {
        i
    }
}

/// The last position before `i` that holds `c`.
pub open spec fn last_before(s: Str, c: char, i: int) -> Option<int>
    decreases i,
{
    if i <= 0 || i > s.len() {
        None
    } else if s[i - 1] == c {
        Some(i - 1)
    } else {
        last_before(s, c, i - 1)
    }
}

/// The number that an optional sign and decimal digits denote, within 64 bits.
pub open spec fn signed_number(s: Str) -> Option<int> {
    let marked = s.len() > 0 && (s[0] == '+' || s[0] == '-');
    let negative = s.len() > 0 && s[0] == '-';
    let body = if marked {
        s.skip(1)
    } else {
        s
    };
    match natural(
        body,
        if negative {
            0x8000_0000_0000_0000
        } else {
            0x7fff_ffff_ffff_ffff
        },
    ) {
        None => None,
        Some(n) => Some(
            if negative {
                -(n as int)
            } else {
                n as int
            },
        ),
    }
}

pub open spec fn port_error() -> Str {
    "url_parse found an invalid port"@
}

/// The host of an authority and its port.
pub open spec fn host_and_port(authority: Str) -> Result<(Str, Option<int>), Str> {
    if authority.len() > 0 && authority[0] == '[' {
        match find(authority, "]"@) {
            None => Err("url_parse found an invalid IPv6 host"@),
            Some(close) => {
                let rest = authority.skip(close + 1);
                if rest.len() > 0 && rest[0] == ':' {
                    match signed_number(rest.skip(1)) {
                        None => Err(port_error()),
                        Some(n) => Ok((authority.take(close + 1), Some(n))),
                    }
                } else {
                    Ok((authority.take(close + 1), None))
                }
            },
        }
    } else {
        match last_before(authority, ':', authority.len() as int) {
            None => Ok((authority, None)),
            Some(i) => match natural(authority.skip(i + 1), 0x7fff_ffff_ffff_ffff) {
                None => Err(port_error()),
                Some(n) => Ok((authority.take(i), Some(n as int))),
            },
        }
    }
}

/// What stands before the first `mark`, or all of it, and what stands behind it, or nothing.
pub open spec fn divided(s: Str, mark: Str) -> (Str, Str) {
    match cut(s, mark) {
        Some(parts) => parts,
        None => (s, Seq::empty()),
    }
}

/// The parts of an absolute URL.
pub open spec fn url_record(value: Str) -> Result<Val, Str> {
    if size(value) > MAX_URL_BYTES {
        Err("url_parse input exceeds the "@ + decimal(MAX_URL_BYTES as int) + " byte limit"@)
    } else {
        match cut(value, "://"@) {
            None => Err("url_parse expects an absolute URL with a scheme"@),
            Some(parts) => {
                let scheme = parts.0;
                let remainder = parts.1;
                let end = authority_end(remainder, 0);
                let authority = remainder.take(end);
                if scheme.len() == 0 || exists|i: int|
                    0 <= i < scheme.len() && !is_scheme_char(#[trigger] scheme[i]) {
                    Err("url_parse found an invalid scheme"@)
                } else if authority.len() == 0 {
                    Err("url_parse requires a host"@)
                } else {
                    match host_and_port(authority) {
                        Err(error) => Err(error),
                        Ok(found) => if found.0.len() == 0 {
                            Err("url_parse requires a host"@)
                        } else if found.1 is Some && !(0 <= found.1->0 <= 65535) {
                            Err(port_error())
                        } else {
                            let without_fragment = divided(remainder.skip(end), "#"@);
                            let path_query = divided(without_fragment.0, "?"@);
                            let t = put(Seq::empty(), "scheme"@, Val::Text(ascii_lower(scheme)));
                            let t = put(t, "host"@, Val::Text(found.0));
                            let t = put(
                                t,
                                "path"@,
                                Val::Text(
                                    if path_query.0.len() == 0 {
                                        "/"@
                                    } else {
                                        path_query.0
                                    },
                                ),
                            );
                            let t = put(t, "query"@, Val::Text(path_query.1));
                            let t = put(t, "fragment"@, Val::Text(without_fragment.1));
                            let t = put(
                                t,
                                "port"@,
                                match found.1 {
                                    None => Val::OptionNone,
                                    Some(n) => Val::OptionSome(Box::new(Val::Number(n as i64))),
                                },
                            );
                            Ok(Val::Dict(t))
                        },
                    }
                }
            },
        }
    }
}

pub open spec fn told_host(r: Result<(String, Option<i64>), String>) -> Result<
    (Str, Option<int>),
    Str,
> {
    match r {
        Ok(found) => Ok(
            (
                found.0@,
                match found.1 {
                    Some(n) => Some(n as int),
                    None => None,
                },
            ),
        ),
        Err(error) => Err(error@),
    }
}

fn read_signed(s: &str) -> (r: Option<i64>)
    ensures
        signed_number(s@) == (match r {
            Some(n) => Some(n as int),
            None => None::<int>,
        }),
{
    let v = chars_of(s);
    if v.len() == 0 {
        return None;
    }
    let negative = v[0] == '-';
    let marked = v[0] == '+' || negative;
    let body = if marked {
        let rest = after(s, 1);
        chars_of(rest.as_str())
    } else {
        chars_of(s)
    };
    if negative {
        match read_natural(&body, 0x8000_0000_0000_0000) {
            None => None,
            Some(n) => if n == 0x8000_0000_0000_0000 {
                Some(i64::MIN)
            } else {
                Some(-(n as i64))
            },
        }
    } else {
        match read_natural(&body, 0x7fff_ffff_ffff_ffff) {
            None => None,
            Some(n) => Some(n as i64),
        }
    }
}

fn split_host(authority: &str) -> (r: Result<(String, Option<i64>), String>)
    ensures
        told_host(r) == host_and_port(authority@),
{
    let v = chars_of(authority);
    proof {
        reveal_strlit("]");
    }
    if v.len() > 0 && v[0] == '[' {
        match crate::text::position(authority, "]") {
            None => fail("url_parse found an invalid IPv6 host"),
            Some(close) => {
                let host = before(authority, close + 1);
                let rest = after(authority, close + 1);
                let rest_chars = chars_of(rest.as_str());
                if rest_chars.len() > 0 && rest_chars[0] == ':' {
                    let number = after(rest.as_str(), 1);
                    match read_signed(number.as_str()) {
                        None => fail("url_parse found an invalid port"),
                        Some(n) => Ok((host, Some(n))),
                    }
                } else {
                    Ok((host, None))
                }
            },
        }
    } else {
        let mut i: usize = v.len();
        while i > 0 && v[i - 1] != ':'
            invariant
                i <= v@.len(),
                last_before(v@, ':', v@.len() as int) == last_before(v@, ':', i as int),
            decreases i,
        {
            i -= 1;
        }
        if i == 0 {
            return Ok((authority.to_owned(), None));
        }
        let host = before(authority, i - 1);
        let number = after(authority, i);
        match read_natural(&chars_of(number.as_str()), 0x7fff_ffff_ffff_ffff) {
            None => fail("url_parse found an invalid port"),
            Some(n) => Ok((host, Some(n as i64))),
        }
    }
}

fn divide(s: &str, mark: &str) -> (r: (String, String))
    ensures
        (r.0@, r.1@) == divided(s@, mark@),
{
    match split_once(s, mark) {
        Some(parts) => parts,
        None => {
            let nothing = String::new();
            assert(nothing@ =~= Seq::<char>::empty());
            (s.to_owned(), nothing)
        },
    }
}

/// The parts of an absolute URL as a map: scheme, host, port, path, query and fragment.
pub fn parse_url(value: &str) -> (r: Result<ZapValue, String>)
    ensures
        told(r) == url_record(value@),
{
    if byte_len(value) > MAX_URL_BYTES {
        return Err(
            join3(
                "url_parse input exceeds the ",
                length_text(MAX_URL_BYTES).as_str(),
                " byte limit",
            ),
        );
    }
    let (scheme, remainder) = match split_once(value, "://") {
        None => {
            return fail("url_parse expects an absolute URL with a scheme");
        },
        Some(parts) => parts,
    };
    let scheme_chars = chars_of(scheme.as_str());
    if scheme_chars.len() == 0 {
        return fail("url_parse found an invalid scheme");
    }
    let mut k: usize = 0;
    while k < scheme_chars.len()
        invariant
            k <= scheme_chars@.len(),
            scheme_chars@.len() > 0,
            scheme_chars@ == scheme@,
            size(value@) <= MAX_URL_BYTES,
            cut(value@, "://"@) == Some((scheme@, remainder@)),
            forall|j: int| 0 <= j < k ==> is_scheme_char(#[trigger] scheme_chars@[j]),
        decreases scheme_chars.len() - k,
    {
        let c: char = scheme_chars[k];
        if !(alnum(c) || c == '+' || c == '-' || c == '.') {
            assert(!is_scheme_char(scheme@[k as int]));
            return fail("url_parse found an invalid scheme");
        }
        k += 1;
    }
    let rest = chars_of(remainder.as_str());
    let mut end: usize = 0;
    while end < rest.len() && rest[end] != '/' && rest[end] != '?' && rest[end] != '#'
        invariant
            end <= rest@.len(),
            authority_end(rest@, 0) == authority_end(rest@, end as int),
        decreases rest.len() - end,
    {
        end += 1;
    }
    let authority = before(remainder.as_str(), end);
    if end == 0 {
        return fail("url_parse requires a host");
    }
    let (host, port) = match split_host(authority.as_str()) {
        Err(error) => {
            return Err(error);
        },
        Ok(found) => found,
    };
    if chars_of(host.as_str()).len() == 0 {
        return fail("url_parse requires a host");
    }
    if let Some(n) = port {
        if n < 0 || n > 65535 {
            return fail("url_parse found an invalid port");
        }
    }
    let suffix = after(remainder.as_str(), end);
    let (before_fragment, fragment) = divide(suffix.as_str(), "#");
    let (path, query) = divide(before_fragment.as_str(), "?");
    let t = with(Table::new(), "scheme", ZapValue::Text(to_ascii_lower(scheme.as_str())));
    let t = with(t, "host", ZapValue::Text(host));
    let t = with(
        t,
        "path",
        if chars_of(path.as_str()).len() == 0 {
            text_value("/")
        } else {
            ZapValue::Text(path)
        },
    );
    let t = with(t, "query", ZapValue::Text(query));
    let t = with(t, "fragment", ZapValue::Text(fragment));
    let t = with(
        t,
        "port",
        match port {
            None => ZapValue::OptionNone,
            Some(n) => some_value(ZapValue::Number(n)),
        },
    );
    Ok(dict(t))
}

} // verus!
