//! Static assets for web handlers.

use crate::ast::{opt_text, views};
use crate::host::{confined, confined_path, invalid_reply, one_text, two_texts};
use crate::json::{lemma_json_view, shown_json, Json, JsonM};
use crate::outside::{base64_bytes, base64_text, decode_base64, encode_base64, render_json,
    text_from_bytes};
use crate::paths::{extension, is_plain, lies_within, path_extension, path_is_plain,
    path_lies_within};
use crate::records::{dict, text_value, with};
use crate::table::{get, put, Table};
use crate::text::{byte_len, decimal, is_blank_text, join2, join3, length_text, same, size,
    text_holds, Str};
use crate::url::{percent_decode, percent_decoded};
use crate::value::{fail, lemma_value_view, told, Val, ZapValue};
use crate::webcheck::MAX_STATIC_ASSET_PATH_BYTES;
use crate::world::{ask, ExecutionContext, World};
use vstd::prelude::*;
use vstd::utf8::{decode_utf8, valid_utf8};

verus! {

pub const MAX_STATIC_ASSET_BYTES: usize = 2_097_152;

/// The content type of a file extension.
pub open spec fn content_type_of(ext: Str) -> Option<Str> {
    if ext == "html"@ {
        Some("text/html; charset=utf-8"@)
    } else if ext == "css"@ {
        Some("text/css; charset=utf-8"@)
    } else if ext == "js"@ || ext == "mjs"@ {
        Some("text/javascript; charset=utf-8"@)
    } else if ext == "json"@ || ext == "map"@ {
        Some("application/json; charset=utf-8"@)
    } else if ext == "svg"@ {
        Some("image/svg+xml"@)
    } else if ext == "png"@ {
        Some("image/png"@)
    } else if ext == "jpg"@ || ext == "jpeg"@ {
        Some("image/jpeg"@)
    } else if ext == "gif"@ {
        Some("image/gif"@)
    } else if ext == "webp"@ {
        Some("image/webp"@)
    } else if ext == "ico"@ {
        Some("image/x-icon"@)
    } else if ext == "avif"@ {
        Some("image/avif"@)
    } else if ext == "woff"@ {
        Some("font/woff"@)
    } else if ext == "woff2"@ {
        Some("font/woff2"@)
    } else if ext == "ttf"@ {
        Some("font/ttf"@)
    } else if ext == "otf"@ {
        Some("font/otf"@)
    } else if ext == "wasm"@ {
        Some("application/wasm"@)
    } else if ext == "txt"@ {
        Some("text/plain; charset=utf-8"@)
    } else {
        None
    }
}

pub open spec fn content_type(path: Str, sep: char) -> Option<Str> {
    match extension(path, sep) {
        Some(ext) => content_type_of(ext),
        None => None,
    }
}

pub open spec fn opt_static(r: Option<&'static str>) -> Option<Str> {
    match r {
        Some(s) => Some(s@),
        None => None,
    }
}

/// The content type of a static asset, by its extension.
pub fn web_static_content_type(path: &str, sep: char) -> (r: Option<&'static str>)
    ensures
        opt_static(r) == content_type(path@, sep),
{
    let ext = match path_extension(path, sep) {
        Some(ext) => ext,
        None => {
            return None;
        },
    };
    let e = ext.as_str();
    if same(e, "html") {
        Some("text/html; charset=utf-8")
    } else if same(e, "css") {
        Some("text/css; charset=utf-8")
    } else if same(e, "js") || same(e, "mjs") {
        Some("text/javascript; charset=utf-8")
    } else if same(e, "json") || same(e, "map") {
        Some("application/json; charset=utf-8")
    } else if same(e, "svg") {
        Some("image/svg+xml")
    } else if same(e, "png") {
        Some("image/png")
    } else if same(e, "jpg") || same(e, "jpeg") {
        Some("image/jpeg")
    } else if same(e, "gif") {
        Some("image/gif")
    } else if same(e, "webp") {
        Some("image/webp")
    } else if same(e, "ico") {
        Some("image/x-icon")
    } else if same(e, "avif") {
        Some("image/avif")
    } else if same(e, "woff") {
        Some("font/woff")
    } else if same(e, "woff2") {
        Some("font/woff2")
    } else if same(e, "ttf") {
        Some("font/ttf")
    } else if same(e, "otf") {
        Some("font/otf")
    } else if same(e, "wasm") {
        Some("application/wasm")
    } else if same(e, "txt") {
        Some("text/plain; charset=utf-8")
    } else {
        None
    }
}

pub open spec fn not_found_document() -> JsonM {
    JsonM::Object(put(Seq::empty(), "error"@, JsonM::Text("asset_not_found"@)))
}

/// The response for an asset that is not there.
pub open spec fn asset_not_found() -> Val {
    let t = put(Seq::empty(), "status"@, Val::Number(404));
    let t = put(t, "content_type"@, Val::Text("application/json; charset=utf-8"@));
    let t = put(t, "body"@, Val::Text(shown_json(not_found_document())));
    Val::Dict(t)
}

fn web_static_not_found() -> (r: ZapValue)
    ensures
        r@ == asset_not_found(),
{
    broadcast use lemma_json_view;

    let mut table: Table<Json> = Table::new();
    table.insert("error".to_owned(), Json::Text("asset_not_found".to_owned()));
    let document = Json::Object(table);
    let body = match render_json(&document) {
        Ok(text) => text,
        Err(error) => error,
    };
    let t = with(Table::new(), "status", ZapValue::Number(404));
    let t = with(t, "content_type", text_value("application/json; charset=utf-8"));
    let t = with(t, "body", ZapValue::Text(body));
    dict(t)
}

/// The response that carries the bytes of an asset: as text where they are text, else in base64.
pub open spec fn asset_response(kind: Str, bytes: Seq<u8>) -> Val {
    let t = put(Seq::empty(), "status"@, Val::Number(200));
    let t = put(t, "content_type"@, Val::Text(kind));
    let t = if valid_utf8(bytes) {
        put(t, "body"@, Val::Text(decode_utf8(bytes)))
    } else {
        put(
            put(t, "body_base64"@, Val::Text(base64_text(bytes))),
            "body_encoding"@,
            Val::Text("base64"@),
        )
    };
    Val::Dict(t)
}

fn copy_bytes(v: &Vec<u8>) -> (r: Vec<u8>)
    ensures
        r@ == v@,
{
    let mut out: Vec<u8> = Vec::new();
    let mut i: usize = 0;
    while i < v.len()
        invariant
            i <= v@.len(),
            out@ == v@.take(i as int),
        decreases v.len() - i,
    {
        out.push(v[i]);
        assert(v@.take(i + 1) =~= v@.take(i as int).push(v@[i as int]));
        i += 1;
    }
    assert(v@.take(i as int) =~= v@);
    out
}

pub fn web_asset_response(kind: &str, bytes: &Vec<u8>) -> (r: ZapValue)
    ensures
        r@ == asset_response(kind@, bytes@),
{
    let t = with(Table::new(), "status", ZapValue::Number(200));
    let t = with(t, "content_type", text_value(kind));
    match text_from_bytes(copy_bytes(bytes)) {
        Some(text) => dict(with(t, "body", ZapValue::Text(text))),
        None => {
            let t = with(t, "body_base64", ZapValue::Text(encode_base64(bytes)));
            dict(with(t, "body_encoding", text_value("base64")))
        },
    }
}

pub open spec fn asset_limit_error() -> Str {
    "web_static asset exceeds the "@ + decimal(MAX_STATIC_ASSET_BYTES as int) + " byte limit"@
}

fn asset_limit_text() -> (r: String)
    ensures
        r@ == asset_limit_error(),
{
    join3(
        "web_static asset exceeds the ",
        length_text(MAX_STATIC_ASSET_BYTES).as_str(),
        " byte limit",
    )
}

/// Where an asset is, from what the host found: where its directory leads and whether that is a
/// directory, and where the asset leads. An asset that leads out of the directory is refused.
pub open spec fn asset_place(reply: Result<Val, Str>, sep: char) -> Result<
    Option<Str>,
    Str,
> {
    match reply {
        Err(error) => Err(error),
        Ok(Val::List(parts)) => if parts.len() == 3 {
            match (parts[0], parts[1]) {
                (Val::Text(root), Val::Bool(directory)) => if !directory {
                    Err("web_static root directory must be a directory"@)
                } else {
                    asset_within(root, parts[2], sep)
                },
                _ => Err(invalid_reply("web_static"@)),
            }
        } else {
            Err(invalid_reply("web_static"@))
        },
        Ok(_) => Err(invalid_reply("web_static"@)),
    }
}

pub open spec fn asset_within(root: Str, found: Val, sep: char) -> Result<Option<Str>, Str> {
    match found {
        Val::OptionNone => Ok(None),
        Val::Text(resolved) => if lies_within(resolved, root, sep) {
            Ok(Some(resolved))
        } else {
            Err("web_static asset path escapes the root directory"@)
        },
        _ => Err(invalid_reply("web_static"@)),
    }
}

/// Whether an asset is there to be read, from what the host found: whether it is a file, and its
/// size. What is no file counts as not there.
pub open spec fn asset_readable(reply: Result<Val, Str>) -> Result<bool, Str> {
    match reply {
        Err(error) => Err(error),
        Ok(Val::List(parts)) => if parts.len() == 2 {
            match (parts[0], parts[1]) {
                (Val::Bool(file), Val::Number(bytes)) => if !file {
                    Ok(false)
                } else if bytes > MAX_STATIC_ASSET_BYTES {
                    Err(asset_limit_error())
                } else {
                    Ok(true)
                },
                _ => Err(invalid_reply("web_static"@)),
            }
        } else {
            Err(invalid_reply("web_static"@))
        },
        Ok(_) => Err(invalid_reply("web_static"@)),
    }
}

fn read_asset_readable(reply: Result<ZapValue, String>) -> (r: Result<bool, String>)
    ensures
        (match r {
            Ok(readable) => Ok::<bool, Str>(readable),
            Err(error) => Err(error@),
        }) == asset_readable(told(reply)),
{
    broadcast use lemma_value_view;

    match reply {
        Err(error) => Err(error),
        Ok(ZapValue::List(parts)) => {
            if parts.len() != 2 {
                return Err(join2("web_static", " failed: invalid host reply"));
            }
            match (&parts[0], &parts[1]) {
                (ZapValue::Bool(file), ZapValue::Number(bytes)) => {
                    if !*file {
                        return Ok(false);
                    }
                    if *bytes > MAX_STATIC_ASSET_BYTES as i64 {
                        return Err(asset_limit_text());
                    }
                    Ok(true)
                },
                _ => Err(join2("web_static", " failed: invalid host reply")),
            }
        },
        Ok(_) => Err(join2("web_static", " failed: invalid host reply")),
    }
}

pub open spec fn told_place(r: Result<Option<String>, String>) -> Result<Option<Str>, Str> {
    match r {
        Ok(place) => Ok(opt_text(place)),
        Err(error) => Err(error@),
    }
}

fn read_asset_within(root: &str, found: &ZapValue, sep: char) -> (r: Result<
    Option<String>,
    String,
>)
    ensures
        told_place(r) == asset_within(root@, found@, sep),
{
    broadcast use lemma_value_view;

    match found {
        ZapValue::OptionNone => Ok(None),
        ZapValue::Text(resolved) => if path_lies_within(resolved.as_str(), root, sep) {
            Ok(Some(resolved.clone()))
        } else {
            fail("web_static asset path escapes the root directory")
        },
        _ => Err(join2("web_static", " failed: invalid host reply")),
    }
}

fn read_asset_place(reply: Result<ZapValue, String>, sep: char) -> (r: Result<
    Option<String>,
    String,
>)
    ensures
        told_place(r) == asset_place(told(reply), sep),
{
    broadcast use lemma_value_view;

    match reply {
        Err(error) => Err(error),
        Ok(ZapValue::List(parts)) => {
            if parts.len() != 3 {
                return Err(join2("web_static", " failed: invalid host reply"));
            }
            match (&parts[0], &parts[1]) {
                (ZapValue::Text(root), ZapValue::Bool(directory)) => if *directory {
                    read_asset_within(root.as_str(), &parts[2], sep)
                } else {
                    fail("web_static root directory must be a directory")
                },
                _ => Err(join2("web_static", " failed: invalid host reply")),
            }
        },
        Ok(_) => Err(join2("web_static", " failed: invalid host reply")),
    }
}

/// What becomes of the host's reply for the bytes of an asset, which are in base64.
pub open spec fn asset_reply(kind: Str, reply: Result<Val, Str>) -> Result<Val, Str> {
    match reply {
        Err(error) => Err(error),
        Ok(Val::Text(notation)) => match base64_bytes(notation) {
            None => Err(invalid_reply("web_static"@)),
            Some(bytes) => if bytes.len() > MAX_STATIC_ASSET_BYTES {
                Err(asset_limit_error())
            } else {
                Ok(asset_response(kind, bytes))
            },
        },
        Ok(_) => Err(invalid_reply("web_static"@)),
    }
}

fn read_asset(kind: &str, reply: Result<ZapValue, String>) -> (r: Result<ZapValue, String>)
    ensures
        told(r) == asset_reply(kind@, told(reply)),
{
    match reply {
        Err(error) => Err(error),
        Ok(ZapValue::Text(notation)) => match decode_base64(notation.as_str()) {
            None => Err(join2("web_static", " failed: invalid host reply")),
            Some(bytes) => if bytes.len() > MAX_STATIC_ASSET_BYTES {
                Err(asset_limit_text())
            } else {
                Ok(web_asset_response(kind, &bytes))
            },
        },
        Ok(_) => Err(join2("web_static", " failed: invalid host reply")),
    }
}

/// What the path of an asset is, once it is decoded, or why it is refused.
pub open spec fn asset_path(asset: Str, sep: char) -> Result<Str, Str> {
    match percent_decoded(asset) {
        Err(error) => Err("web_static asset path is invalid: "@ + error),
        Ok(decoded) => if decoded.len() == 0 || size(decoded) > MAX_STATIC_ASSET_PATH_BYTES
            || decoded.contains('\0') || decoded.contains('\\') {
            Err("web_static asset path is invalid"@)
        } else if !is_plain(decoded, sep) {
            Err("web_static asset path must be a safe relative file path"@)
        } else {
            Ok(decoded)
        },
    }
}

fn read_asset_path(asset: &str, sep: char) -> (r: Result<String, String>)
    ensures
        told(r) == asset_path(asset@, sep),
{
    match percent_decode(asset) {
        Err(error) => Err(join2("web_static asset path is invalid: ", error.as_str())),
        Ok(decoded) => {
            let d = decoded.as_str();
            if is_blank_text(d) || byte_len(d) > MAX_STATIC_ASSET_PATH_BYTES || text_holds(d, '\0')
                || text_holds(d, '\\') {
                return fail("web_static asset path is invalid");
            }
            if !path_is_plain(d, sep) {
                return fail("web_static asset path must be a safe relative file path");
            }
            Ok(decoded)
        },
    }
}

/// The response for a static asset in a root directory.
pub open spec fn static_asset(args: Seq<Val>, w: World) -> (Result<Val, Str>, World) {
    if args.len() != 2 {
        (
            Err("web_static expects asset path and root directory, got "@ + decimal(
                args.len() as int,
            ) + " arguments"@),
            w,
        )
    } else {
        match (args[0], args[1]) {
            (Val::Text(asset), Val::Text(root)) => served_asset(asset, root, w),
            _ => (Err("web_static expects text asset path and root directory"@), w),
        }
    }
}

/// The response for an asset whose place is known.
pub open spec fn delivered_asset(kind: Str, file: Str, w: World) -> (Result<Val, Str>, World) {
    let (reply, after) = ask(w, "asset_metadata"@, seq![Val::Text(file)]);
    match asset_readable(reply) {
        Err(error) => (Err(error), after),
        Ok(false) => (Ok(asset_not_found()), after),
        Ok(true) => {
            let (bytes, last) = ask(after, "read_asset"@, seq![Val::Text(file)]);
            (asset_reply(kind, bytes), last)
        },
    }
}

pub open spec fn served_asset(asset: Str, root: Str, w: World) -> (Result<Val, Str>, World) {
    if root.len() == 0 {
        (Err("web_static root directory must not be empty"@), w)
    } else {
        match asset_path(asset, w.separator) {
            Err(error) => (Err(error), w),
            Ok(path) => match content_type(path, w.separator) {
                None => (Ok(asset_not_found()), w),
                Some(kind) => {
                    let (place, resolved) = confined(w, root, "web_static"@);
                    match place {
                        Err(error) => (Err(error), resolved),
                        Ok(directory) => {
                            let (reply, after) = ask(
                                resolved,
                                "find_asset"@,
                                seq![Val::Text(directory), Val::Text(path)],
                            );
                            match asset_place(reply, w.separator) {
                                Err(error) => (Err(error), after),
                                Ok(None) => (Ok(asset_not_found()), after),
                                Ok(Some(file)) => delivered_asset(kind, file, after),
                            }
                        },
                    }
                },
            },
        }
    }
}

fn deliver_asset(kind: &str, file: &str, context: &mut ExecutionContext) -> (r: Result<
    ZapValue,
    String,
>)
    ensures
        (told(r), final(context)@) == delivered_asset(kind@, file@, old(context)@),
{
    let reply = context.ask("asset_metadata", one_text(file));
    match read_asset_readable(reply) {
        Err(error) => Err(error),
        Ok(false) => Ok(web_static_not_found()),
        Ok(true) => {
            let bytes = context.ask("read_asset", one_text(file));
            read_asset(kind, bytes)
        },
    }
}

fn serve_asset(asset: &str, root: &str, context: &mut ExecutionContext) -> (r: Result<
    ZapValue,
    String,
>)
    ensures
        (told(r), final(context)@) == served_asset(asset@, root@, old(context)@),
{
    let sep = context.separator;
    if is_blank_text(root) {
        return fail("web_static root directory must not be empty");
    }
    let path = match read_asset_path(asset, sep) {
        Ok(path) => path,
        Err(error) => {
            return Err(error);
        },
    };
    let kind = match web_static_content_type(path.as_str(), sep) {
        Some(kind) => kind,
        None => {
            return Ok(web_static_not_found());
        },
    };
    match confined_path(root, "web_static", context) {
        Err(error) => Err(error),
        Ok(directory) => {
            let reply = context.ask("find_asset", two_texts(directory.as_str(), path.as_str()));
            match read_asset_place(reply, sep) {
                Err(error) => Err(error),
                Ok(None) => Ok(web_static_not_found()),
                Ok(Some(file)) => deliver_asset(kind, file.as_str(), context),
            }
        },
    }
}

pub fn web_static(args: &Vec<ZapValue>, context: &mut ExecutionContext) -> (r: Result<
    ZapValue,
    String,
>)
    ensures
        (told(r), final(context)@) == static_asset(views(args@), old(context)@),
{
    if args.len() != 2 {
        return Err(
            join3(
                "web_static expects asset path and root directory, got ",
                length_text(args.len()).as_str(),
                " arguments",
            ),
        );
    }
    match (&args[0], &args[1]) {
        (ZapValue::Text(asset), ZapValue::Text(root)) => serve_asset(
            asset.as_str(),
            root.as_str(),
            context,
        ),
        _ => fail("web_static expects text asset path and root directory"),
    }
}

/// Whether a response says that nothing was found.
pub open spec fn is_not_found(response: Val) -> bool {
    match response {
        Val::Dict(rows) => get(rows, "status"@) == Some(Val::Number(404)),
        _ => false,
    }
}

/// The response for a static asset, or for a fallback asset where the first is not there.
pub open spec fn static_spa(args: Seq<Val>, w: World) -> (Result<Val, Str>, World) {
    if args.len() != 3 {
        (Err("web_static_spa expects asset path, root directory, and fallback path"@), w)
    } else {
        match args[0] {
            Val::Text(asset) => match args[1] {
                Val::Text(root) => match args[2] {
                    Val::Text(fallback) => {
                        let (r, after) = served_asset(asset, root, w);
                        match r {
                            Err(error) => (Err(error), after),
                            Ok(response) => if is_not_found(response) {
                                served_asset(fallback, root, after)
                            } else {
                                (Ok(response), after)
                            },
                        }
                    },
                    _ => (Err("web_static_spa expects a text fallback path"@), w),
                },
                _ => (Err("web_static_spa expects a text root directory"@), w),
            },
            _ => (Err("web_static_spa expects a text asset path"@), w),
        }
    }
}

fn says_not_found(response: &ZapValue) -> (r: bool)
    ensures
        r == is_not_found(response@),
{
    broadcast use lemma_value_view;

    match response {
        ZapValue::Dict(table) => match table.find("status") {
            Some(ZapValue::Number(n)) => *n == 404,
            _ => false,
        },
        _ => false,
    }
}

pub fn web_static_spa(args: &Vec<ZapValue>, context: &mut ExecutionContext) -> (r: Result<
    ZapValue,
    String,
>)
    ensures
        (told(r), final(context)@) == static_spa(views(args@), old(context)@),
{
    if args.len() != 3 {
        return fail("web_static_spa expects asset path, root directory, and fallback path");
    }
    let asset = match &args[0] {
        ZapValue::Text(asset) => asset,
        _ => {
            return fail("web_static_spa expects a text asset path");
        },
    };
    let root = match &args[1] {
        ZapValue::Text(root) => root,
        _ => {
            return fail("web_static_spa expects a text root directory");
        },
    };
    let fallback = match &args[2] {
        ZapValue::Text(fallback) => fallback,
        _ => {
            return fail("web_static_spa expects a text fallback path");
        },
    };
    match serve_asset(asset.as_str(), root.as_str(), context) {
        Err(error) => Err(error),
        Ok(response) => if says_not_found(&response) {
            serve_asset(fallback.as_str(), root.as_str(), context)
        } else {
            Ok(response)
        },
    }
}

} // verus!
