//! Builtin functions that reach the host: files, environment, processes and the network.

use crate::ast::views;
use crate::builtins::{bounded_text_list, bounded_texts};
use crate::layout::{lines_of, source_lines};
use crate::outside::text_from_bytes;
use crate::paths::{file_name, lies_within, path_file_name, path_lies_within, push_path, pushed};
use crate::records::{dict, text_value, with};
use crate::table::{put, Table};
use crate::text::{byte_len, decimal, join2, join3, join4, length_text, same, size, Str};
use crate::value::{fail, lemma_value_view, told, told_opt, told_unit, Val, ZapValue};
use crate::world::{ask, ExecutionContext, World};
use vstd::prelude::*;
use vstd::utf8::{decode_utf8, valid_utf8};

verus! {

pub const MAX_FILE_BYTES: usize = 8_388_608;

pub const MAX_SLEEP_MILLISECONDS: i64 = 60_000;

pub const MAX_PROCESS_OUTPUT_BYTES: usize = 1_048_576;

pub const MAX_HTTP_RESPONSE_BYTES: usize = 8_388_608;

// ---------------------------------------------------------------------------
// Capabilities
// ---------------------------------------------------------------------------

pub open spec fn capability(name: Str, restricted: bool) -> Result<(), Str> {
    if restricted {
        Err(name
            + " is disabled in untrusted mode; grant the capability in a trusted host policy"@)
    } else {
        Ok(())
    }
}

pub fn require_capability_for_mode(name: &str, restricted: bool) -> (r: Result<(), String>)
    ensures
        told_unit(r) == capability(name@, restricted),
{
    if restricted {
        return Err(
            join2(
                name,
                " is disabled in untrusted mode; grant the capability in a trusted host policy",
            ),
        );
    }
    Ok(())
}

/// Whether a context grants a capability.
pub fn require_capability(name: &str, context: &ExecutionContext) -> (r: Result<(), String>)
    ensures
        told_unit(r) == capability(name@, context@.untrusted),
{
    require_capability_for_mode(name, context.untrusted)
}

// ---------------------------------------------------------------------------
// Asking the host
// ---------------------------------------------------------------------------

pub open spec fn invalid_reply(operation: Str) -> Str {
    operation + " failed: invalid host reply"@
}

pub open spec fn text_reply(reply: Result<Val, Str>, operation: Str) -> Result<Str, Str> {
    match reply {
        Ok(Val::Text(s)) => Ok(s),
        Ok(_) => Err(invalid_reply(operation)),
        Err(error) => Err(error),
    }
}

pub fn read_text(reply: Result<ZapValue, String>, operation: &str) -> (r: Result<String, String>)
    ensures
        told(r) == text_reply(told(reply), operation@),
{
    match reply {
        Ok(ZapValue::Text(s)) => Ok(s),
        Ok(_) => Err(join2(operation, " failed: invalid host reply")),
        Err(error) => Err(error),
    }
}

/// A reply of which only success counts.
pub open spec fn done_reply(reply: Result<Val, Str>) -> Result<Val, Str> {
    match reply {
        Ok(_) => Ok(Val::Nil),
        Err(error) => Err(error),
    }
}

fn read_done(reply: Result<ZapValue, String>) -> (r: Result<ZapValue, String>)
    ensures
        told(r) == done_reply(told(reply)),
{
    match reply {
        Ok(_) => Ok(ZapValue::Nil),
        Err(error) => Err(error),
    }
}

pub fn one_text(a: &str) -> (r: Vec<ZapValue>)
    ensures
        views(r@) == seq![Val::Text(a@)],
{
    let mut v: Vec<ZapValue> = Vec::new();
    v.push(text_value(a));
    assert(views(v@) =~= seq![Val::Text(a@)]);
    v
}

pub fn two_texts(a: &str, b: &str) -> (r: Vec<ZapValue>)
    ensures
        views(r@) == seq![Val::Text(a@), Val::Text(b@)],
{
    let mut v: Vec<ZapValue> = Vec::new();
    v.push(text_value(a));
    v.push(text_value(b));
    assert(views(v@) =~= seq![Val::Text(a@), Val::Text(b@)]);
    v
}

pub fn three_texts(a: &str, b: &str, c: &str) -> (r: Vec<ZapValue>)
    ensures
        views(r@) == seq![Val::Text(a@), Val::Text(b@), Val::Text(c@)],
{
    let mut v: Vec<ZapValue> = Vec::new();
    v.push(text_value(a));
    v.push(text_value(b));
    v.push(text_value(c));
    assert(views(v@) =~= seq![Val::Text(a@), Val::Text(b@), Val::Text(c@)]);
    v
}

pub fn no_arguments() -> (r: Vec<ZapValue>)
    ensures
        views(r@) == Seq::<Val>::empty(),
{
    let v: Vec<ZapValue> = Vec::new();
    assert(views(v@) =~= Seq::<Val>::empty());
    v
}

// ---------------------------------------------------------------------------
// Files
// ---------------------------------------------------------------------------

/// The root of a workspace, from what the host found: where the base leads, and whether that is
/// a directory.
pub open spec fn workspace_reply(reply: Result<Val, Str>) -> Result<Str, Str> {
    match reply {
        Err(error) => Err("workspace root is not accessible: "@ + error),
        Ok(Val::List(parts)) => if parts.len() == 2 {
            match (parts[0], parts[1]) {
                (Val::Text(root), Val::Bool(directory)) => if directory {
                    Ok(root)
                } else {
                    Err("workspace root must be a directory"@)
                },
                _ => Err(invalid_reply("workspace"@)),
            }
        } else {
            Err(invalid_reply("workspace"@))
        },
        Ok(_) => Err(invalid_reply("workspace"@)),
    }
}

/// Confines a context to a directory, unless it is confined already. The host resolves the
/// directory.
#[verifier::opaque]
pub open spec fn entered_workspace(w: World, base: Str) -> (Result<(), Str>, World) {
    if w.workspace is Some {
        (Ok(()), w)
    } else {
        let (reply, after) = ask(w, "resolve_workspace"@, seq![Val::Text(base)]);
        match workspace_reply(reply) {
            Err(error) => (Err(error), after),
            Ok(root) => (Ok(()), World { workspace: Some(root), ..after }),
        }
    }
}

fn read_workspace(reply: Result<ZapValue, String>) -> (r: Result<String, String>)
    ensures
        told(r) == workspace_reply(told(reply)),
{
    broadcast use lemma_value_view;

    match reply {
        Err(error) => Err(join2("workspace root is not accessible: ", error.as_str())),
        Ok(ZapValue::List(parts)) => {
            if parts.len() != 2 {
                return Err(join2("workspace", " failed: invalid host reply"));
            }
            match (&parts[0], &parts[1]) {
                (ZapValue::Text(root), ZapValue::Bool(directory)) => if *directory {
                    Ok(root.clone())
                } else {
                    fail("workspace root must be a directory")
                },
                _ => Err(join2("workspace", " failed: invalid host reply")),
            }
        },
        Ok(_) => Err(join2("workspace", " failed: invalid host reply")),
    }
}

/// Confines a context to a directory, unless it is confined already.
pub fn enter_workspace(context: &mut ExecutionContext, base: &str) -> (r: Result<(), String>)
    ensures
        (told_unit(r), final(context)@) == entered_workspace(old(context)@, base@),
{
    reveal(entered_workspace);
    if context.workspace.is_some() {
        return Ok(());
    }
    let reply = context.ask("resolve_workspace", one_text(base));
    match read_workspace(reply) {
        Err(error) => Err(error),
        Ok(root) => {
            let ghost after = context@;
            context.workspace = Some(root);
            assert(context@ =~= (World { workspace: Some(root@), ..after }));
            Ok(())
        },
    }
}

/// A path as an operation may use it. In a workspace the host resolves the path, and a path that
/// leads out of the workspace is refused.
pub open spec fn confined(w: World, path: Str, operation: Str) -> (Result<Str, Str>, World) {
    match w.workspace {
        None => (Ok(path), w),
        Some(root) => {
            let (reply, after) = ask(
                w,
                "resolve_path"@,
                seq![Val::Text(pushed(root, path, w.separator)), Val::Text(operation)],
            );
            match text_reply(reply, operation) {
                Err(error) => (Err(error), after),
                Ok(resolved) => if lies_within(resolved, root, w.separator) {
                    (Ok(resolved), after)
                } else {
                    (Err(operation + " failed: path escapes the workspace"@), after)
                },
            }
        },
    }
}

pub fn confined_path(path: &str, operation: &str, context: &mut ExecutionContext) -> (r: Result<
    String,
    String,
>)
    ensures
        (told(r), final(context)@) == confined(old(context)@, path@, operation@),
{
    let sep = context.separator;
    let root = match &context.workspace {
        None => {
            return Ok(path.to_owned());
        },
        Some(root) => root.clone(),
    };
    let candidate = push_path(root.as_str(), path, sep);
    let reply = context.ask("resolve_path", two_texts(candidate.as_str(), operation));
    match read_text(reply, operation) {
        Err(error) => Err(error),
        Ok(resolved) => if path_lies_within(resolved.as_str(), root.as_str(), sep) {
            Ok(resolved)
        } else {
            Err(join2(operation, " failed: path escapes the workspace"))
        },
    }
}

/// The metadata of a file, from what the host found: whether it is a link, a file, a directory;
/// its size; whether it is read only.
pub open spec fn metadata_record(reply: Result<Val, Str>) -> Result<Val, Str> {
    match reply {
        Err(error) => Err("file_metadata failed: "@ + error),
        Ok(Val::List(parts)) => if parts.len() == 5 {
            match (parts[0], parts[1], parts[2], parts[3], parts[4]) {
                (
                    Val::Bool(link),
                    Val::Bool(file),
                    Val::Bool(directory),
                    Val::Number(bytes),
                    Val::Bool(readonly),
                ) => {
                    let kind = if link {
                        "symlink"@
                    } else if file {
                        "file"@
                    } else if directory {
                        "directory"@
                    } else {
                        "other"@
                    };
                    let t = put(Seq::empty(), "kind"@, Val::Text(kind));
                    let t = put(t, "size"@, Val::Number(bytes));
                    let t = put(t, "readonly"@, Val::Bool(readonly));
                    Ok(Val::Dict(t))
                },
                _ => Err(invalid_reply("file_metadata"@)),
            }
        } else {
            Err(invalid_reply("file_metadata"@))
        },
        Ok(_) => Err(invalid_reply("file_metadata"@)),
    }
}

pub open spec fn file_metadata_of(path: Str, w: World) -> (Result<Val, Str>, World) {
    let (place, resolved) = confined(w, path, "file_metadata"@);
    match place {
        Err(error) => (Err(error), resolved),
        Ok(target) => {
            let (reply, after) = ask(resolved, "file_metadata"@, seq![Val::Text(target)]);
            (metadata_record(reply), after)
        },
    }
}

fn read_metadata(reply: Result<ZapValue, String>) -> (r: Result<ZapValue, String>)
    ensures
        told(r) == metadata_record(told(reply)),
{
    broadcast use lemma_value_view;

    match reply {
        Err(error) => Err(join2("file_metadata failed: ", error.as_str())),
        Ok(ZapValue::List(parts)) => {
            if parts.len() != 5 {
                return Err(join2("file_metadata", " failed: invalid host reply"));
            }
            match (&parts[0], &parts[1], &parts[2], &parts[3], &parts[4]) {
                (
                    ZapValue::Bool(link),
                    ZapValue::Bool(file),
                    ZapValue::Bool(directory),
                    ZapValue::Number(bytes),
                    ZapValue::Bool(readonly),
                ) => {
                    let kind = if *link {
                        "symlink"
                    } else if *file {
                        "file"
                    } else if *directory {
                        "directory"
                    } else {
                        "other"
                    };
                    let t = with(Table::new(), "kind", text_value(kind));
                    let t = with(t, "size", ZapValue::Number(*bytes));
                    let t = with(t, "readonly", ZapValue::Bool(*readonly));
                    Ok(dict(t))
                },
                _ => Err(join2("file_metadata", " failed: invalid host reply")),
            }
        },
        Ok(_) => Err(join2("file_metadata", " failed: invalid host reply")),
    }
}

/// The kind, size and access of a file.
pub fn file_metadata(path: &str, context: &mut ExecutionContext) -> (r: Result<ZapValue, String>)
    ensures
        (told(r), final(context)@) == file_metadata_of(path@, old(context)@),
{
    match confined_path(path, "file_metadata", context) {
        Err(error) => Err(error),
        Ok(target) => {
            let reply = context.ask("file_metadata", one_text(target.as_str()));
            read_metadata(reply)
        },
    }
}

pub open spec fn atomic_write_of(path: Str, content: Str, w: World) -> (Result<Val, Str>, World) {
    let (place, resolved) = confined(w, path, "atomic_write"@);
    match place {
        Err(error) => (Err(error), resolved),
        Ok(target) => if size(content) > MAX_FILE_BYTES {
            (
                Err("atomic_write content exceeds the "@ + decimal(MAX_FILE_BYTES as int)
                    + " byte limit"@),
                resolved,
            )
        } else if file_name(target, w.separator) is None {
            (Err("atomic_write expects a valid file path"@), resolved)
        } else {
            let (reply, after) = ask(
                resolved,
                "atomic_write"@,
                seq![Val::Text(target), Val::Text(content)],
            );
            (done_reply(reply), after)
        },
    }
}

/// Writes a file so that its old or its new content is there, never a part.
pub fn atomic_write(path: &str, content: &str, context: &mut ExecutionContext) -> (r: Result<
    ZapValue,
    String,
>)
    ensures
        (told(r), final(context)@) == atomic_write_of(path@, content@, old(context)@),
{
    match confined_path(path, "atomic_write", context) {
        Err(error) => Err(error),
        Ok(target) => {
            if byte_len(content) > MAX_FILE_BYTES {
                return Err(
                    join3(
                        "atomic_write content exceeds the ",
                        length_text(MAX_FILE_BYTES).as_str(),
                        " byte limit",
                    ),
                );
            }
            if path_file_name(target.as_str(), context.separator).is_none() {
                return fail("atomic_write expects a valid file path");
            }
            let reply = context.ask("atomic_write", two_texts(target.as_str(), content));
            read_done(reply)
        },
    }
}

/// The text of a file, from its bytes: within the limit on files, and valid UTF-8.
pub open spec fn limited_text(bytes: Seq<u8>, operation: Str) -> Result<Str, Str> {
    if bytes.len() > MAX_FILE_BYTES {
        Err(operation + " failed: file exceeds the "@ + decimal(MAX_FILE_BYTES as int)
            + " byte limit"@)
    } else if valid_utf8(bytes) {
        Ok(decode_utf8(bytes))
    } else {
        Err(operation + " failed: file is not UTF-8"@)
    }
}

pub fn read_limited_text(bytes: Vec<u8>, operation: &str) -> (r: Result<String, String>)
    ensures
        told(r) == limited_text(bytes@, operation@),
{
    if bytes.len() > MAX_FILE_BYTES {
        return Err(
            join4(
                operation,
                " failed: file exceeds the ",
                length_text(MAX_FILE_BYTES).as_str(),
                " byte limit",
            ),
        );
    }
    match text_from_bytes(bytes) {
        Some(text) => Ok(text),
        None => Err(join2(operation, " failed: file is not UTF-8")),
    }
}

/// Reads a text file on behalf of an operation.
pub open spec fn file_text(path: Str, operation: Str, w: World) -> (Result<Str, Str>, World) {
    let (place, resolved) = confined(w, path, operation);
    match place {
        Err(error) => (Err(error), resolved),
        Ok(target) => {
            let (reply, after) = ask(
                resolved,
                "read_text"@,
                seq![Val::Text(target), Val::Text(operation)],
            );
            (text_reply(reply, operation), after)
        },
    }
}

pub fn read_file(path: &str, operation: &str, context: &mut ExecutionContext) -> (r: Result<
    String,
    String,
>)
    ensures
        (told(r), final(context)@) == file_text(path@, operation@, old(context)@),
{
    match confined_path(path, operation, context) {
        Err(error) => Err(error),
        Ok(target) => {
            let reply = context.ask("read_text", two_texts(target.as_str(), operation));
            read_text(reply, operation)
        },
    }
}

/// Writes a text file on behalf of an operation.
pub open spec fn file_written(path: Str, content: Str, operation: Str, w: World) -> (
    Result<Val, Str>,
    World,
) {
    let (place, resolved) = confined(w, path, operation);
    match place {
        Err(error) => (Err(error), resolved),
        Ok(target) => if size(content) > MAX_FILE_BYTES {
            (
                Err(operation + " failed: content exceeds the "@ + decimal(MAX_FILE_BYTES as int)
                    + " byte limit"@),
                resolved,
            )
        } else {
            let (reply, after) = ask(
                resolved,
                "write_text"@,
                seq![Val::Text(target), Val::Text(content), Val::Text(operation)],
            );
            (done_reply(reply), after)
        },
    }
}

fn write_file(path: &str, content: &str, operation: &str, context: &mut ExecutionContext) -> (r:
    Result<ZapValue, String>)
    ensures
        (told(r), final(context)@) == file_written(path@, content@, operation@, old(context)@),
{
    match confined_path(path, operation, context) {
        Err(error) => Err(error),
        Ok(target) => {
            if byte_len(content) > MAX_FILE_BYTES {
                return Err(
                    join4(
                        operation,
                        " failed: content exceeds the ",
                        length_text(MAX_FILE_BYTES).as_str(),
                        " byte limit",
                    ),
                );
            }
            let reply = context.ask("write_text", three_texts(target.as_str(), content, operation));
            read_done(reply)
        },
    }
}

/// The lines from number `i` on, put behind `done`, which has `length` bytes.
pub open spec fn lines_joined(lines: Seq<Val>, i: nat, done: Str, length: nat) -> Result<Str, Str>
    decreases lines.len() - i,
{
    if i >= lines.len() {
        Ok(done)
    } else {
        match lines[i as int] {
            Val::Text(line) => {
                let next = length + (if i > 0 {
                    1nat
                } else {
                    0nat
                }) + size(line);
                if next > MAX_FILE_BYTES {
                    Err("write_lines failed: content exceeds the "@ + decimal(
                        MAX_FILE_BYTES as int,
                    ) + " byte limit"@)
                } else {
                    lines_joined(
                        lines,
                        i + 1,
                        if i > 0 {
                            done.push('\n') + line
                        } else {
                            done + line
                        },
                        next,
                    )
                }
            },
            _ => Err("write_lines expects a list of text"@),
        }
    }
}

fn join_lines(lines: &Vec<ZapValue>) -> (r: Result<String, String>)
    ensures
        told(r) == lines_joined(views(lines@), 0, Seq::empty(), 0),
{
    let mut out: String = String::new();
    let mut length: usize = 0;
    let mut i: usize = 0;
    assert(out@ =~= Seq::<char>::empty());
    while i < lines.len()
        invariant
            i <= lines@.len(),
            length <= MAX_FILE_BYTES,
            lines_joined(views(lines@), 0, Seq::empty(), 0) == lines_joined(
                views(lines@),
                i as nat,
                out@,
                length as nat,
            ),
        decreases lines.len() - i,
    {
        match &lines[i] {
            ZapValue::Text(line) => {
                let next: u128 = length as u128 + (if i > 0 {
                    1u128
                } else {
                    0u128
                }) + byte_len(line.as_str()) as u128;
                if next > MAX_FILE_BYTES as u128 {
                    return Err(
                        join3(
                            "write_lines failed: content exceeds the ",
                            length_text(MAX_FILE_BYTES).as_str(),
                            " byte limit",
                        ),
                    );
                }
                if i > 0 {
                    out.push('\n');
                }
                out.append(line.as_str());
                length = next as usize;
            },
            _ => {
                return fail("write_lines expects a list of text");
            },
        }
        i += 1;
    }
    Ok(out)
}

/// The complaint about the number of arguments of a host builtin.
pub open spec fn host_arity(name: Str, expected: Str, got: int) -> Str {
    name + " expects "@ + expected + ", got "@ + decimal(got)
}

fn host_arity_failure(name: &str, expected: &str, got: usize) -> (r: String)
    ensures
        r@ == host_arity(name@, expected@, got as int),
{
    crate::text::join5(name, " expects ", expected, ", got ", length_text(got).as_str())
}

pub open spec fn is_file_builtin(name: Str) -> bool {
    name == "read_text"@ || name == "read_lines"@ || name == "write_text"@ || name
        == "write_lines"@ || name == "file_metadata"@ || name == "atomic_write"@ || name
        == "web_static"@ || name == "web_static_spa"@
}

pub open spec fn metadata_call(args: Seq<Val>, w: World) -> (Result<Val, Str>, World) {
    if args.len() != 1 {
        (Err(host_arity("file_metadata"@, "1 argument"@, args.len() as int)), w)
    } else {
        match args[0] {
            Val::Text(path) => file_metadata_of(path, w),
            _ => (Err("file_metadata expects a text path"@), w),
        }
    }
}

pub open spec fn atomic_write_call(args: Seq<Val>, w: World) -> (Result<Val, Str>, World) {
    if args.len() != 2 {
        (Err(host_arity("atomic_write"@, "2 arguments"@, args.len() as int)), w)
    } else {
        match (args[0], args[1]) {
            (Val::Text(path), Val::Text(content)) => atomic_write_of(path, content, w),
            _ => (Err("atomic_write expects text path and content"@), w),
        }
    }
}

pub open spec fn read_text_call(args: Seq<Val>, w: World) -> (Result<Val, Str>, World) {
    if args.len() != 1 {
        (Err(host_arity("read_text"@, "1 argument"@, args.len() as int)), w)
    } else {
        match args[0] {
            Val::Text(path) => {
                let (r, after) = file_text(path, "read_text"@, w);
                match r {
                    Ok(text) => (Ok(Val::Text(text)), after),
                    Err(error) => (Err(error), after),
                }
            },
            _ => (Err("read_text expects a text path"@), w),
        }
    }
}

pub open spec fn read_lines_call(args: Seq<Val>, w: World) -> (Result<Val, Str>, World) {
    if args.len() != 1 {
        (Err(host_arity("read_lines"@, "1 argument"@, args.len() as int)), w)
    } else {
        match args[0] {
            Val::Text(path) => {
                let (r, after) = file_text(path, "read_lines"@, w);
                match r {
                    Ok(text) => (bounded_texts(lines_of(text), "read_lines"@), after),
                    Err(error) => (Err(error), after),
                }
            },
            _ => (Err("read_lines expects a text path"@), w),
        }
    }
}

pub open spec fn write_text_call(args: Seq<Val>, w: World) -> (Result<Val, Str>, World) {
    if args.len() != 2 {
        (Err(host_arity("write_text"@, "2 arguments"@, args.len() as int)), w)
    } else {
        match (args[0], args[1]) {
            (Val::Text(path), Val::Text(content)) => file_written(
                path,
                content,
                "write_text"@,
                w,
            ),
            _ => (Err("write_text expects text path and content"@), w),
        }
    }
}

pub open spec fn write_lines_call(args: Seq<Val>, w: World) -> (Result<Val, Str>, World) {
    if args.len() != 2 {
        (Err(host_arity("write_lines"@, "2 arguments"@, args.len() as int)), w)
    } else {
        match (args[0], args[1]) {
            (Val::Text(path), Val::List(lines)) => match lines_joined(lines, 0, Seq::empty(), 0) {
                Err(error) => (Err(error), w),
                Ok(content) => file_written(path, content, "write_lines"@, w),
            },
            _ => (Err("write_lines expects a text path and list"@), w),
        }
    }
}

fn do_metadata(args: &Vec<ZapValue>, context: &mut ExecutionContext) -> (r: Result<
    ZapValue,
    String,
>)
    ensures
        (told(r), final(context)@) == metadata_call(views(args@), old(context)@),
{
    if args.len() != 1 {
        return Err(host_arity_failure("file_metadata", "1 argument", args.len()));
    }
    match &args[0] {
        ZapValue::Text(path) => file_metadata(path.as_str(), context),
        _ => fail("file_metadata expects a text path"),
    }
}

fn do_atomic_write(args: &Vec<ZapValue>, context: &mut ExecutionContext) -> (r: Result<
    ZapValue,
    String,
>)
    ensures
        (told(r), final(context)@) == atomic_write_call(views(args@), old(context)@),
{
    if args.len() != 2 {
        return Err(host_arity_failure("atomic_write", "2 arguments", args.len()));
    }
    match (&args[0], &args[1]) {
        (ZapValue::Text(path), ZapValue::Text(content)) => atomic_write(
            path.as_str(),
            content.as_str(),
            context,
        ),
        _ => fail("atomic_write expects text path and content"),
    }
}

fn do_read_text(args: &Vec<ZapValue>, context: &mut ExecutionContext) -> (r: Result<
    ZapValue,
    String,
>)
    ensures
        (told(r), final(context)@) == read_text_call(views(args@), old(context)@),
{
    if args.len() != 1 {
        return Err(host_arity_failure("read_text", "1 argument", args.len()));
    }
    match &args[0] {
        ZapValue::Text(path) => match read_file(path.as_str(), "read_text", context) {
            Ok(text) => Ok(ZapValue::Text(text)),
            Err(error) => Err(error),
        },
        _ => fail("read_text expects a text path"),
    }
}

fn do_read_lines(args: &Vec<ZapValue>, context: &mut ExecutionContext) -> (r: Result<
    ZapValue,
    String,
>)
    ensures
        (told(r), final(context)@) == read_lines_call(views(args@), old(context)@),
{
    if args.len() != 1 {
        return Err(host_arity_failure("read_lines", "1 argument", args.len()));
    }
    match &args[0] {
        ZapValue::Text(path) => match read_file(path.as_str(), "read_lines", context) {
            Ok(text) => bounded_text_list(&source_lines(text.as_str()), "read_lines"),
            Err(error) => Err(error),
        },
        _ => fail("read_lines expects a text path"),
    }
}

fn do_write_text(args: &Vec<ZapValue>, context: &mut ExecutionContext) -> (r: Result<
    ZapValue,
    String,
>)
    ensures
        (told(r), final(context)@) == write_text_call(views(args@), old(context)@),
{
    if args.len() != 2 {
        return Err(host_arity_failure("write_text", "2 arguments", args.len()));
    }
    match (&args[0], &args[1]) {
        (ZapValue::Text(path), ZapValue::Text(content)) => write_file(
            path.as_str(),
            content.as_str(),
            "write_text",
            context,
        ),
        _ => fail("write_text expects text path and content"),
    }
}

fn do_write_lines(args: &Vec<ZapValue>, context: &mut ExecutionContext) -> (r: Result<
    ZapValue,
    String,
>)
    ensures
        (told(r), final(context)@) == write_lines_call(views(args@), old(context)@),
{
    broadcast use lemma_value_view;

    if args.len() != 2 {
        return Err(host_arity_failure("write_lines", "2 arguments", args.len()));
    }
    match (&args[0], &args[1]) {
        (ZapValue::Text(path), ZapValue::List(lines)) => match join_lines(lines) {
            Err(error) => Err(error),
            Ok(content) => write_file(path.as_str(), content.as_str(), "write_lines", context),
        },
        _ => fail("write_lines expects a text path and list"),
    }
}

/// The outcome of a builtin that may not be known under its name.
pub open spec fn found(outcome: (Result<Val, Str>, World)) -> (Result<Option<Val>, Str>, World) {
    match outcome.0 {
        Ok(value) => (Ok(Some(value)), outcome.1),
        Err(error) => (Err(error), outcome.1),
    }
}

pub fn some_result(r: Result<ZapValue, String>) -> (s: Result<Option<ZapValue>, String>)
    ensures
        told_opt(s) == (match told(r) {
            Ok(value) => Ok(Some(value)),
            Err(error) => Err(error),
        }),
{
    match r {
        Ok(value) => Ok(Some(value)),
        Err(error) => Err(error),
    }
}

/// The builtins on files.
pub open spec fn io_builtin(name: Str, args: Seq<Val>, w: World) -> (Result<Option<Val>, Str>, World) {
    match (if is_file_builtin(name) {
        capability("filesystem access"@, w.untrusted)
    } else {
        Ok(())
    }) {
        Err(error) => (Err(error), w),
        Ok(_) => if name == "web_static"@ {
            found(crate::assets::static_asset(args, w))
        } else if name == "web_static_spa"@ {
            found(crate::assets::static_spa(args, w))
        } else if name == "file_metadata"@ {
            found(metadata_call(args, w))
        } else if name == "atomic_write"@ {
            found(atomic_write_call(args, w))
        } else if name == "read_text"@ {
            found(read_text_call(args, w))
        } else if name == "write_text"@ {
            found(write_text_call(args, w))
        } else if name == "read_lines"@ {
            found(read_lines_call(args, w))
        } else if name == "write_lines"@ {
            found(write_lines_call(args, w))
        } else {
            (Ok(None), w)
        },
    }
}

pub fn direct_io_builtin(name: &str, args: &Vec<ZapValue>, context: &mut ExecutionContext) -> (r:
    Result<Option<ZapValue>, String>)
    ensures
        (told_opt(r), final(context)@) == io_builtin(name@, views(args@), old(context)@),
{
    if same(name, "read_text") || same(name, "read_lines") || same(name, "write_text") || same(
        name,
        "write_lines",
    ) || same(name, "file_metadata") || same(name, "atomic_write") || same(name, "web_static")
        || same(name, "web_static_spa") {
        match require_capability("filesystem access", context) {
            Err(error) => {
                return Err(error);
            },
            Ok(_) => {},
        }
    }
    if same(name, "web_static") {
        some_result(crate::assets::web_static(args, context))
    } else if same(name, "web_static_spa") {
        some_result(crate::assets::web_static_spa(args, context))
    } else if same(name, "file_metadata") {
        some_result(do_metadata(args, context))
    } else if same(name, "atomic_write") {
        some_result(do_atomic_write(args, context))
    } else if same(name, "read_text") {
        some_result(do_read_text(args, context))
    } else if same(name, "write_text") {
        some_result(do_write_text(args, context))
    } else if same(name, "read_lines") {
        some_result(do_read_lines(args, context))
    } else if same(name, "write_lines") {
        some_result(do_write_lines(args, context))
    } else {
        Ok(None)
    }
}

} // verus!
