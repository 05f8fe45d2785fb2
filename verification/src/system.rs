//! Builtin functions on the environment, processes and the network.

use crate::ast::views;
use crate::builtins::list;
use crate::host::{capability, confined, confined_path, direct_io_builtin, found, host_arity,
    invalid_reply, io_builtin, no_arguments, one_text, require_capability, some_result,
    MAX_HTTP_RESPONSE_BYTES, MAX_PROCESS_OUTPUT_BYTES, MAX_SLEEP_MILLISECONDS};
use crate::network::{destination, resolved_network_destination_for_mode};
use crate::outside::{base64_bytes, decode_base64, text_from_bytes};
use crate::paths::{file_name, parent_path, path_file_name, path_parent, push_path, pushed};
use crate::records::{dict, text_value, with};
use crate::table::{get, put, Table};
use crate::text::{byte_len, decimal, is_blank_text, join2, join3, join5, length_text, number_text,
    same, size, text_holds, Str};
use crate::url::{parse_url, percent_decode, percent_decoded, percent_encode, percent_encoded,
    url_record};
use crate::value::{copy_values, fail, lemma_value_view, told, told_opt, Val, ZapValue};
use crate::web::{serve_once, http_serve_once};
use crate::webcheck::MAX_HTTP_REQUEST_BYTES;
use crate::world::{ask, ExecutionContext, World};
use vstd::prelude::*;
use vstd::utf8::{decode_utf8, valid_utf8};

verus! {

fn arity_text(name: &str, expected: &str, got: usize) -> (r: String)
    ensures
        r@ == host_arity(name@, expected@, got as int),
{
    join5(name, " expects ", expected, ", got ", length_text(got).as_str())
}

// ---------------------------------------------------------------------------
// Clock, environment and paths
// ---------------------------------------------------------------------------

pub open spec fn clock_seconds(reply: Result<Val, Str>) -> Result<Val, Str> {
    match reply {
        Err(error) => Err(error),
        Ok(Val::List(parts)) => if parts.len() == 2 {
            match parts[0] {
                Val::Number(seconds) => Ok(Val::Number(seconds)),
                _ => Err(invalid_reply("now"@)),
            }
        } else {
            Err(invalid_reply("now"@))
        },
        Ok(_) => Err(invalid_reply("now"@)),
    }
}

pub open spec fn now_call(args: Seq<Val>, w: World) -> (Result<Val, Str>, World) {
    if args.len() != 0 {
        (Err(host_arity("now"@, "0 arguments"@, args.len() as int)), w)
    } else {
        let (reply, after) = ask(w, "clock"@, Seq::empty());
        (clock_seconds(reply), after)
    }
}

fn do_now(args: &Vec<ZapValue>, context: &mut ExecutionContext) -> (r: Result<ZapValue, String>)
    ensures
        (told(r), final(context)@) == now_call(views(args@), old(context)@),
{
    broadcast use lemma_value_view;

    if args.len() != 0 {
        return Err(arity_text("now", "0 arguments", args.len()));
    }
    match context.ask("clock", no_arguments()) {
        Err(error) => Err(error),
        Ok(ZapValue::List(parts)) => {
            if parts.len() != 2 {
                return Err(join2("now", " failed: invalid host reply"));
            }
            match &parts[0] {
                ZapValue::Number(seconds) => Ok(ZapValue::Number(*seconds)),
                _ => Err(join2("now", " failed: invalid host reply")),
            }
        },
        Ok(_) => Err(join2("now", " failed: invalid host reply")),
    }
}

pub open spec fn sleep_call(args: Seq<Val>, w: World) -> (Result<Val, Str>, World) {
    if args.len() != 1 {
        (Err(host_arity("sleep"@, "1 argument"@, args.len() as int)), w)
    } else {
        match args[0] {
            Val::Number(n) => if n < 0 {
                (Err("sleep expects a non-negative number of milliseconds"@), w)
            } else if n > MAX_SLEEP_MILLISECONDS {
                (
                    Err("sleep exceeds the "@ + decimal(MAX_SLEEP_MILLISECONDS as int)
                        + " millisecond limit"@),
                    w,
                )
            } else {
                let (reply, after) = ask(w, "sleep"@, seq![Val::Number(n)]);
                (
                    match reply {
                        Ok(_) => Ok(Val::Nil),
                        Err(error) => Err(error),
                    },
                    after,
                )
            },
            _ => (Err("sleep expects a non-negative number of milliseconds"@), w),
        }
    }
}

fn one_number(n: i64) -> (r: Vec<ZapValue>)
    ensures
        views(r@) == seq![Val::Number(n)],
{
    let mut v: Vec<ZapValue> = Vec::new();
    v.push(ZapValue::Number(n));
    assert(views(v@) =~= seq![Val::Number(n)]);
    v
}

fn do_sleep(args: &Vec<ZapValue>, context: &mut ExecutionContext) -> (r: Result<ZapValue, String>)
    ensures
        (told(r), final(context)@) == sleep_call(views(args@), old(context)@),
{
    if args.len() != 1 {
        return Err(arity_text("sleep", "1 argument", args.len()));
    }
    match &args[0] {
        ZapValue::Number(n) => {
            if *n < 0 {
                return fail("sleep expects a non-negative number of milliseconds");
            }
            if *n > MAX_SLEEP_MILLISECONDS {
                return Err(
                    join3(
                        "sleep exceeds the ",
                        number_text(MAX_SLEEP_MILLISECONDS).as_str(),
                        " millisecond limit",
                    ),
                );
            }
            match context.ask("sleep", one_number(*n)) {
                Ok(_) => Ok(ZapValue::Nil),
                Err(error) => Err(error),
            }
        },
        _ => fail("sleep expects a non-negative number of milliseconds"),
    }
}

/// What the host says of an environment variable: nothing, a text, or something that is no text.
pub open spec fn variable(w: World, key: Str) -> (Result<Val, Str>, World) {
    ask(w, "env"@, seq![Val::Text(key)])
}

/// The text of an environment variable, if it has one.
pub open spec fn variable_text(reply: Val) -> Option<Str> {
    match reply {
        Val::OptionSome(inner) => match *inner {
            Val::Text(s) => Some(s),
            _ => None,
        },
        _ => None,
    }
}

fn text_of_variable(reply: &ZapValue) -> (r: Option<String>)
    ensures
        crate::ast::opt_text(r) == variable_text(reply@),
{
    reveal_with_fuel(ZapValue::model, 2);
    match reply {
        ZapValue::OptionSome(inner) => match &**inner {
            ZapValue::Text(s) => Some(s.clone()),
            _ => None,
        },
        _ => None,
    }
}

/// `env` and `has_env`.
pub open spec fn env_call(name: Str, args: Seq<Val>, w: World) -> (Result<Val, Str>, World) {
    if args.len() != 1 {
        (Err(host_arity(name, "1 argument"@, args.len() as int)), w)
    } else {
        match args[0] {
            Val::Text(key) => {
                let (reply, after) = variable(w, key);
                match reply {
                    Err(error) => (Err(error), after),
                    Ok(value) => (
                        Ok(
                            if name == "env"@ {
                                Val::Text(
                                    match variable_text(value) {
                                        Some(s) => s,
                                        None => Seq::empty(),
                                    },
                                )
                            } else {
                                Val::Bool(value is OptionSome)
                            },
                        ),
                        after,
                    ),
                }
            },
            _ => (Err(name + " expects a text key"@), w),
        }
    }
}

fn do_env(name: &str, args: &Vec<ZapValue>, context: &mut ExecutionContext) -> (r: Result<
    ZapValue,
    String,
>)
    ensures
        (told(r), final(context)@) == env_call(name@, views(args@), old(context)@),
{
    if args.len() != 1 {
        return Err(arity_text(name, "1 argument", args.len()));
    }
    match &args[0] {
        ZapValue::Text(key) => match context.ask("env", one_text(key.as_str())) {
            Err(error) => Err(error),
            Ok(value) => if same(name, "env") {
                match text_of_variable(&value) {
                    Some(s) => Ok(ZapValue::Text(s)),
                    None => {
                        let nothing = String::new();
                        assert(nothing@ =~= Seq::<char>::empty());
                        Ok(ZapValue::Text(nothing))
                    },
                }
            } else {
                Ok(
                    ZapValue::Bool(
                        match &value {
                            ZapValue::OptionSome(_) => true,
                            _ => false,
                        },
                    ),
                )
            },
        },
        _ => Err(join2(name, " expects a text key")),
    }
}

pub open spec fn env_get_call(args: Seq<Val>, w: World) -> (Result<Val, Str>, World) {
    if args.len() != 2 {
        (Err(host_arity("env_get"@, "2 arguments"@, args.len() as int)), w)
    } else {
        match (args[0], args[1]) {
            (Val::Text(key), Val::Text(default)) => {
                let (reply, after) = variable(w, key);
                match reply {
                    Err(error) => (Err(error), after),
                    Ok(value) => (
                        Ok(
                            Val::Text(
                                match variable_text(value) {
                                    Some(s) => s,
                                    None => default,
                                },
                            ),
                        ),
                        after,
                    ),
                }
            },
            _ => (Err("env_get expects two text arguments"@), w),
        }
    }
}

fn do_env_get(args: &Vec<ZapValue>, context: &mut ExecutionContext) -> (r: Result<ZapValue, String>)
    ensures
        (told(r), final(context)@) == env_get_call(views(args@), old(context)@),
{
    if args.len() != 2 {
        return Err(arity_text("env_get", "2 arguments", args.len()));
    }
    match (&args[0], &args[1]) {
        (ZapValue::Text(key), ZapValue::Text(default)) => match context.ask(
            "env",
            one_text(key.as_str()),
        ) {
            Err(error) => Err(error),
            Ok(value) => match text_of_variable(&value) {
                Some(s) => Ok(ZapValue::Text(s)),
                None => Ok(ZapValue::Text(default.clone())),
            },
        },
        _ => fail("env_get expects two text arguments"),
    }
}

/// The first of two environment variables that has a text, else `otherwise`; what is found under
/// the second name gets `suffix` behind it.
pub open spec fn first_variable(
    w: World,
    first: Str,
    second: Str,
    suffix: Str,
    otherwise: Str,
) -> (Result<Str, Str>, World) {
    let (one, w1) = variable(w, first);
    match one {
        Err(error) => (Err(error), w1),
        Ok(value) => match variable_text(value) {
            Some(s) => (Ok(s), w1),
            None => {
                let (two, w2) = variable(w1, second);
                match two {
                    Err(error) => (Err(error), w2),
                    Ok(other) => match variable_text(other) {
                        Some(s) => (Ok(s + suffix), w2),
                        None => (Ok(otherwise), w2),
                    },
                }
            },
        },
    }
}

fn find_variable(
    context: &mut ExecutionContext,
    first: &str,
    second: &str,
    suffix: &str,
    otherwise: &str,
) -> (r: Result<String, String>)
    ensures
        (told(r), final(context)@) == first_variable(
            old(context)@,
            first@,
            second@,
            suffix@,
            otherwise@,
        ),
{
    match context.ask("env", one_text(first)) {
        Err(error) => {
            return Err(error);
        },
        Ok(value) => {
            if let Some(s) = text_of_variable(&value) {
                return Ok(s);
            }
        },
    }
    match context.ask("env", one_text(second)) {
        Err(error) => Err(error),
        Ok(value) => match text_of_variable(&value) {
            Some(s) => Ok(join2(s.as_str(), suffix)),
            None => Ok(otherwise.to_owned()),
        },
    }
}

/// The directory for configuration files on the host's platform.
pub open spec fn config_directory(w: World) -> (Result<Str, Str>, World) {
    let (reply, w1) = ask(w, "platform"@, Seq::empty());
    match reply {
        Err(error) => (Err(error), w1),
        Ok(platform) => if platform == Val::Text("windows"@) {
            first_variable(w1, "APPDATA"@, "LOCALAPPDATA"@, Seq::empty(), "."@)
        } else if platform == Val::Text("macos"@) {
            let (home, w2) = variable(w1, "HOME"@);
            match home {
                Err(error) => (Err(error), w2),
                Ok(value) => match variable_text(value) {
                    Some(s) => (Ok(s + "/Library/Application Support"@), w2),
                    None => (Ok("."@), w2),
                },
            }
        } else {
            first_variable(w1, "XDG_CONFIG_HOME"@, "HOME"@, "/.config"@, "."@)
        },
    }
}

fn configuration_directory(context: &mut ExecutionContext) -> (r: Result<String, String>)
    ensures
        (told(r), final(context)@) == config_directory(old(context)@),
{
    let platform = match context.ask("platform", no_arguments()) {
        Err(error) => {
            return Err(error);
        },
        Ok(platform) => platform,
    };
    let (windows, macos) = match &platform {
        ZapValue::Text(name) => (same(name.as_str(), "windows"), same(name.as_str(), "macos")),
        _ => (false, false),
    };
    if windows {
        let nothing = String::new();
        assert(nothing@ =~= Seq::<char>::empty());
        find_variable(context, "APPDATA", "LOCALAPPDATA", nothing.as_str(), ".")
    } else if macos {
        match context.ask("env", one_text("HOME")) {
            Err(error) => Err(error),
            Ok(value) => match text_of_variable(&value) {
                Some(s) => Ok(join2(s.as_str(), "/Library/Application Support")),
                None => Ok(".".to_owned()),
            },
        }
    } else {
        find_variable(context, "XDG_CONFIG_HOME", "HOME", "/.config", ".")
    }
}

/// Whether a name is a single file name.
pub open spec fn single_name(name: Str) -> bool {
    name.len() > 0 && !name.contains('/') && !name.contains('\\') && name != "."@ && name != ".."@
}

pub open spec fn config_path(name: Str, w: World) -> (Result<Str, Str>, World) {
    if !single_name(name) {
        (Err("config_path expects a single relative file name"@), w)
    } else {
        let (directory, after) = config_directory(w);
        match directory {
            Ok(d) => (Ok(pushed(d, name, w.separator)), after),
            Err(error) => (Err(error), after),
        }
    }
}

/// The path of a configuration file.
pub fn configuration_path(name: &str, context: &mut ExecutionContext) -> (r: Result<String, String>)
    ensures
        (told(r), final(context)@) == config_path(name@, old(context)@),
{
    if is_blank_text(name) || text_holds(name, '/') || text_holds(name, '\\') || same(name, ".")
        || same(name, "..") {
        return fail("config_path expects a single relative file name");
    }
    let sep = context.separator;
    match configuration_directory(context) {
        Ok(directory) => Ok(push_path(directory.as_str(), name, sep)),
        Err(error) => Err(error),
    }
}

pub open spec fn as_text(outcome: (Result<Str, Str>, World)) -> (Result<Val, Str>, World) {
    match outcome.0 {
        Ok(s) => (Ok(Val::Text(s)), outcome.1),
        Err(error) => (Err(error), outcome.1),
    }
}

fn text_result(r: Result<String, String>) -> (s: Result<ZapValue, String>)
    ensures
        told(s) == (match told(r) {
            Ok(text) => Ok(Val::Text(text)),
            Err(error) => Err(error),
        }),
{
    match r {
        Ok(text) => Ok(ZapValue::Text(text)),
        Err(error) => Err(error),
    }
}

pub open spec fn config_dir_call(args: Seq<Val>, w: World) -> (Result<Val, Str>, World) {
    if args.len() != 0 {
        (Err(host_arity("config_dir"@, "0 arguments"@, args.len() as int)), w)
    } else {
        as_text(config_directory(w))
    }
}

pub open spec fn config_path_call(args: Seq<Val>, w: World) -> (Result<Val, Str>, World) {
    if args.len() != 1 {
        (Err(host_arity("config_path"@, "1 argument"@, args.len() as int)), w)
    } else {
        match args[0] {
            Val::Text(name) => as_text(config_path(name, w)),
            _ => (Err("config_path expects a text file name"@), w),
        }
    }
}

fn do_config_dir(args: &Vec<ZapValue>, context: &mut ExecutionContext) -> (r: Result<
    ZapValue,
    String,
>)
    ensures
        (told(r), final(context)@) == config_dir_call(views(args@), old(context)@),
{
    if args.len() != 0 {
        return Err(arity_text("config_dir", "0 arguments", args.len()));
    }
    let directory = configuration_directory(context);
    text_result(directory)
}

fn do_config_path(args: &Vec<ZapValue>, context: &mut ExecutionContext) -> (r: Result<
    ZapValue,
    String,
>)
    ensures
        (told(r), final(context)@) == config_path_call(views(args@), old(context)@),
{
    if args.len() != 1 {
        return Err(arity_text("config_path", "1 argument", args.len()));
    }
    match &args[0] {
        ZapValue::Text(name) => {
            let path = configuration_path(name.as_str(), context);
            text_result(path)
        },
        _ => fail("config_path expects a text file name"),
    }
}

pub open spec fn exists_call(args: Seq<Val>, w: World) -> (Result<Val, Str>, World) {
    if args.len() != 1 {
        (Err(host_arity("exists"@, "1 argument"@, args.len() as int)), w)
    } else {
        match args[0] {
            Val::Text(path) => {
                let (place, resolved) = confined(w, path, "exists"@);
                match place {
                    Err(_) => (Ok(Val::Bool(false)), resolved),
                    Ok(target) => {
                        let (reply, after) = ask(resolved, "exists"@, seq![Val::Text(target)]);
                        (Ok(Val::Bool(reply == Ok::<Val, Str>(Val::Bool(true)))), after)
                    },
                }
            },
            _ => (Err("exists expects a text path"@), w),
        }
    }
}

fn do_exists(args: &Vec<ZapValue>, context: &mut ExecutionContext) -> (r: Result<ZapValue, String>)
    ensures
        (told(r), final(context)@) == exists_call(views(args@), old(context)@),
{
    if args.len() != 1 {
        return Err(arity_text("exists", "1 argument", args.len()));
    }
    match &args[0] {
        ZapValue::Text(path) => match confined_path(path.as_str(), "exists", context) {
            Err(_) => Ok(ZapValue::Bool(false)),
            Ok(target) => {
                let reply = context.ask("exists", one_text(target.as_str()));
                let there = match &reply {
                    Ok(ZapValue::Bool(b)) => *b,
                    _ => false,
                };
                Ok(ZapValue::Bool(there))
            },
        },
        _ => fail("exists expects a text path"),
    }
}

/// The parts from number `i` on pushed behind a path.
pub open spec fn path_joined(args: Seq<Val>, i: nat, path: Str, sep: char) -> Result<Val, Str>
    decreases args.len() - i,
{
    if i >= args.len() {
        Ok(Val::Text(path))
    } else {
        match args[i as int] {
            Val::Text(part) => path_joined(args, i + 1, pushed(path, part, sep), sep),
            _ => Err("path_join expects text parts"@),
        }
    }
}

fn do_path_join(args: &Vec<ZapValue>, sep: char) -> (r: Result<ZapValue, String>)
    ensures
        told(r) == path_joined(views(args@), 0, Seq::empty(), sep),
{
    let mut path: String = String::new();
    let mut i: usize = 0;
    assert(path@ =~= Seq::<char>::empty());
    while i < args.len()
        invariant
            i <= args@.len(),
            path_joined(views(args@), 0, Seq::empty(), sep) == path_joined(
                views(args@),
                i as nat,
                path@,
                sep,
            ),
        decreases args.len() - i,
    {
        match &args[i] {
            ZapValue::Text(part) => {
                path = push_path(path.as_str(), part.as_str(), sep);
            },
            _ => {
                return fail("path_join expects text parts");
            },
        }
        i += 1;
    }
    Ok(ZapValue::Text(path))
}

/// `basename` and `dirname`.
pub open spec fn path_part(name: Str, args: Seq<Val>, sep: char) -> Result<Val, Str> {
    if args.len() != 1 {
        Err(host_arity(name, "1 argument"@, args.len() as int))
    } else {
        match args[0] {
            Val::Text(path) => Ok(
                Val::Text(
                    match (if name == "basename"@ {
                        file_name(path, sep)
                    } else {
                        parent_path(path, sep)
                    }) {
                        Some(s) => s,
                        None => Seq::empty(),
                    },
                ),
            ),
            _ => Err(name + " expects a text path"@),
        }
    }
}

fn do_path_part(name: &str, args: &Vec<ZapValue>, sep: char) -> (r: Result<ZapValue, String>)
    ensures
        told(r) == path_part(name@, views(args@), sep),
{
    if args.len() != 1 {
        return Err(arity_text(name, "1 argument", args.len()));
    }
    match &args[0] {
        ZapValue::Text(path) => {
            let part = if same(name, "basename") {
                path_file_name(path.as_str(), sep)
            } else {
                path_parent(path.as_str(), sep)
            };
            match part {
                Some(s) => Ok(ZapValue::Text(s)),
                None => {
                    let nothing = String::new();
                    assert(nothing@ =~= Seq::<char>::empty());
                    Ok(ZapValue::Text(nothing))
                },
            }
        },
        _ => Err(join2(name, " expects a text path")),
    }
}

pub open spec fn is_environment_builtin(name: Str) -> bool {
    name == "env"@ || name == "has_env"@ || name == "env_get"@ || name == "config_dir"@ || name
        == "config_path"@
}

/// The builtins on the system.
pub open spec fn system_builtin(name: Str, args: Seq<Val>, w: World) -> (
    Result<Option<Val>, Str>,
    World,
) {
    match (if is_environment_builtin(name) {
        capability("environment access"@, w.untrusted)
    } else {
        Ok(())
    }) {
        Err(error) => (Err(error), w),
        Ok(_) => if name == "now"@ {
            found(now_call(args, w))
        } else if name == "sleep"@ {
            found(sleep_call(args, w))
        } else if name == "env"@ || name == "has_env"@ {
            found(env_call(name, args, w))
        } else if name == "env_get"@ {
            found(env_get_call(args, w))
        } else if name == "config_dir"@ {
            found(config_dir_call(args, w))
        } else if name == "config_path"@ {
            found(config_path_call(args, w))
        } else if name == "exists"@ {
            found(exists_call(args, w))
        } else if name == "path_join"@ {
            found((path_joined(args, 0, Seq::empty(), w.separator), w))
        } else if name == "basename"@ || name == "dirname"@ {
            found((path_part(name, args, w.separator), w))
        } else {
            (Ok(None), w)
        },
    }
}

pub fn direct_system_builtin(name: &str, args: &Vec<ZapValue>, context: &mut ExecutionContext) -> (r:
    Result<Option<ZapValue>, String>)
    ensures
        (told_opt(r), final(context)@) == system_builtin(name@, views(args@), old(context)@),
{
    if same(name, "env") || same(name, "has_env") || same(name, "env_get") || same(
        name,
        "config_dir",
    ) || same(name, "config_path") {
        match require_capability("environment access", context) {
            Err(error) => {
                return Err(error);
            },
            Ok(_) => {},
        }
    }
    if same(name, "now") {
        some_result(do_now(args, context))
    } else if same(name, "sleep") {
        some_result(do_sleep(args, context))
    } else if same(name, "env") || same(name, "has_env") {
        some_result(do_env(name, args, context))
    } else if same(name, "env_get") {
        some_result(do_env_get(args, context))
    } else if same(name, "config_dir") {
        some_result(do_config_dir(args, context))
    } else if same(name, "config_path") {
        some_result(do_config_path(args, context))
    } else if same(name, "exists") {
        some_result(do_exists(args, context))
    } else if same(name, "path_join") {
        some_result(do_path_join(args, context.separator))
    } else if same(name, "basename") || same(name, "dirname") {
        some_result(do_path_part(name, args, context.separator))
    } else {
        Ok(None)
    }
}

// ---------------------------------------------------------------------------
// Processes
// ---------------------------------------------------------------------------

/// What is kept of the output of a process when one more chunk comes: at most the limit, and
/// whether something had to be dropped.
pub open spec fn output_taken(kept: Seq<u8>, exceeded: bool, chunk: Seq<u8>) -> (Seq<u8>, bool) {
    if kept.len() + chunk.len() <= MAX_PROCESS_OUTPUT_BYTES {
        (kept + chunk, exceeded)
    } else if kept.len() < MAX_PROCESS_OUTPUT_BYTES {
        (kept + chunk.take(MAX_PROCESS_OUTPUT_BYTES - kept.len()), true)
    } else {
        (kept, exceeded || chunk.len() > 0)
    }
}

/// Takes one chunk of the output of a process. The result says whether the limit is exceeded.
pub fn read_process_output(kept: &mut Vec<u8>, exceeded: bool, chunk: &Vec<u8>) -> (r: bool)
    ensures
        (final(kept)@, r) == output_taken(old(kept)@, exceeded, chunk@),
{
    let mut over: bool = exceeded;
    let mut i: usize = 0;
    let ghost start = kept@;
    while i < chunk.len() && kept.len() < MAX_PROCESS_OUTPUT_BYTES
        invariant
            i <= chunk@.len(),
            start == old(kept)@,
            over == exceeded,
            kept@ == start + chunk@.take(i as int),
            i > 0 ==> kept@.len() <= MAX_PROCESS_OUTPUT_BYTES,
        decreases chunk.len() - i,
    {
        kept.push(chunk[i]);
        assert(chunk@.take(i + 1) =~= chunk@.take(i as int).push(chunk@[i as int]));
        assert(kept@ =~= start + chunk@.take(i + 1));
        i += 1;
    }
    proof {
        assert(start + chunk@.take(0) =~= start);
        assert(chunk@.take(chunk@.len() as int) =~= chunk@);
    }
    if i < chunk.len() {
        over = true;
    }
    over
}

/// The record of a finished process, from what the host found: its code, whether it succeeded,
/// and for each stream its bytes in base64 and whether they exceed the limit.
pub open spec fn process_record(reply: Result<Val, Str>) -> Result<Val, Str> {
    match reply {
        Err(error) => Err(error),
        Ok(Val::List(parts)) => if parts.len() == 6 {
            match (parts[1], parts[2], parts[3], parts[4], parts[5]) {
                (
                    Val::Bool(success),
                    Val::Text(out),
                    Val::Bool(out_over),
                    Val::Text(err),
                    Val::Bool(err_over),
                ) => if out_over || err_over {
                    Err("process_run output exceeds the "@ + decimal(
                        MAX_PROCESS_OUTPUT_BYTES as int,
                    ) + " byte limit"@)
                } else {
                    match (base64_bytes(out), base64_bytes(err)) {
                        (Some(out_bytes), Some(err_bytes)) => if !valid_utf8(out_bytes) {
                            Err("process_run stdout is not UTF-8"@)
                        } else if !valid_utf8(err_bytes) {
                            Err("process_run stderr is not UTF-8"@)
                        } else {
                            let code = match parts[0] {
                                Val::Number(n) => n,
                                _ => -1i64,
                            };
                            let t = put(Seq::empty(), "status"@, Val::Number(code));
                            let t = put(t, "success"@, Val::Bool(success));
                            let t = put(t, "stdout"@, Val::Text(decode_utf8(out_bytes)));
                            let t = put(t, "stderr"@, Val::Text(decode_utf8(err_bytes)));
                            Ok(Val::Dict(t))
                        },
                        _ => Err(invalid_reply("process_run"@)),
                    }
                },
                _ => Err(invalid_reply("process_run"@)),
            }
        } else {
            Err(invalid_reply("process_run"@))
        },
        Ok(_) => Err(invalid_reply("process_run"@)),
    }
}

fn read_process(reply: Result<ZapValue, String>) -> (r: Result<ZapValue, String>)
    ensures
        told(r) == process_record(told(reply)),
{
    broadcast use lemma_value_view;

    match reply {
        Err(error) => Err(error),
        Ok(ZapValue::List(parts)) => {
            if parts.len() != 6 {
                return Err(join2("process_run", " failed: invalid host reply"));
            }
            match (&parts[1], &parts[2], &parts[3], &parts[4], &parts[5]) {
                (
                    ZapValue::Bool(success),
                    ZapValue::Text(out),
                    ZapValue::Bool(out_over),
                    ZapValue::Text(err),
                    ZapValue::Bool(err_over),
                ) => {
                    if *out_over || *err_over {
                        return Err(
                            join3(
                                "process_run output exceeds the ",
                                length_text(MAX_PROCESS_OUTPUT_BYTES).as_str(),
                                " byte limit",
                            ),
                        );
                    }
                    let (out_bytes, err_bytes) = match (
                        decode_base64(out.as_str()),
                        decode_base64(err.as_str()),
                    ) {
                        (Some(a), Some(b)) => (a, b),
                        _ => {
                            return Err(join2("process_run", " failed: invalid host reply"));
                        },
                    };
                    let stdout = match text_from_bytes(out_bytes) {
                        Some(text) => text,
                        None => {
                            return fail("process_run stdout is not UTF-8");
                        },
                    };
                    let stderr = match text_from_bytes(err_bytes) {
                        Some(text) => text,
                        None => {
                            return fail("process_run stderr is not UTF-8");
                        },
                    };
                    let code: i64 = match &parts[0] {
                        ZapValue::Number(n) => *n,
                        _ => -1,
                    };
                    let t = with(Table::new(), "status", ZapValue::Number(code));
                    let t = with(t, "success", ZapValue::Bool(*success));
                    let t = with(t, "stdout", ZapValue::Text(stdout));
                    let t = with(t, "stderr", ZapValue::Text(stderr));
                    Ok(dict(t))
                },
                _ => Err(join2("process_run", " failed: invalid host reply")),
            }
        },
        Ok(_) => Err(join2("process_run", " failed: invalid host reply")),
    }
}

pub open spec fn process_call(args: Seq<Val>, w: World) -> (Result<Val, Str>, World) {
    match capability("process execution"@, w.untrusted) {
        Err(error) => (Err(error), w),
        Ok(_) => if args.len() != 2 {
            (Err(host_arity("process_run"@, "2 arguments"@, args.len() as int)), w)
        } else {
            match args[0] {
                Val::Text(command) => match args[1] {
                    Val::List(arguments) => if !crate::collections::all_texts(arguments) {
                        (Err("process_run expects a list of text arguments"@), w)
                    } else {
                        let (reply, after) = ask(w, "process_run"@, args);
                        (process_record(reply), after)
                    },
                    _ => (Err("process_run expects a list of text arguments"@), w),
                },
                _ => (Err("process_run expects a text command"@), w),
            }
        },
    }
}

fn only_texts(values: &Vec<ZapValue>) -> (r: bool)
    ensures
        r == crate::collections::all_texts(views(values@)),
{
    let mut i: usize = 0;
    while i < values.len()
        invariant
            i <= values@.len(),
            forall|j: int| 0 <= j < i ==> (#[trigger] views(values@)[j]) is Text,
        decreases values.len() - i,
    {
        assert(views(values@)[i as int] == values@[i as int]@);
        match &values[i] {
            ZapValue::Text(_) => {},
            _ => {
                assert(!(views(values@)[i as int] is Text));
                return false;
            },
        }
        i += 1;
    }
    true
}

fn process_run(args: &Vec<ZapValue>, context: &mut ExecutionContext) -> (r: Result<ZapValue, String>)
    ensures
        (told(r), final(context)@) == process_call(views(args@), old(context)@),
{
    broadcast use lemma_value_view;

    match require_capability("process execution", context) {
        Err(error) => {
            return Err(error);
        },
        Ok(_) => {},
    }
    if args.len() != 2 {
        return Err(arity_text("process_run", "2 arguments", args.len()));
    }
    match &args[0] {
        ZapValue::Text(_) => {},
        _ => {
            return fail("process_run expects a text command");
        },
    }
    match &args[1] {
        ZapValue::List(arguments) => {
            if !only_texts(arguments) {
                return fail("process_run expects a list of text arguments");
            }
        },
        _ => {
            return fail("process_run expects a list of text arguments");
        },
    }
    let reply = context.ask("process_run", copy_values(args));
    read_process(reply)
}

// ---------------------------------------------------------------------------
// HTTP requests
// ---------------------------------------------------------------------------

/// The record of an HTTP response, from what the host received: its status and its body in base64.
pub open spec fn response_record(reply: Result<Val, Str>) -> Result<Val, Str> {
    match reply {
        Err(error) => Err(error),
        Ok(Val::List(parts)) => if parts.len() == 2 {
            match (parts[0], parts[1]) {
                (Val::Number(status), Val::Text(notation)) => match base64_bytes(notation) {
                    None => Err(invalid_reply("http_request"@)),
                    Some(bytes) => if bytes.len() > MAX_HTTP_RESPONSE_BYTES {
                        Err("http_request response exceeds the "@ + decimal(
                            MAX_HTTP_RESPONSE_BYTES as int,
                        ) + " byte limit"@)
                    } else if !valid_utf8(bytes) {
                        Err("http_request response is not UTF-8"@)
                    } else {
                        let t = put(Seq::empty(), "status"@, Val::Number(status));
                        let t = put(t, "success"@, Val::Bool(200 <= status < 400));
                        let t = put(t, "body"@, Val::Text(decode_utf8(bytes)));
                        Ok(Val::Dict(t))
                    },
                },
                _ => Err(invalid_reply("http_request"@)),
            }
        } else {
            Err(invalid_reply("http_request"@))
        },
        Ok(_) => Err(invalid_reply("http_request"@)),
    }
}

fn read_response(reply: Result<ZapValue, String>) -> (r: Result<ZapValue, String>)
    ensures
        told(r) == response_record(told(reply)),
{
    broadcast use lemma_value_view;

    match reply {
        Err(error) => Err(error),
        Ok(ZapValue::List(parts)) => {
            if parts.len() != 2 {
                return Err(join2("http_request", " failed: invalid host reply"));
            }
            match (&parts[0], &parts[1]) {
                (ZapValue::Number(status), ZapValue::Text(notation)) => {
                    let bytes = match decode_base64(notation.as_str()) {
                        Some(bytes) => bytes,
                        None => {
                            return Err(join2("http_request", " failed: invalid host reply"));
                        },
                    };
                    if bytes.len() > MAX_HTTP_RESPONSE_BYTES {
                        return Err(
                            join3(
                                "http_request response exceeds the ",
                                length_text(MAX_HTTP_RESPONSE_BYTES).as_str(),
                                " byte limit",
                            ),
                        );
                    }
                    let body = match text_from_bytes(bytes) {
                        Some(body) => body,
                        None => {
                            return fail("http_request response is not UTF-8");
                        },
                    };
                    let t = with(Table::new(), "status", ZapValue::Number(*status));
                    let t = with(t, "success", ZapValue::Bool(200 <= *status && *status < 400));
                    let t = with(t, "body", ZapValue::Text(body));
                    Ok(dict(t))
                },
                _ => Err(join2("http_request", " failed: invalid host reply")),
            }
        },
        Ok(_) => Err(join2("http_request", " failed: invalid host reply")),
    }
}

/// The body of a request, if it has one.
pub open spec fn request_text(args: Seq<Val>) -> Result<Option<Str>, Str> {
    if args.len() < 3 {
        Ok(None)
    } else {
        match args[2] {
            Val::Text(body) => if size(body) > MAX_HTTP_REQUEST_BYTES {
                Err("http_request body exceeds the "@ + decimal(MAX_HTTP_REQUEST_BYTES as int)
                    + " byte limit"@)
            } else {
                Ok(Some(body))
            },
            _ => Err("http_request expects a text body"@),
        }
    }
}

/// The host and the port that a URL leads to.
pub open spec fn url_target(url: Str) -> Result<(Str, u16), Str> {
    match url_record(url) {
        Err(error) => Err(error),
        Ok(Val::Dict(parts)) => match get(parts, "scheme"@) {
            Some(Val::Text(scheme)) => if scheme != "http"@ && scheme != "https"@ {
                Err("http_request supports only http and https URLs"@)
            } else {
                match get(parts, "host"@) {
                    Some(Val::Text(host)) => match get(parts, "port"@) {
                        Some(Val::OptionSome(inner)) => match *inner {
                            Val::Number(n) => if 0 <= n <= 65535 {
                                Ok((host, n as u16))
                            } else {
                                Err("http_request URL contains an invalid port"@)
                            },
                            _ => Err("http_request URL contains an invalid port"@),
                        },
                        _ => Ok(
                            (
                                host,
                                if scheme == "https"@ {
                                    443u16
                                } else {
                                    80u16
                                },
                            ),
                        ),
                    },
                    _ => Err("http_request URL parser omitted the host"@),
                }
            },
            _ => Err("http_request URL parser omitted the scheme"@),
        },
        Ok(_) => Err("http_request URL parser returned an invalid result"@),
    }
}

pub open spec fn told_target(r: Result<(String, u16), String>) -> Result<(Str, u16), Str> {
    match r {
        Ok(found) => Ok((found.0@, found.1)),
        Err(error) => Err(error@),
    }
}

fn read_target(url: &str) -> (r: Result<(String, u16), String>)
    ensures
        told_target(r) == url_target(url@),
{
    broadcast use lemma_value_view;

    reveal_with_fuel(ZapValue::model, 2);
    let parts = match parse_url(url) {
        Err(error) => {
            return Err(error);
        },
        Ok(ZapValue::Dict(parts)) => parts,
        Ok(_) => {
            return fail("http_request URL parser returned an invalid result");
        },
    };
    let secure = match parts.find("scheme") {
        Some(ZapValue::Text(scheme)) => {
            let secure = same(scheme.as_str(), "https");
            if !secure && !same(scheme.as_str(), "http") {
                return fail("http_request supports only http and https URLs");
            }
            secure
        },
        _ => {
            return fail("http_request URL parser omitted the scheme");
        },
    };
    let host = match parts.find("host") {
        Some(ZapValue::Text(host)) => host.clone(),
        _ => {
            return fail("http_request URL parser omitted the host");
        },
    };
    match parts.find("port") {
        Some(ZapValue::OptionSome(inner)) => match &**inner {
            ZapValue::Number(n) => if 0 <= *n && *n <= 65535 {
                Ok((host, *n as u16))
            } else {
                fail("http_request URL contains an invalid port")
            },
            _ => fail("http_request URL contains an invalid port"),
        },
        _ => Ok(
            (
                host,
                if secure {
                    443
                } else {
                    80
                },
            ),
        ),
    }
}

pub open spec fn http_call(args: Seq<Val>, w: World) -> (Result<Val, Str>, World) {
    match capability("network access"@, w.untrusted) {
        Err(error) => (Err(error), w),
        Ok(_) => if args.len() != 2 && args.len() != 3 {
            (Err(host_arity("http_request"@, "2 or 3 arguments"@, args.len() as int)), w)
        } else {
            match args[0] {
                Val::Text(method) => match args[1] {
                    Val::Text(url) => match request_text(args) {
                        Err(error) => (Err(error), w),
                        Ok(_) => match url_target(url) {
                            Err(error) => (Err(error), w),
                            Ok(target) => {
                                let (place, resolved) = destination(
                                    target.0,
                                    target.1,
                                    w.untrusted,
                                    w,
                                );
                                match place {
                                    Err(error) => (Err(error), resolved),
                                    Ok(None) => {
                                        let (reply, after) = ask(resolved, "http_request"@, args);
                                        (response_record(reply), after)
                                    },
                                    Ok(Some(addresses)) => {
                                        let (reply, after) = ask(
                                            resolved,
                                            "http_request_pinned"@,
                                            args.push(Val::List(addresses)),
                                        );
                                        (response_record(reply), after)
                                    },
                                }
                            },
                        },
                    },
                    _ => (Err("http_request expects a text URL"@), w),
                },
                _ => (Err("http_request expects a text method"@), w),
            }
        },
    }
}

pub fn http_request(args: &Vec<ZapValue>, context: &mut ExecutionContext) -> (r: Result<
    ZapValue,
    String,
>)
    ensures
        (told(r), final(context)@) == http_call(views(args@), old(context)@),
{
    match require_capability("network access", context) {
        Err(error) => {
            return Err(error);
        },
        Ok(_) => {},
    }
    if args.len() != 2 && args.len() != 3 {
        return Err(arity_text("http_request", "2 or 3 arguments", args.len()));
    }
    match &args[0] {
        ZapValue::Text(_) => {},
        _ => {
            return fail("http_request expects a text method");
        },
    }
    let url = match &args[1] {
        ZapValue::Text(url) => url,
        _ => {
            return fail("http_request expects a text URL");
        },
    };
    if args.len() == 3 {
        match &args[2] {
            ZapValue::Text(body) => {
                if byte_len(body.as_str()) > MAX_HTTP_REQUEST_BYTES {
                    return Err(
                        join3(
                            "http_request body exceeds the ",
                            length_text(MAX_HTTP_REQUEST_BYTES).as_str(),
                            " byte limit",
                        ),
                    );
                }
            },
            _ => {
                return fail("http_request expects a text body");
            },
        }
    }
    let (host, port) = match read_target(url.as_str()) {
        Err(error) => {
            return Err(error);
        },
        Ok(target) => target,
    };
    let restricted = context.untrusted;
    match resolved_network_destination_for_mode(host.as_str(), port, restricted, context) {
        Err(error) => Err(error),
        Ok(None) => {
            let reply = context.ask("http_request", copy_values(args));
            read_response(reply)
        },
        Ok(Some(addresses)) => {
            let mut full = copy_values(args);
            full.push(list(addresses));
            assert(views(full@) =~= views(args@).push(Val::List(views(addresses@))));
            let reply = context.ask("http_request_pinned", full);
            read_response(reply)
        },
    }
}

// ---------------------------------------------------------------------------
// All builtins that reach the host
// ---------------------------------------------------------------------------

/// `url_parse`, `url_encode` and `url_decode`.
pub open spec fn url_call(name: Str, args: Seq<Val>) -> Result<Val, Str> {
    if args.len() != 1 {
        Err(host_arity(name, "1 argument"@, args.len() as int))
    } else {
        match args[0] {
            Val::Text(s) => if name == "url_parse"@ {
                url_record(s)
            } else if name == "url_encode"@ {
                Ok(Val::Text(percent_encoded(s)))
            } else {
                match percent_decoded(s) {
                    Ok(text) => Ok(Val::Text(text)),
                    Err(error) => Err(error),
                }
            },
            _ => Err(name + (if name == "url_parse"@ {
                " expects a text URL"@
            } else {
                " expects text"@
            })),
        }
    }
}

fn do_url(name: &str, args: &Vec<ZapValue>) -> (r: Result<ZapValue, String>)
    ensures
        told(r) == url_call(name@, views(args@)),
{
    if args.len() != 1 {
        return Err(arity_text(name, "1 argument", args.len()));
    }
    match &args[0] {
        ZapValue::Text(s) => if same(name, "url_parse") {
            parse_url(s.as_str())
        } else if same(name, "url_encode") {
            Ok(ZapValue::Text(percent_encode(s.as_str())))
        } else {
            text_result(percent_decode(s.as_str()))
        },
        _ => Err(
            join2(
                name,
                if same(name, "url_parse") {
                    " expects a text URL"
                } else {
                    " expects text"
                },
            ),
        ),
    }
}

pub open spec fn http_get_call(args: Seq<Val>, w: World) -> (Result<Val, Str>, World) {
    if args.len() != 1 {
        (Err(host_arity("http_get"@, "1 argument"@, args.len() as int)), w)
    } else {
        http_call(seq![Val::Text("GET"@), args[0]], w)
    }
}

fn do_http_get(args: &Vec<ZapValue>, context: &mut ExecutionContext) -> (r: Result<
    ZapValue,
    String,
>)
    ensures
        (told(r), final(context)@) == http_get_call(views(args@), old(context)@),
{
    if args.len() != 1 {
        return Err(arity_text("http_get", "1 argument", args.len()));
    }
    let mut full: Vec<ZapValue> = Vec::new();
    full.push(text_value("GET"));
    full.push(args[0].copy());
    assert(views(full@) =~= seq![Val::Text("GET"@), args@[0]@]);
    http_request(&full, context)
}

pub open spec fn serve_once_call(args: Seq<Val>, w: World) -> (Result<Val, Str>, World) {
    match capability("network access"@, w.untrusted) {
        Err(error) => (Err(error), w),
        Ok(_) => serve_once(args, w),
    }
}

pub open spec fn network_builtin(name: Str, args: Seq<Val>, w: World) -> (
    Result<Option<Val>, Str>,
    World,
) {
    if name == "url_parse"@ || name == "url_encode"@ || name == "url_decode"@ {
        found((url_call(name, args), w))
    } else if name == "process_run"@ {
        found(process_call(args, w))
    } else if name == "http_get"@ {
        found(http_get_call(args, w))
    } else if name == "http_request"@ {
        found(http_call(args, w))
    } else if name == "http_serve_once"@ {
        found(serve_once_call(args, w))
    } else {
        (Ok(None), w)
    }
}

fn direct_network_builtin(name: &str, args: &Vec<ZapValue>, context: &mut ExecutionContext) -> (r:
    Result<Option<ZapValue>, String>)
    ensures
        (told_opt(r), final(context)@) == network_builtin(name@, views(args@), old(context)@),
{
    if same(name, "url_parse") || same(name, "url_encode") || same(name, "url_decode") {
        some_result(do_url(name, args))
    } else if same(name, "process_run") {
        some_result(process_run(args, context))
    } else if same(name, "http_get") {
        some_result(do_http_get(args, context))
    } else if same(name, "http_request") {
        some_result(http_request(args, context))
    } else if same(name, "http_serve_once") {
        match require_capability("network access", context) {
            Err(error) => {
                return Err(error);
            },
            Ok(_) => {},
        }
        some_result(http_serve_once(args, context))
    } else {
        Ok(None)
    }
}

/// The builtins that reach the host: files first, the system next, the network last.
pub open spec fn external_builtin(name: Str, args: Seq<Val>, w: World) -> (
    Result<Option<Val>, Str>,
    World,
) {
    let (io, w1) = io_builtin(name, args, w);
    match io {
        Ok(None) => {
            let (system, w2) = system_builtin(name, args, w1);
            match system {
                Ok(None) => network_builtin(name, args, w2),
                other => (other, w2),
            }
        },
        other => (other, w1),
    }
}

pub fn direct_external_builtin(name: &str, args: &Vec<ZapValue>, context: &mut ExecutionContext) -> (
    r: Result<Option<ZapValue>, String>)
    ensures
        (told_opt(r), final(context)@) == external_builtin(name@, views(args@), old(context)@),
{
    match direct_io_builtin(name, args, context) {
        Ok(None) => {},
        other => {
            return other;
        },
    }
    match direct_system_builtin(name, args, context) {
        Ok(None) => {},
        other => {
            return other;
        },
    }
    direct_network_builtin(name, args, context)
}

} // verus!
