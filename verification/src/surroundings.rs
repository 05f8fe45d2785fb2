//! What reaches the world around a program: files, paths, the system, URLs, addresses, processes,
//! assets and modules.

use vstd::utf8::encode_utf8;

use crate::assets::{
    asset_not_found, asset_path, asset_place, asset_readable, asset_reply, asset_response,
    content_type, content_type_of, delivered_asset, not_found_document, served_asset, static_asset,
    static_spa,
};
use crate::host::{
    atomic_write_call, confined, limited_text, metadata_call, metadata_record, read_lines_call,
    read_text_call, write_lines_call, write_text_call,
};
use crate::json::shown_json;
use crate::laws::frames_ordered;
use crate::modules::{
    attached, bound_in, fn_prefix, import_cycle, import_path, module_places, named_path, quotes_end,
    quotes_start, unquoted,
};
use crate::network::{bare_host, blocked, brackets_end, brackets_start, Address};
use crate::outside::{base64_bytes, base64_text};
use crate::paths::{
    climbs, components, components_from, extension, file_name, is_absolute, is_dot, is_dots,
    is_plain, last_dot, lies_within, piece, piece_end, pushed,
};
use crate::records::utc_record;
use crate::runtime::utc_now;
use crate::shapes::lemma_trim_same;
use crate::system::{
    config_dir_call, config_directory, config_path, config_path_call, env_call, env_get_call,
    exists_call, external_builtin, http_call, http_get_call, now_call, output_taken, path_joined,
    path_part, process_call, process_record, request_text, response_record, serve_once_call,
    sleep_call, url_call, url_target, variable,
};
use crate::table::{
    get, lemma_get_put_other, lemma_get_put_same, lemma_put_ordered, ordered, put, Rows,
};
use crate::text::{ascii_lower, cut, has_prefix, has_suffix, is_space, size, Str};
use crate::url::{
    authority_end, escape, escape_all, hex_pair, hex_value, host_and_port, last_before,
    percent_decoded, percent_encoded, url_record,
};
use crate::value::{Fun, Val};
use crate::wording::law_beginnings_and_ends;
use crate::world::{ask, insert_local, names_of, World};
use vstd::prelude::*;
use vstd::utf8::{decode_utf8, valid_utf8};

verus! {

// ---------------------------------------------------------------------------
// Functions and their names
// ---------------------------------------------------------------------------

/// What tells the names of the functions that reach the host apart.
pub open spec fn told_apart() -> bool {
    &&& "read_text"@.len() == 9 && "read_text"@[0] == 'r'
    &&& "read_lines"@.len() == 10 && "read_lines"@[0] == 'r'
    &&& "write_text"@.len() == 10 && "write_text"@[0] == 'w' && "write_text"@[1] == 'r'
    &&& "write_lines"@.len() == 11 && "write_lines"@[0] == 'w'
    &&& "file_metadata"@.len() == 13
    &&& "atomic_write"@.len() == 12 && "atomic_write"@[0] == 'a'
    &&& "web_static"@.len() == 10 && "web_static"@[0] == 'w' && "web_static"@[1] == 'e'
    &&& "web_static_spa"@.len() == 14
    &&& "now"@.len() == 3 && "now"@[0] == 'n'
    &&& "sleep"@.len() == 5
    &&& "env"@.len() == 3 && "env"@[0] == 'e'
    &&& "has_env"@.len() == 7 && "has_env"@[0] == 'h'
    &&& "env_get"@.len() == 7 && "env_get"@[0] == 'e'
    &&& "config_dir"@.len() == 10 && "config_dir"@[0] == 'c'
    &&& "config_path"@.len() == 11 && "config_path"@[0] == 'c'
    &&& "exists"@.len() == 6
    &&& "path_join"@.len() == 9 && "path_join"@[0] == 'p'
    &&& "basename"@.len() == 8 && "basename"@[0] == 'b'
    &&& "dirname"@.len() == 7 && "dirname"@[0] == 'd'
    &&& "url_parse"@.len() == 9 && "url_parse"@[0] == 'u'
    &&& "url_encode"@.len() == 10 && "url_encode"@[0] == 'u' && "url_encode"@[4] == 'e'
    &&& "url_decode"@.len() == 10 && "url_decode"@[0] == 'u' && "url_decode"@[4] == 'd'
    &&& "process_run"@.len() == 11 && "process_run"@[0] == 'p'
    &&& "http_get"@.len() == 8 && "http_get"@[0] == 'h'
    &&& "http_request"@.len() == 12 && "http_request"@[0] == 'h'
    &&& "http_serve_once"@.len() == 15
}

proof fn lemma_names()
    ensures
        told_apart(),
{
    reveal_strlit("read_text");
    reveal_strlit("read_lines");
    reveal_strlit("write_text");
    reveal_strlit("write_lines");
    reveal_strlit("file_metadata");
    reveal_strlit("atomic_write");
    reveal_strlit("web_static");
    reveal_strlit("web_static_spa");
    reveal_strlit("now");
    reveal_strlit("sleep");
    reveal_strlit("env");
    reveal_strlit("has_env");
    reveal_strlit("env_get");
    reveal_strlit("config_dir");
    reveal_strlit("config_path");
    reveal_strlit("exists");
    reveal_strlit("path_join");
    reveal_strlit("basename");
    reveal_strlit("dirname");
    reveal_strlit("url_parse");
    reveal_strlit("url_encode");
    reveal_strlit("url_decode");
    reveal_strlit("process_run");
    reveal_strlit("http_get");
    reveal_strlit("http_request");
    reveal_strlit("http_serve_once");
    assert("read_text"@.len() == 9 && "read_text"@[0] == 'r');
    assert("read_lines"@.len() == 10 && "read_lines"@[0] == 'r');
    assert("write_text"@.len() == 10 && "write_text"@[0] == 'w' && "write_text"@[1] == 'r');
    assert("write_lines"@.len() == 11 && "write_lines"@[0] == 'w');
    assert("file_metadata"@.len() == 13);
    assert("atomic_write"@.len() == 12 && "atomic_write"@[0] == 'a');
    assert("web_static"@.len() == 10 && "web_static"@[0] == 'w' && "web_static"@[1] == 'e');
    assert("web_static_spa"@.len() == 14);
    assert("now"@.len() == 3 && "now"@[0] == 'n');
    assert("sleep"@.len() == 5);
    assert("env"@.len() == 3 && "env"@[0] == 'e');
    assert("has_env"@.len() == 7 && "has_env"@[0] == 'h');
    assert("env_get"@.len() == 7 && "env_get"@[0] == 'e');
    assert("config_dir"@.len() == 10 && "config_dir"@[0] == 'c');
    assert("config_path"@.len() == 11 && "config_path"@[0] == 'c');
    assert("exists"@.len() == 6);
    assert("path_join"@.len() == 9 && "path_join"@[0] == 'p');
    assert("basename"@.len() == 8 && "basename"@[0] == 'b');
    assert("dirname"@.len() == 7 && "dirname"@[0] == 'd');
    assert("url_parse"@.len() == 9 && "url_parse"@[0] == 'u');
    assert("url_encode"@.len() == 10 && "url_encode"@[0] == 'u' && "url_encode"@[4] == 'e');
    assert("url_decode"@.len() == 10 && "url_decode"@[0] == 'u' && "url_decode"@[4] == 'd');
    assert("process_run"@.len() == 11 && "process_run"@[0] == 'p');
    assert("http_get"@.len() == 8 && "http_get"@[0] == 'h');
    assert("http_request"@.len() == 12 && "http_request"@[0] == 'h');
    assert("http_serve_once"@.len() == 15);
}

/// Whether a function that reaches the host, called on arguments, has an outcome.
pub open spec fn comes_to(
    name: Str,
    args: Seq<Val>,
    w: World,
    outcome: (Result<Val, Str>, World),
) -> bool {
    external_builtin(name, args, w) == (
        match outcome.0 {
            Ok(value) => Ok::<Option<Val>, Str>(Some(value)),
            Err(error) => Err(error),
        },
        outcome.1,
    )
}

/// The functions on files, by their names, in a context that is trusted.
pub proof fn law_functions_on_files(args: Seq<Val>, w: World)
    requires
        !w.untrusted,
    ensures
        comes_to("read_text"@, args, w, read_text_call(args, w)),
        comes_to("read_lines"@, args, w, read_lines_call(args, w)),
        comes_to("write_text"@, args, w, write_text_call(args, w)),
        comes_to("write_lines"@, args, w, write_lines_call(args, w)),
        comes_to("file_metadata"@, args, w, metadata_call(args, w)),
        comes_to("atomic_write"@, args, w, atomic_write_call(args, w)),
        comes_to("web_static"@, args, w, static_asset(args, w)),
        comes_to("web_static_spa"@, args, w, static_spa(args, w)),
{
    lemma_names();
}

/// The functions on the system, by their names, in a context that is trusted.
pub proof fn law_functions_on_the_system(args: Seq<Val>, w: World)
    requires
        !w.untrusted,
    ensures
        comes_to("now"@, args, w, now_call(args, w)),
        comes_to("sleep"@, args, w, sleep_call(args, w)),
        comes_to("env"@, args, w, env_call("env"@, args, w)),
        comes_to("has_env"@, args, w, env_call("has_env"@, args, w)),
        comes_to("env_get"@, args, w, env_get_call(args, w)),
        comes_to("config_dir"@, args, w, config_dir_call(args, w)),
        comes_to("config_path"@, args, w, config_path_call(args, w)),
        comes_to("exists"@, args, w, exists_call(args, w)),
        comes_to("path_join"@, args, w, (path_joined(args, 0, Seq::empty(), w.separator), w)),
        comes_to("basename"@, args, w, (path_part("basename"@, args, w.separator), w)),
        comes_to("dirname"@, args, w, (path_part("dirname"@, args, w.separator), w)),
{
    lemma_names();
}

/// The functions on the network, by their names, in a context that is trusted.
pub proof fn law_functions_on_the_network(args: Seq<Val>, w: World)
    requires
        !w.untrusted,
    ensures
        comes_to("url_parse"@, args, w, (url_call("url_parse"@, args), w)),
        comes_to("url_encode"@, args, w, (url_call("url_encode"@, args), w)),
        comes_to("url_decode"@, args, w, (url_call("url_decode"@, args), w)),
        comes_to("process_run"@, args, w, process_call(args, w)),
        comes_to("http_get"@, args, w, http_get_call(args, w)),
        comes_to("http_request"@, args, w, http_call(args, w)),
        comes_to("http_serve_once"@, args, w, serve_once_call(args, w)),
{
    lemma_names();
}

// ---------------------------------------------------------------------------
// Files
// ---------------------------------------------------------------------------

/// A text is read as the host has it, from the place that the path leads to; without a workspace
/// that is the path itself.
pub proof fn law_files_are_read_as_they_are(path: Str, w: World)
    requires
        w.workspace is None,
    ensures
        ({
            let (reply, after) = ask(w, "read_text"@, seq![Val::Text(path), Val::Text("read_text"@)]);
            let (r, last) = read_text_call(seq![Val::Text(path)], w);
            &&& last == after
            &&& reply is Ok && reply->Ok_0 is Text ==> r == reply
            &&& reply is Err ==> r == reply
        }),
{
}

/// A text of at most 8 MiB is handed to the host as it is, with its place; a longer one is refused
/// and never reaches the host.
pub proof fn law_files_are_written_as_given(path: Str, content: Str, w: World)
    requires
        w.workspace is None,
    ensures
        ({
            let (r, last) = write_text_call(seq![Val::Text(path), Val::Text(content)], w);
            let (reply, after) = ask(
                w,
                "write_text"@,
                seq![Val::Text(path), Val::Text(content), Val::Text("write_text"@)],
            );
            &&& size(content) > 8_388_608 ==> r is Err && last == w
            &&& size(content) <= 8_388_608 ==> last == after && (r is Ok <==> reply is Ok)
        }),
{
}

/// The bytes of a file are its text, if they are at most 8 MiB and valid UTF-8.
pub proof fn law_file_texts(bytes: Seq<u8>, operation: Str)
    ensures
        limited_text(bytes, operation) is Ok <==> bytes.len() <= 8_388_608 && valid_utf8(bytes),
        limited_text(bytes, operation) is Ok ==> limited_text(bytes, operation) == Ok::<Str, Str>(
            decode_utf8(bytes),
        ),
{
}

/// The record of a file tells its kind, a link before all else, its size and whether it is read
/// only.
pub proof fn law_file_records(link: bool, file: bool, directory: bool, bytes: i64, readonly: bool)
    ensures
        ({
            let r = metadata_record(
                Ok(
                    Val::List(
                        seq![
                            Val::Bool(link),
                            Val::Bool(file),
                            Val::Bool(directory),
                            Val::Number(bytes),
                            Val::Bool(readonly),
                        ],
                    ),
                ),
            );
            &&& r is Ok && r->Ok_0 is Dict
            &&& get(r->Ok_0->Dict_0, "size"@) == Some(Val::Number(bytes))
            &&& get(r->Ok_0->Dict_0, "readonly"@) == Some(Val::Bool(readonly))
            &&& link ==> get(r->Ok_0->Dict_0, "kind"@) == Some(Val::Text("symlink"@))
            &&& !link && file ==> get(r->Ok_0->Dict_0, "kind"@) == Some(Val::Text("file"@))
            &&& !link && !file && directory ==> get(r->Ok_0->Dict_0, "kind"@) == Some(
                Val::Text("directory"@),
            )
            &&& !link && !file && !directory ==> get(r->Ok_0->Dict_0, "kind"@) == Some(
                Val::Text("other"@),
            )
        }),
{
    reveal_strlit("kind");
    reveal_strlit("size");
    reveal_strlit("readonly");
    assert("kind"@.len() == 4 && "kind"@[0] == 'k');
    assert("size"@.len() == 4 && "size"@[0] == 's');
    assert("readonly"@.len() == 8);
    let kind = Val::Text(
        if link {
            "symlink"@
        } else if file {
            "file"@
        } else if directory {
            "directory"@
        } else {
            "other"@
        },
    );
    let none: Rows<Val> = Seq::empty();
    let a = put(none, "kind"@, kind);
    let b = put(a, "size"@, Val::Number(bytes));
    lemma_put_ordered(none, "kind"@, kind);
    lemma_put_ordered(a, "size"@, Val::Number(bytes));
    lemma_get_put_same(none, "kind"@, kind);
    lemma_get_put_same(a, "size"@, Val::Number(bytes));
    lemma_get_put_same(b, "readonly"@, Val::Bool(readonly));
    lemma_get_put_other(a, "size"@, Val::Number(bytes), "kind"@);
    lemma_get_put_other(b, "readonly"@, Val::Bool(readonly), "kind"@);
    lemma_get_put_other(b, "readonly"@, Val::Bool(readonly), "size"@);
}

// ---------------------------------------------------------------------------
// Paths
// ---------------------------------------------------------------------------

/// Where a slash is the separator, a path is absolute if it begins with one; an absolute path
/// takes the place of the path before it, and a relative one goes behind it with one slash between
/// them.
pub proof fn law_paths_are_pushed(path: Str, part: Str)
    ensures
        is_absolute(part, '/') <==> part.len() > 0 && part[0] == '/',
        part.len() > 0 && part[0] == '/' ==> pushed(path, part, '/') == part,
        !(part.len() > 0 && part[0] == '/') && (path.len() == 0 || path.last() == '/') ==> pushed(
            path,
            part,
            '/',
        ) == path + part,
        !(part.len() > 0 && part[0] == '/') && path.len() > 0 && path.last() != '/' ==> pushed(
            path,
            part,
            '/',
        ) == path + seq!['/'] + part,
{
}

/// Joining paths pushes each part behind those before it.
pub proof fn law_paths_are_joined(parts: Seq<Str>, a: Str, b: Str, sep: char)
    ensures
        path_joined(Seq::empty(), 0, a, sep) == Ok::<Val, Str>(Val::Text(a)),
        path_joined(seq![Val::Text(a), Val::Text(b)], 0, Seq::empty(), sep) == Ok::<Val, Str>(
            Val::Text(pushed(pushed(Seq::empty(), a, sep), b, sep)),
        ),
{
    reveal_with_fuel(path_joined, 4);
}

proof fn lemma_piece_end(s: Str, i: int, e: int)
    requires
        0 <= i <= e <= s.len(),
        forall|k: int| i <= k < e ==> (#[trigger] s[k]) != '/',
        e < s.len() ==> s[e] == '/',
    ensures
        piece_end(s, i, '/') == e,
    decreases e - i,
{
    if i < e {
        lemma_piece_end(s, i + 1, e);
    }
}

proof fn lemma_piece_range(s: Str, i: int)
    requires
        0 <= i <= s.len(),
    ensures
        i <= piece_end(s, i, '/') <= s.len(),
        forall|k: int| i <= k < piece_end(s, i, '/') ==> (#[trigger] s[k]) != '/',
        piece_end(s, i, '/') < s.len() ==> s[piece_end(s, i, '/')] == '/',
    decreases s.len() - i,
{
    if i < s.len() && s[i] != '/' {
        lemma_piece_range(s, i + 1);
    }
}

proof fn lemma_last_component(directory: Str, name: Str, i: int)
    requires
        name.len() > 0,
        !name.contains('/'),
        !is_dot(name),
        0 <= i <= directory.len() + 1,
    ensures
        ({
            let s = directory + seq!['/'] + name;
            let all = components_from(s, i, '/');
            all.len() > 0 && all.last() == ((directory.len() + 1) as int, s.len() as int)
        }),
    decreases directory.len() + 1 - i,
{
    let s = directory + seq!['/'] + name;
    let start = (directory.len() + 1) as int;
    if i == start {
        assert forall|k: int| start <= k < s.len() implies (#[trigger] s[k]) != '/' by {
            assert(s[k] == name[k - start]);
            assert(name.contains(name[k - start]));
        }
        lemma_piece_end(s, start, s.len() as int);
        assert(s.subrange(start, s.len() as int) =~= name);
        assert(s[start] == name[0]);
        assert(components_from(s, s.len() as int, '/') =~= Seq::<(int, int)>::empty());
        assert(components_from(s, i, '/') =~= seq![(start, s.len() as int)]);
    } else if s[i] == '/' {
        lemma_last_component(directory, name, i + 1);
    } else {
        lemma_piece_range(s, i);
        let e = piece_end(s, i, '/');
        assert(s[directory.len() as int] == '/');
        assert(e <= directory.len());
        assert(i < e);
        lemma_last_component(directory, name, e);
    }
}

/// The name of a file is what stands behind the last slash of its path; its extension is what
/// stands behind the last dot of the name, unless the dot comes first.
pub proof fn law_file_names(directory: Str, name: Str)
    requires
        name.len() > 0,
        !name.contains('/'),
        !is_dot(name),
        !is_dots(name),
    ensures
        file_name(directory + seq!['/'] + name, '/') == Some(name),
        extension(directory + seq!['/'] + name, '/') == (match last_dot(name, name.len() as int) {
            Some(i) => if i > 0 {
                Some(name.skip(i + 1))
            } else {
                None
            },
            None => None,
        }),
{
    let s = directory + seq!['/'] + name;
    lemma_last_component(directory, name, 0);
    assert(s.subrange((directory.len() + 1) as int, s.len() as int) =~= name);
    lemma_last_dot(name, name.len() as int);
}

proof fn lemma_last_dot(s: Str, i: int)
    requires
        0 <= i <= s.len(),
    ensures
        match last_dot(s, i) {
            Some(k) => 0 <= k < i && s[k] == '.' && forall|j: int|
                k < j < i ==> (#[trigger] s[j]) != '.',
            None => forall|j: int| 0 <= j < i ==> (#[trigger] s[j]) != '.',
        },
    decreases i,
{
    if i > 0 && s[i - 1] != '.' {
        lemma_last_dot(s, i - 1);
    }
}

/// A name that ends with a dot and a part without dots has that part as its extension.
pub proof fn law_extensions(directory: Str, stem: Str, ending: Str)
    requires
        stem.len() > 0,
        !stem.contains('/'),
        !ending.contains('/'),
        !ending.contains('.'),
        !is_dots(stem + seq!['.'] + ending),
    ensures
        extension(directory + seq!['/'] + (stem + seq!['.'] + ending), '/') == Some(ending),
{
    let name = stem + seq!['.'] + ending;
    if name.contains('/') {
        let k = choose|k: int| 0 <= k < name.len() && name[k] == '/';
        if k < stem.len() {
            assert(stem[k] == '/');
            assert(stem.contains('/'));
        } else {
            assert(k > stem.len());
            assert(ending[k - stem.len() - 1] == '/');
            assert(ending.contains('/'));
        }
    }
    law_file_names(directory, name);
    lemma_last_dot(name, name.len() as int);
    let k = last_dot(name, name.len() as int);
    assert(name[stem.len() as int] == '.');
    assert(k is Some);
    if k->0 > stem.len() {
        assert(ending[k->0 - stem.len() - 1] == '.');
        assert(ending.contains('.'));
    }
    assert(name.skip((stem.len() + 1) as int) =~= ending);
}

/// What lies in a directory is the directory itself or begins with the directory and a separator
/// behind it; a name that only begins like the directory's does not lie in it.
pub proof fn law_directories_hold_what_is_below_them(path: Str, root: Str)
    requires
        root.len() > 0,
        root.last() != '/',
    ensures
        lies_within(path, root, '/') <==> path == root || exists|rest: Str|
            path == #[trigger] ((root + seq!['/']) + rest),
{
    law_beginnings_and_ends(path, root + seq!['/']);
}

// ---------------------------------------------------------------------------
// The system
// ---------------------------------------------------------------------------

/// A program sleeps for 0 to 60000 milliseconds, as many as it asks for.
pub proof fn law_sleeping(n: i64, w: World)
    ensures
        n < 0 || n > 60_000 ==> sleep_call(seq![Val::Number(n)], w).0 is Err && sleep_call(
            seq![Val::Number(n)],
            w,
        ).1 == w,
        0 <= n <= 60_000 ==> {
            let (reply, after) = ask(w, "sleep"@, seq![Val::Number(n)]);
            &&& sleep_call(seq![Val::Number(n)], w).1 == after
            &&& reply is Ok ==> sleep_call(seq![Val::Number(n)], w).0 == Ok::<Val, Str>(Val::Nil)
            &&& reply is Err ==> sleep_call(seq![Val::Number(n)], w).0 is Err
        },
{
}

/// An environment variable that is set is what the host tells; one that is not set is an empty
/// text, or the default, and is known not to be there.
pub proof fn law_environment_variables(key: Str, default: Str, w: World)
    ensures
        ({
            let (reply, after) = ask(w, "env"@, seq![Val::Text(key)]);
            let args = seq![Val::Text(key)];
            &&& reply is Ok && reply->Ok_0 is OptionSome && (*reply->Ok_0->OptionSome_0) is Text
                ==> {
                &&& env_call("env"@, args, w).0 == Ok::<Val, Str>(*reply->Ok_0->OptionSome_0)
                &&& env_call("has_env"@, args, w).0 == Ok::<Val, Str>(Val::Bool(true))
                &&& env_get_call(seq![Val::Text(key), Val::Text(default)], w).0 == Ok::<Val, Str>(
                    *reply->Ok_0->OptionSome_0,
                )
            }
            &&& reply == Ok::<Val, Str>(Val::OptionNone) ==> {
                &&& env_call("env"@, args, w).0 == Ok::<Val, Str>(Val::Text(Seq::empty()))
                &&& env_call("has_env"@, args, w).0 == Ok::<Val, Str>(Val::Bool(false))
                &&& env_get_call(seq![Val::Text(key), Val::Text(default)], w).0 == Ok::<Val, Str>(
                    Val::Text(default),
                )
            }
        }),
{
    lemma_names();
}

/// The text of a variable as the host tells it.
pub open spec fn is_set_to(w: World, key: Str, text: Str) -> bool {
    variable(w, key).0 == Ok::<Val, Str>(Val::OptionSome(Box::new(Val::Text(text))))
}

/// Whether the host tells that a variable is not set.
pub open spec fn is_unset(w: World, key: Str) -> bool {
    variable(w, key).0 == Ok::<Val, Str>(Val::OptionNone)
}

/// The directory for configuration files goes by the platform: `XDG_CONFIG_HOME`, or `.config` in
/// the home directory; on macOS `Library/Application Support` in the home directory; on Windows
/// `APPDATA` or `LOCALAPPDATA`. Without any of these it is the current directory.
pub proof fn law_configuration_directories(w: World, text: Str)
    ensures
        ({
            let (reply, w1) = ask(w, "platform"@, Seq::empty());
            let (first, w2) = variable(w1, "XDG_CONFIG_HOME"@);
            let (data, w3) = variable(w1, "APPDATA"@);
            &&& reply == Ok::<Val, Str>(Val::Text("linux"@)) ==> {
                &&& is_set_to(w1, "XDG_CONFIG_HOME"@, text) ==> config_directory(w).0 == Ok::<
                    Str,
                    Str,
                >(text)
                &&& is_unset(w1, "XDG_CONFIG_HOME"@) && is_set_to(w2, "HOME"@, text)
                    ==> config_directory(w).0 == Ok::<Str, Str>(text + "/.config"@)
                &&& is_unset(w1, "XDG_CONFIG_HOME"@) && is_unset(w2, "HOME"@) ==> config_directory(
                    w,
                ).0 == Ok::<Str, Str>("."@)
            }
            &&& reply == Ok::<Val, Str>(Val::Text("macos"@)) ==> {
                &&& is_set_to(w1, "HOME"@, text) ==> config_directory(w).0 == Ok::<Str, Str>(
                    text + "/Library/Application Support"@,
                )
                &&& is_unset(w1, "HOME"@) ==> config_directory(w).0 == Ok::<Str, Str>("."@)
            }
            &&& reply == Ok::<Val, Str>(Val::Text("windows"@)) ==> {
                &&& is_set_to(w1, "APPDATA"@, text) ==> config_directory(w).0 == Ok::<Str, Str>(
                    text,
                )
                &&& is_unset(w1, "APPDATA"@) && is_set_to(w3, "LOCALAPPDATA"@, text)
                    ==> config_directory(w).0 == Ok::<Str, Str>(text)
            }
        }),
{
    reveal_strlit("linux");
    reveal_strlit("macos");
    reveal_strlit("windows");
    assert("linux"@.len() == 5 && "linux"@[0] == 'l');
    assert("macos"@.len() == 5 && "macos"@[0] == 'm');
    assert("windows"@.len() == 7);
    assert(text + Seq::<char>::empty() =~= text);
}

/// The path of a configuration file is its name in the directory for configuration files; a name
/// that could lead elsewhere is refused.
pub proof fn law_configuration_files(name: Str, w: World)
    ensures
        name.len() == 0 || name.contains('/') || name.contains('\\') || name == "."@ || name
            == ".."@ ==> config_path(name, w).0 is Err && config_path(name, w).1 == w,
        !(name.len() == 0 || name.contains('/') || name.contains('\\') || name == "."@ || name
            == ".."@) && config_directory(w).0 is Ok ==> config_path(name, w).0 == Ok::<Str, Str>(
            pushed(config_directory(w).0->Ok_0, name, w.separator),
        ),
{
}

/// Whether a file exists is what the host says; a path that leads out of the workspace does not.
pub proof fn law_existing(path: Str, w: World)
    ensures
        confined(w, path, "exists"@).0 is Err ==> exists_call(seq![Val::Text(path)], w).0 == Ok::<
            Val,
            Str,
        >(Val::Bool(false)),
        confined(w, path, "exists"@).0 is Ok ==> {
            let (place, resolved) = confined(w, path, "exists"@);
            let reply = ask(resolved, "exists"@, seq![Val::Text(place->Ok_0)]).0;
            &&& reply == Ok::<Val, Str>(Val::Bool(true)) ==> exists_call(
                seq![Val::Text(path)],
                w,
            ).0 == Ok::<Val, Str>(Val::Bool(true))
            &&& reply != Ok::<Val, Str>(Val::Bool(true)) ==> exists_call(
                seq![Val::Text(path)],
                w,
            ).0 == Ok::<Val, Str>(Val::Bool(false))
        },
{
}

/// Of the output of a process the first 1 MiB is kept, in its order, and what is dropped is
/// noticed.
pub proof fn law_process_output_is_kept_from_the_start(
    kept: Seq<u8>,
    exceeded: bool,
    chunk: Seq<u8>,
)
    requires
        kept.len() <= 1_048_576,
    ensures
        ({
            let (more, over) = output_taken(kept, exceeded, chunk);
            let all = kept + chunk;
            &&& all.len() <= 1_048_576 ==> more == all && over == exceeded
            &&& all.len() > 1_048_576 ==> more == all.take(1_048_576) && over
        }),
{
    let all = kept + chunk;
    if all.len() > 1_048_576 {
        assert(output_taken(kept, exceeded, chunk).0 =~= all.take(1_048_576));
    }
}

/// The record of a process tells its code, whether it succeeded, and what it wrote.
pub proof fn law_process_records(
    code: i64,
    success: bool,
    out: Seq<u8>,
    err: Seq<u8>,
    out_notation: Str,
    err_notation: Str,
)
    requires
        base64_bytes(out_notation) == Some(out),
        base64_bytes(err_notation) == Some(err),
        valid_utf8(out),
        valid_utf8(err),
    ensures
        ({
            let r = process_record(
                Ok(
                    Val::List(
                        seq![
                            Val::Number(code),
                            Val::Bool(success),
                            Val::Text(out_notation),
                            Val::Bool(false),
                            Val::Text(err_notation),
                            Val::Bool(false),
                        ],
                    ),
                ),
            );
            &&& r is Ok && r->Ok_0 is Dict
            &&& get(r->Ok_0->Dict_0, "status"@) == Some(Val::Number(code))
            &&& get(r->Ok_0->Dict_0, "success"@) == Some(Val::Bool(success))
            &&& get(r->Ok_0->Dict_0, "stdout"@) == Some(Val::Text(decode_utf8(out)))
            &&& get(r->Ok_0->Dict_0, "stderr"@) == Some(Val::Text(decode_utf8(err)))
        }),
{
    reveal_strlit("status");
    reveal_strlit("success");
    reveal_strlit("stdout");
    reveal_strlit("stderr");
    assert("status"@.len() == 6 && "status"@[2] == 'a');
    assert("success"@.len() == 7);
    assert("stdout"@.len() == 6 && "stdout"@[2] == 'd' && "stdout"@[3] == 'o');
    assert("stderr"@.len() == 6 && "stderr"@[2] == 'd' && "stderr"@[3] == 'e');
    let none: Rows<Val> = Seq::empty();
    let v1 = Val::Number(code);
    let v2 = Val::Bool(success);
    let v3 = Val::Text(decode_utf8(out));
    let v4 = Val::Text(decode_utf8(err));
    let a = put(none, "status"@, v1);
    let b = put(a, "success"@, v2);
    let c = put(b, "stdout"@, v3);
    lemma_put_ordered(none, "status"@, v1);
    lemma_put_ordered(a, "success"@, v2);
    lemma_put_ordered(b, "stdout"@, v3);
    lemma_get_put_same(none, "status"@, v1);
    lemma_get_put_same(a, "success"@, v2);
    lemma_get_put_same(b, "stdout"@, v3);
    lemma_get_put_same(c, "stderr"@, v4);
    lemma_get_put_other(a, "success"@, v2, "status"@);
    lemma_get_put_other(b, "stdout"@, v3, "status"@);
    lemma_get_put_other(c, "stderr"@, v4, "status"@);
    lemma_get_put_other(b, "stdout"@, v3, "success"@);
    lemma_get_put_other(c, "stderr"@, v4, "success"@);
    lemma_get_put_other(c, "stderr"@, v4, "stdout"@);
}

// ---------------------------------------------------------------------------
// The network
// ---------------------------------------------------------------------------

/// The record of a response tells its status and its body; it is a success from 200 up to 399.
pub proof fn law_response_records(status: i64, bytes: Seq<u8>, notation: Str)
    requires
        base64_bytes(notation) == Some(bytes),
        bytes.len() <= 8_388_608,
        valid_utf8(bytes),
    ensures
        ({
            let r = response_record(Ok(Val::List(seq![Val::Number(status), Val::Text(notation)])));
            &&& r is Ok && r->Ok_0 is Dict
            &&& get(r->Ok_0->Dict_0, "status"@) == Some(Val::Number(status))
            &&& get(r->Ok_0->Dict_0, "success"@) == Some(Val::Bool(200 <= status <= 399))
            &&& get(r->Ok_0->Dict_0, "body"@) == Some(Val::Text(decode_utf8(bytes)))
        }),
{
    reveal_strlit("status");
    reveal_strlit("success");
    reveal_strlit("body");
    assert("status"@.len() == 6 && "success"@.len() == 7 && "body"@.len() == 4);
    let none: Rows<Val> = Seq::empty();
    let v1 = Val::Number(status);
    let v2 = Val::Bool(200 <= status < 400);
    let v3 = Val::Text(decode_utf8(bytes));
    let a = put(none, "status"@, v1);
    let b = put(a, "success"@, v2);
    lemma_put_ordered(none, "status"@, v1);
    lemma_put_ordered(a, "success"@, v2);
    lemma_get_put_same(none, "status"@, v1);
    lemma_get_put_same(a, "success"@, v2);
    lemma_get_put_same(b, "body"@, v3);
    lemma_get_put_other(a, "success"@, v2, "status"@);
    lemma_get_put_other(b, "body"@, v3, "status"@);
    lemma_get_put_other(b, "body"@, v3, "success"@);
}

/// Addresses of the machine itself, of private and local networks and of groups are blocked, and
/// no others; an address that stands for an older one is judged as that one is.
pub proof fn law_local_addresses_are_blocked(a: u8, b: u8, c: u8, d: u8)
    ensures
        ({
            let address = Address::V4 { a, b, c, d };
            let mapped = Address::V6 {
                s0: 0,
                s1: 0,
                s2: 0,
                s3: 0,
                s4: 0,
                s5: 0xffff,
                s6: (256 * a + b) as u16,
                s7: (256 * c + d) as u16,
            };
            &&& a == 127 ==> blocked(address)
            &&& a == 10 ==> blocked(address)
            &&& a == 172 && 16 <= b < 32 ==> blocked(address)
            &&& a == 192 && b == 168 ==> blocked(address)
            &&& a == 169 && b == 254 ==> blocked(address)
            &&& 224 <= a < 240 ==> blocked(address)
            &&& a == 0 && b == 0 && c == 0 && d == 0 ==> blocked(address)
            &&& a == 255 && b == 255 && c == 255 && d == 255 ==> blocked(address)
            &&& 1 <= a < 224 && a != 10 && a != 127 && a != 169 && a != 172 && a != 192
                ==> !blocked(address)
            &&& a == 172 && !(16 <= b < 32) ==> !blocked(address)
            &&& a == 192 && b != 168 ==> !blocked(address)
            &&& a == 169 && b != 254 ==> !blocked(address)
            &&& blocked(mapped) <==> blocked(address)
        }),
{
    assert((256 * a + b) / 256 == a && (256 * a + b) % 256 == b);
    assert((256 * c + d) / 256 == c && (256 * c + d) % 256 == d);
}

/// Of the newer addresses those of the machine itself, the unspecified one, groups, and the ranges
/// for unique local and link local addresses are blocked.
pub proof fn law_newer_local_addresses_are_blocked(
    s0: u16,
    s1: u16,
    s2: u16,
    s3: u16,
    s4: u16,
    s5: u16,
    s6: u16,
    s7: u16,
)
    ensures
        ({
            let address = Address::V6 { s0, s1, s2, s3, s4, s5, s6, s7 };
            &&& s0 == 0 && s1 == 0 && s2 == 0 && s3 == 0 && s4 == 0 && s5 == 0 && s6 == 0 && (s7
                == 0 || s7 == 1) ==> blocked(address)
            &&& 0xff00 <= s0 ==> blocked(address)
            &&& 0xfc00 <= s0 < 0xfe00 ==> blocked(address)
            &&& 0xfe80 <= s0 < 0xfec0 ==> blocked(address)
            &&& 1 <= s0 < 0xfc00 ==> !blocked(address)
        }),
{
}

proof fn lemma_authority_end(s: Str, i: int, e: int)
    requires
        0 <= i <= e <= s.len(),
        forall|k: int| i <= k < e ==> (#[trigger] s[k]) != '/' && s[k] != '?' && s[k] != '#',
        e < s.len() ==> s[e] == '/' || s[e] == '?' || s[e] == '#',
    ensures
        authority_end(s, i) == e,
    decreases e - i,
{
    if i < e {
        lemma_authority_end(s, i + 1, e);
    }
}

proof fn lemma_none_before(s: Str, c: char, i: int)
    requires
        0 <= i <= s.len(),
        forall|k: int| 0 <= k < i ==> (#[trigger] s[k]) != c,
    ensures
        last_before(s, c, i) is None,
    decreases i,
{
    if i > 0 {
        lemma_none_before(s, c, i - 1);
    }
}

proof fn lemma_divided(a: Str, mark: char, b: Str)
    requires
        !a.contains(mark),
    ensures
        cut(a + seq![mark] + b, seq![mark]) == Some((a, b)),
{
    let s = a + seq![mark] + b;
    let part = seq![mark];
    assert(s.subrange(a.len() as int, (a.len() + 1) as int) =~= part);
    assert forall|j: int| 0 <= j < a.len() implies !#[trigger] crate::text::stands_at(
        s,
        part,
        j,
    ) by {
        if crate::text::stands_at(s, part, j) {
            assert(s.subrange(j, j + 1)[0] == a[j]);
            assert(part[0] == mark);
            assert(a.contains(a[j]));
        }
    }
    crate::wording::law_the_first_place_is_found(s, part, a.len() as int);
    assert(s.take(a.len() as int) =~= a);
    assert(s.skip((a.len() + 1) as int) =~= b);
}

/// A host is what stands before the port; a host without a colon has no port.
pub proof fn law_hosts_without_a_port(host: Str)
    requires
        host.len() > 0,
        host[0] != '[',
        !host.contains(':'),
    ensures
        host_and_port(host) == Ok::<(Str, Option<int>), Str>((host, None)),
{
    assert forall|k: int| 0 <= k < host.len() implies (#[trigger] host[k]) != ':' by {
        assert(host.contains(host[k]));
    }
    lemma_none_before(host, ':', host.len() as int);
}

/// A port stands behind a colon, in decimal.
pub proof fn law_hosts_with_a_port(host: Str, port: nat)
    requires
        host.len() > 0,
        host[0] != '[',
        port <= 65_535,
    ensures
        host_and_port(host + seq![':'] + crate::text::digits(port)) == Ok::<
            (Str, Option<int>),
            Str,
        >((host, Some(port as int))),
{
    let written = crate::text::digits(port);
    let s = host + seq![':'] + written;
    crate::wording::law_digits_denote_their_number(port);
    lemma_port_place(host, written, s.len() as int);
    assert(s.skip((host.len() + 1) as int) =~= written);
    assert(s.take(host.len() as int) =~= host);
    assert(s[0] == host[0]);
}

proof fn lemma_port_place(host: Str, written: Str, i: int)
    requires
        crate::text::all_digits(written),
        host.len() < i <= host.len() + 1 + written.len(),
    ensures
        last_before(host + seq![':'] + written, ':', i) == Some(host.len() as int),
    decreases i,
{
    let s = host + seq![':'] + written;
    if i > host.len() + 1 {
        assert(s[i - 1] == written[i - 1 - host.len() - 1]);
        lemma_port_place(host, written, i - 1);
    }
}

/// Whether a text can be the scheme of a URL.
pub open spec fn good_scheme(scheme: Str) -> bool {
    scheme.len() > 0 && forall|i: int|
        0 <= i < scheme.len() ==> crate::url::is_scheme_char(#[trigger] scheme[i])
}

/// Whether a text can be a host without a port: it holds none of the marks that end it.
pub open spec fn good_host(host: Str) -> bool {
    host.len() > 0 && host[0] != '[' && !host.contains(':') && !host.contains('/')
        && !host.contains('?') && !host.contains('#')
}

/// A URL is taken apart into what it was put together of: its scheme in small letters, its host,
/// its path, what stands behind the question mark and what stands behind the hash sign.
pub proof fn law_urls_are_taken_apart(
    scheme: Str,
    host: Str,
    path: Str,
    query: Str,
    fragment: Str,
)
    requires
        good_scheme(scheme),
        good_host(host),
        path.len() > 0,
        path[0] == '/',
        !path.contains('?'),
        !path.contains('#'),
        !query.contains('#'),
        size(
            scheme + "://"@ + (host + (path + seq!['?'] + query + seq!['#'] + fragment)),
        ) <= 8_192,
    ensures
        ({
            let r = url_record(
                scheme + "://"@ + (host + (path + seq!['?'] + query + seq!['#'] + fragment)),
            );
            &&& r is Ok && r->Ok_0 is Dict
            &&& get(r->Ok_0->Dict_0, "scheme"@) == Some(Val::Text(ascii_lower(scheme)))
            &&& get(r->Ok_0->Dict_0, "host"@) == Some(Val::Text(host))
            &&& get(r->Ok_0->Dict_0, "path"@) == Some(Val::Text(path))
            &&& get(r->Ok_0->Dict_0, "query"@) == Some(Val::Text(query))
            &&& get(r->Ok_0->Dict_0, "fragment"@) == Some(Val::Text(fragment))
            &&& get(r->Ok_0->Dict_0, "port"@) == Some(Val::OptionNone)
        }),
{
    let rest = path + seq!['?'] + query + seq!['#'] + fragment;
    let remainder = host + rest;
    let value = scheme + "://"@ + remainder;
    lemma_scheme_cut(scheme, remainder);
    assert forall|k: int| 0 <= k < host.len() implies (#[trigger] remainder[k]) != '/'
        && remainder[k] != '?' && remainder[k] != '#' by {
        assert(remainder[k] == host[k]);
        assert(host.contains(host[k]));
    }
    assert(rest[0] == path[0]);
    assert(remainder[host.len() as int] == rest[0]);
    lemma_authority_end(remainder, 0, host.len() as int);
    assert(remainder.take(host.len() as int) =~= host);
    assert(remainder.skip(host.len() as int) =~= rest);
    law_hosts_without_a_port(host);
    reveal_strlit("#");
    reveal_strlit("?");
    assert("#"@ =~= seq!['#']);
    assert("?"@ =~= seq!['?']);
    let front = path + seq!['?'] + query;
    if front.contains('#') {
        let k = choose|k: int| 0 <= k < front.len() && front[k] == '#';
        if k < path.len() {
            assert(path[k] == '#');
            assert(path.contains('#'));
        } else {
            assert(k > path.len());
            assert(query[k - path.len() - 1] == '#');
            assert(query.contains('#'));
        }
    }
    lemma_divided(front, '#', fragment);
    assert(rest =~= front + seq!['#'] + fragment);
    lemma_divided(path, '?', query);
    lemma_url_rows(ascii_lower(scheme), host, path, query, fragment);
}

proof fn lemma_scheme_cut(scheme: Str, remainder: Str)
    requires
        good_scheme(scheme),
    ensures
        cut(scheme + "://"@ + remainder, "://"@) == Some((scheme, remainder)),
{
    reveal_strlit("://");
    let value = scheme + "://"@ + remainder;
    let n = scheme.len() as int;
    assert(value.subrange(n, n + 3) =~= "://"@);
    assert forall|j: int| 0 <= j < n implies !#[trigger] crate::text::stands_at(
        value,
        "://"@,
        j,
    ) by {
        if crate::text::stands_at(value, "://"@, j) {
            assert(value.subrange(j, j + 3)[0] == scheme[j]);
            assert("://"@[0] == ':');
            assert(crate::url::is_scheme_char(scheme[j]));
        }
    }
    crate::wording::law_the_first_place_is_found(value, "://"@, n);
    assert(value.take(n) =~= scheme);
    assert(value.skip(n + 3) =~= remainder);
}

proof fn lemma_url_rows(scheme: Str, host: Str, path: Str, query: Str, fragment: Str)
    ensures
        ({
            let t = put(Seq::empty(), "scheme"@, Val::Text(scheme));
            let t = put(t, "host"@, Val::Text(host));
            let t = put(t, "path"@, Val::Text(path));
            let t = put(t, "query"@, Val::Text(query));
            let t = put(t, "fragment"@, Val::Text(fragment));
            let t = put(t, "port"@, Val::OptionNone);
            &&& get(t, "scheme"@) == Some(Val::Text(scheme))
            &&& get(t, "host"@) == Some(Val::Text(host))
            &&& get(t, "path"@) == Some(Val::Text(path))
            &&& get(t, "query"@) == Some(Val::Text(query))
            &&& get(t, "fragment"@) == Some(Val::Text(fragment))
            &&& get(t, "port"@) == Some(Val::OptionNone)
        }),
{
    reveal_strlit("scheme");
    reveal_strlit("host");
    reveal_strlit("path");
    reveal_strlit("query");
    reveal_strlit("fragment");
    reveal_strlit("port");
    assert("scheme"@.len() == 6);
    assert("host"@.len() == 4 && "host"@[0] == 'h');
    assert("path"@.len() == 4 && "path"@[0] == 'p' && "path"@[1] == 'a');
    assert("query"@.len() == 5);
    assert("fragment"@.len() == 8);
    assert("port"@.len() == 4 && "port"@[0] == 'p' && "port"@[1] == 'o');
    let none: Rows<Val> = Seq::empty();
    let t1 = put(none, "scheme"@, Val::Text(scheme));
    lemma_put_ordered(none, "scheme"@, Val::Text(scheme));
    lemma_get_put_same(none, "scheme"@, Val::Text(scheme));
    let t2 = put(t1, "host"@, Val::Text(host));
    lemma_put_ordered(t1, "host"@, Val::Text(host));
    lemma_get_put_same(t1, "host"@, Val::Text(host));
    lemma_get_put_other(t1, "host"@, Val::Text(host), "scheme"@);
    let t3 = put(t2, "path"@, Val::Text(path));
    lemma_put_ordered(t2, "path"@, Val::Text(path));
    lemma_get_put_same(t2, "path"@, Val::Text(path));
    lemma_get_put_other(t2, "path"@, Val::Text(path), "scheme"@);
    lemma_get_put_other(t2, "path"@, Val::Text(path), "host"@);
    let t4 = put(t3, "query"@, Val::Text(query));
    lemma_put_ordered(t3, "query"@, Val::Text(query));
    lemma_get_put_same(t3, "query"@, Val::Text(query));
    lemma_get_put_other(t3, "query"@, Val::Text(query), "scheme"@);
    lemma_get_put_other(t3, "query"@, Val::Text(query), "host"@);
    lemma_get_put_other(t3, "query"@, Val::Text(query), "path"@);
    let t5 = put(t4, "fragment"@, Val::Text(fragment));
    lemma_put_ordered(t4, "fragment"@, Val::Text(fragment));
    lemma_get_put_same(t4, "fragment"@, Val::Text(fragment));
    lemma_get_put_other(t4, "fragment"@, Val::Text(fragment), "scheme"@);
    lemma_get_put_other(t4, "fragment"@, Val::Text(fragment), "host"@);
    lemma_get_put_other(t4, "fragment"@, Val::Text(fragment), "path"@);
    lemma_get_put_other(t4, "fragment"@, Val::Text(fragment), "query"@);
    let t6 = put(t5, "port"@, Val::OptionNone);
    lemma_put_ordered(t5, "port"@, Val::OptionNone);
    lemma_get_put_same(t5, "port"@, Val::OptionNone);
    lemma_get_put_other(t5, "port"@, Val::OptionNone, "scheme"@);
    lemma_get_put_other(t5, "port"@, Val::OptionNone, "host"@);
    lemma_get_put_other(t5, "port"@, Val::OptionNone, "path"@);
    lemma_get_put_other(t5, "port"@, Val::OptionNone, "query"@);
    lemma_get_put_other(t5, "port"@, Val::OptionNone, "fragment"@);
}

/// Requests go to port 80 of an `http` host and to port 443 of an `https` host, where the URL
/// names no other port, and to no other scheme.
pub proof fn law_requests_go_to_their_port(url: Str, parts: Rows<Val>)
    requires
        url_record(url) == Ok::<Val, Str>(Val::Dict(parts)),
    ensures
        url_target(url) is Ok ==> get(parts, "scheme"@) == Some(Val::Text("http"@)) || get(
            parts,
            "scheme"@,
        ) == Some(Val::Text("https"@)),
        url_target(url) is Ok ==> get(parts, "host"@) == Some(Val::Text((url_target(url)->Ok_0).0)),
        url_target(url) is Ok && get(parts, "port"@) == Some(Val::OptionNone) && get(
            parts,
            "scheme"@,
        ) == Some(Val::Text("http"@)) ==> (url_target(url)->Ok_0).1 == 80,
        url_target(url) is Ok && get(parts, "port"@) == Some(Val::OptionNone) && get(
            parts,
            "scheme"@,
        ) == Some(Val::Text("https"@)) ==> (url_target(url)->Ok_0).1 == 443,
        url_target(url) is Ok && get(parts, "port"@) is Some && get(
            parts,
            "port"@,
        )->0 is OptionSome ==> *get(parts, "port"@)->0->OptionSome_0 == Val::Number(
            (url_target(url)->Ok_0).1 as i64,
        ),
{
    reveal_strlit("http");
    reveal_strlit("https");
    assert("http"@.len() == 4 && "https"@.len() == 5);
}

/// The body of a request is handed on if it is a text of at most 65536 bytes.
pub proof fn law_request_bodies(method: Val, url: Val, body: Str)
    ensures
        request_text(seq![method, url]) == Ok::<Option<Str>, Str>(None),
        size(body) <= 65_536 ==> request_text(seq![method, url, Val::Text(body)]) == Ok::<
            Option<Str>,
            Str,
        >(Some(body)),
        size(body) > 65_536 ==> request_text(seq![method, url, Val::Text(body)]) is Err,
{
}

// ---------------------------------------------------------------------------
// Assets
// ---------------------------------------------------------------------------

/// The types of the files that are delivered go by their extensions.
pub proof fn law_types_of_files()
    ensures
        content_type_of("html"@) == Some("text/html; charset=utf-8"@),
        content_type_of("css"@) == Some("text/css; charset=utf-8"@),
        content_type_of("js"@) == Some("text/javascript; charset=utf-8"@),
        content_type_of("mjs"@) == Some("text/javascript; charset=utf-8"@),
        content_type_of("json"@) == Some("application/json; charset=utf-8"@),
        content_type_of("map"@) == Some("application/json; charset=utf-8"@),
        content_type_of("svg"@) == Some("image/svg+xml"@),
        content_type_of("png"@) == Some("image/png"@),
        content_type_of("jpg"@) == Some("image/jpeg"@),
        content_type_of("jpeg"@) == Some("image/jpeg"@),
        content_type_of("gif"@) == Some("image/gif"@),
        content_type_of("webp"@) == Some("image/webp"@),
        content_type_of("ico"@) == Some("image/x-icon"@),
        content_type_of("avif"@) == Some("image/avif"@),
        content_type_of("woff"@) == Some("font/woff"@),
        content_type_of("woff2"@) == Some("font/woff2"@),
        content_type_of("ttf"@) == Some("font/ttf"@),
        content_type_of("otf"@) == Some("font/otf"@),
        content_type_of("wasm"@) == Some("application/wasm"@),
        content_type_of("txt"@) == Some("text/plain; charset=utf-8"@),
{
    reveal_strlit("html");
    reveal_strlit("css");
    reveal_strlit("js");
    reveal_strlit("mjs");
    reveal_strlit("json");
    reveal_strlit("map");
    reveal_strlit("svg");
    reveal_strlit("png");
    reveal_strlit("jpg");
    reveal_strlit("jpeg");
    reveal_strlit("gif");
    reveal_strlit("webp");
    reveal_strlit("ico");
    reveal_strlit("avif");
    reveal_strlit("woff");
    reveal_strlit("woff2");
    reveal_strlit("ttf");
    reveal_strlit("otf");
    reveal_strlit("wasm");
    reveal_strlit("txt");
    assert("html"@.len() == 4 && "html"@[0] == 'h');
    assert("css"@.len() == 3 && "css"@[0] == 'c');
    assert("js"@.len() == 2);
    assert("mjs"@.len() == 3 && "mjs"@[0] == 'm' && "mjs"@[1] == 'j');
    assert("json"@.len() == 4 && "json"@[0] == 'j' && "json"@[1] == 's');
    assert("map"@.len() == 3 && "map"@[0] == 'm' && "map"@[1] == 'a');
    assert("svg"@.len() == 3 && "svg"@[0] == 's');
    assert("png"@.len() == 3 && "png"@[0] == 'p');
    assert("jpg"@.len() == 3 && "jpg"@[0] == 'j');
    assert("jpeg"@.len() == 4 && "jpeg"@[0] == 'j' && "jpeg"@[1] == 'p');
    assert("gif"@.len() == 3 && "gif"@[0] == 'g');
    assert("webp"@.len() == 4 && "webp"@[0] == 'w' && "webp"@[1] == 'e');
    assert("ico"@.len() == 3 && "ico"@[0] == 'i');
    assert("avif"@.len() == 4 && "avif"@[0] == 'a');
    assert("woff"@.len() == 4 && "woff"@[0] == 'w' && "woff"@[1] == 'o');
    assert("woff2"@.len() == 5);
    assert("ttf"@.len() == 3 && "ttf"@[0] == 't' && "ttf"@[1] == 't');
    assert("otf"@.len() == 3 && "otf"@[0] == 'o');
    assert("wasm"@.len() == 4 && "wasm"@[0] == 'w' && "wasm"@[1] == 'a');
    assert("txt"@.len() == 3 && "txt"@[0] == 't' && "txt"@[1] == 'x');
}

/// Files with any other extension are not delivered.
pub proof fn law_other_files_are_not_delivered(ext: Str)
    requires
        ext != "html"@,
        ext != "css"@,
        ext != "js"@,
        ext != "mjs"@,
        ext != "json"@,
        ext != "map"@,
        ext != "svg"@,
        ext != "png"@,
        ext != "jpg"@,
        ext != "jpeg"@,
        ext != "gif"@,
        ext != "webp"@,
        ext != "ico"@,
        ext != "avif"@,
        ext != "woff"@,
        ext != "woff2"@,
        ext != "ttf"@,
        ext != "otf"@,
        ext != "wasm"@,
        ext != "txt"@,
    ensures
        content_type_of(ext) is None,
{
}

/// An asset that is found is delivered; where it is not found, the fallback is tried in its stead.
pub proof fn law_fallbacks_stand_in(asset: Str, root: Str, fallback: Str, w: World)
    ensures
        ({
            let args = seq![Val::Text(asset), Val::Text(root), Val::Text(fallback)];
            let (r, after) = served_asset(asset, root, w);
            &&& r is Err ==> static_spa(args, w) == (r, after)
            &&& r is Ok && r->Ok_0 is Dict && get(r->Ok_0->Dict_0, "status"@) == Some(
                Val::Number(404),
            ) ==> static_spa(args, w) == served_asset(fallback, root, after)
            &&& r is Ok && r->Ok_0 is Dict && get(r->Ok_0->Dict_0, "status"@) != Some(
                Val::Number(404),
            ) ==> static_spa(args, w) == (r, after)
        }),
{
}

/// An asset is delivered with status 200, the type of its file and its content: as text where it is
/// text, and otherwise in base64.
pub proof fn law_assets_are_delivered(kind: Str, bytes: Seq<u8>)
    ensures
        ({
            let r = asset_response(kind, bytes);
            &&& r is Dict
            &&& get(r->Dict_0, "status"@) == Some(Val::Number(200))
            &&& get(r->Dict_0, "content_type"@) == Some(Val::Text(kind))
            &&& valid_utf8(bytes) ==> get(r->Dict_0, "body"@) == Some(
                Val::Text(decode_utf8(bytes)),
            )
            &&& !valid_utf8(bytes) ==> get(r->Dict_0, "body_base64"@) == Some(
                Val::Text(base64_text(bytes)),
            )
        }),
{
    reveal_strlit("status");
    reveal_strlit("content_type");
    reveal_strlit("body");
    reveal_strlit("body_base64");
    reveal_strlit("body_encoding");
    assert("status"@.len() == 6 && "content_type"@.len() == 12 && "body"@.len() == 4);
    assert("body_base64"@.len() == 11 && "body_encoding"@.len() == 13);
    let none: Rows<Val> = Seq::empty();
    let v1 = Val::Number(200);
    let v2 = Val::Text(kind);
    let v3 = Val::Text(decode_utf8(bytes));
    let v4 = Val::Text(base64_text(bytes));
    let v5 = Val::Text("base64"@);
    let a = put(none, "status"@, v1);
    let b = put(a, "content_type"@, v2);
    let c = put(b, "body_base64"@, v4);
    lemma_put_ordered(none, "status"@, v1);
    lemma_put_ordered(a, "content_type"@, v2);
    lemma_put_ordered(b, "body_base64"@, v4);
    lemma_get_put_same(none, "status"@, v1);
    lemma_get_put_same(a, "content_type"@, v2);
    lemma_get_put_same(b, "body"@, v3);
    lemma_get_put_same(b, "body_base64"@, v4);
    lemma_get_put_other(a, "content_type"@, v2, "status"@);
    lemma_get_put_other(b, "body"@, v3, "status"@);
    lemma_get_put_other(b, "body"@, v3, "content_type"@);
    lemma_get_put_other(b, "body_base64"@, v4, "status"@);
    lemma_get_put_other(b, "body_base64"@, v4, "content_type"@);
    lemma_get_put_other(c, "body_encoding"@, v5, "status"@);
    lemma_get_put_other(c, "body_encoding"@, v5, "content_type"@);
    lemma_get_put_other(c, "body_encoding"@, v5, "body_base64"@);
}

/// An asset is read if it is a file of at most 2 MiB; what is no file is not there.
pub proof fn law_assets_are_files(file: bool, bytes: i64)
    ensures
        ({
            let r = asset_readable(Ok(Val::List(seq![Val::Bool(file), Val::Number(bytes)])));
            &&& !file ==> r == Ok::<bool, Str>(false)
            &&& file && bytes <= 2_097_152 ==> r == Ok::<bool, Str>(true)
            &&& file && bytes > 2_097_152 ==> r is Err
        }),
{
}

// ---------------------------------------------------------------------------
// Modules
// ---------------------------------------------------------------------------

/// A module is imported by a path that is not empty, not absolute and does not lead upwards; any
/// other is refused.
pub proof fn law_module_paths(raw: Str, sep: char)
    ensures
        import_path(raw, sep) is Ok ==> import_path(raw, sep)->Ok_0 == named_path(raw),
        import_path(raw, sep) is Ok <==> {
            &&& named_path(raw).len() > 0
            &&& !is_absolute(named_path(raw), sep)
            &&& forall|i: int|
                0 <= i < components(named_path(raw), sep).len() ==> !is_dots(
                    piece(named_path(raw), #[trigger] components(named_path(raw), sep)[i]),
                )
        },
{
}

/// A module is looked for under its base, by its path as it is and with `.zp` behind it.
pub proof fn law_module_places(base: Str, path: Str, sep: char)
    ensures
        module_places(base, path, sep).0 == pushed(base, path, sep),
        module_places(base, path, sep).1 == pushed(base, path, sep) + ".zp"@,
{
}

/// An import is circular if and only if the module is being loaded already.
pub proof fn law_circular_imports(loading: Seq<Str>, path: Str)
    ensures
        import_cycle(loading, path) is Some <==> loading.contains(path),
{
    lemma_place(loading, path, 0);
}

proof fn lemma_place(loading: Seq<Str>, path: Str, i: int)
    requires
        0 <= i <= loading.len(),
    ensures
        crate::modules::place_of(loading, path, i) is Some <==> exists|k: int|
            i <= k < loading.len() && #[trigger] loading[k] == path,
    decreases loading.len() - i,
{
    if i < loading.len() && loading[i] != path {
        lemma_place(loading, path, i + 1);
    }
}

/// An asset that is not there is answered with status 404.
pub proof fn law_missing_assets_are_told()
    ensures
        asset_not_found() is Dict,
        get(asset_not_found()->Dict_0, "status"@) == Some(Val::Number(404)),
{
    reveal_strlit("status");
    reveal_strlit("content_type");
    reveal_strlit("body");
    assert("status"@.len() == 6);
    assert("content_type"@.len() == 12);
    assert("body"@.len() == 4);
    let none: Rows<Val> = Seq::empty();
    let t1 = put(none, "status"@, Val::Number(404));
    lemma_put_ordered(none, "status"@, Val::Number(404));
    lemma_get_put_same(none, "status"@, Val::Number(404));
    let t2 = put(t1, "content_type"@, Val::Text("application/json; charset=utf-8"@));
    lemma_put_ordered(t1, "content_type"@, Val::Text("application/json; charset=utf-8"@));
    lemma_get_put_same(t1, "content_type"@, Val::Text("application/json; charset=utf-8"@));
    lemma_get_put_other(t1, "content_type"@, Val::Text("application/json; charset=utf-8"@), "status"@);
    let t3 = put(t2, "body"@, Val::Text(shown_json(not_found_document())));
    lemma_put_ordered(t2, "body"@, Val::Text(shown_json(not_found_document())));
    lemma_get_put_same(t2, "body"@, Val::Text(shown_json(not_found_document())));
    lemma_get_put_other(t2, "body"@, Val::Text(shown_json(not_found_document())), "status"@);
    lemma_get_put_other(t2, "body"@, Val::Text(shown_json(not_found_document())), "content_type"@);
}

/// The path of an asset is what its escapes stand for: 1 to 2048 bytes of a relative path without
/// dots as names, backslashes or zero bytes.
pub proof fn law_asset_paths(asset: Str, sep: char)
    ensures
        asset_path(asset, sep) is Ok <==> {
            &&& percent_decoded(asset) is Ok
            &&& 0 < percent_decoded(asset)->Ok_0.len()
            &&& size(percent_decoded(asset)->Ok_0) <= 2_048
            &&& !percent_decoded(asset)->Ok_0.contains('\0')
            &&& !percent_decoded(asset)->Ok_0.contains('\\')
            &&& is_plain(percent_decoded(asset)->Ok_0, sep)
        },
        asset_path(asset, sep) is Ok ==> asset_path(asset, sep)->Ok_0 == percent_decoded(
            asset,
        )->Ok_0,
{
}

/// The bytes of an asset that the host delivers become its response, if there are at most 2 MiB of
/// them.
pub proof fn law_asset_bytes(kind: Str, notation: Str, bytes: Seq<u8>)
    requires
        base64_bytes(notation) == Some(bytes),
    ensures
        bytes.len() <= 2_097_152 ==> asset_reply(kind, Ok(Val::Text(notation))) == Ok::<Val, Str>(
            asset_response(kind, bytes),
        ),
        bytes.len() > 2_097_152 ==> asset_reply(kind, Ok(Val::Text(notation))) is Err,
{
}

/// A path whose last name is two dots leads upwards.
pub proof fn law_two_dots_lead_upwards(directory: Str)
    ensures
        climbs(directory + seq!['/'] + seq!['.', '.'], '/'),
        !is_plain(directory + seq!['/'] + seq!['.', '.'], '/'),
{
    let name = seq!['.', '.'];
    let s = directory + seq!['/'] + name;
    lemma_last_component(directory, name, 0);
    let all = components(s, '/');
    assert(s.subrange((directory.len() + 1) as int, s.len() as int) =~= name);
    assert(is_dots(piece(s, all[all.len() - 1])));
}

/// Behind a drive letter and a colon, a path on Windows is absolute if a separator follows, and
/// any path with a drive takes the place of the one before it.
pub proof fn law_drives(letter: char, rest: Str, path: Str)
    requires
        'a' <= letter <= 'z' || 'A' <= letter <= 'Z',
    ensures
        is_absolute(seq![letter, ':', '\\'] + rest, '\\'),
        is_absolute(seq![letter, ':', '/'] + rest, '\\'),
        rest.len() > 0 && rest[0] != '\\' && rest[0] != '/' ==> !is_absolute(
            seq![letter, ':'] + rest,
            '\\',
        ),
        pushed(path, seq![letter, ':'] + rest, '\\') == seq![letter, ':'] + rest,
{
    let a = seq![letter, ':', '\\'] + rest;
    let b = seq![letter, ':', '/'] + rest;
    let c = seq![letter, ':'] + rest;
    assert(a[0] == letter && a[1] == ':' && a[2] == '\\');
    assert(b[0] == letter && b[1] == ':' && b[2] == '/');
    assert(c[0] == letter && c[1] == ':');
    if rest.len() > 0 {
        assert(c[2] == rest[0]);
    }
}

/// Brackets around a host are not part of its name.
pub proof fn law_brackets_around_hosts(host: Str)
    requires
        host.len() > 0,
        host[0] != '[',
        host.last() != ']',
    ensures
        bare_host(host) == host,
        bare_host(seq!['['] + host + seq![']']) == host,
{
    assert(brackets_end(host, 0) == 0);
    assert(host.skip(0) =~= host);
    assert(host.take(host.len() as int) =~= host);
    let s = seq!['['] + host + seq![']'];
    assert(s[1] == host[0]);
    assert(brackets_end(s, 1) == 1);
    assert(brackets_end(s, 0) == 1);
    let rest = s.skip(1);
    assert(rest =~= host + seq![']']);
    assert(brackets_start(rest, host.len() as int) == host.len());
    assert(brackets_start(rest, rest.len() as int) == host.len());
    assert(rest.take(host.len() as int) =~= host);
}

/// The time is the seconds of the host's clock.
pub proof fn law_the_time(seconds: Val, nanos: Val, w: World)
    requires
        ask(w, "clock"@, Seq::empty()).0 == Ok::<Val, Str>(Val::List(seq![seconds, nanos])),
    ensures
        seconds is Number ==> now_call(Seq::empty(), w).0 == Ok::<Val, Str>(seconds),
        !(seconds is Number) ==> now_call(Seq::empty(), w).0 is Err,
{
}

/// A path that is named as it is, or in quotation marks, is the path of an import.
pub proof fn law_named_paths(path: Str)
    requires
        path.len() > 0,
        !path.contains('"'),
        !is_space(path[0]),
        !is_space(path.last()),
        !has_prefix(path, "import "@),
        !has_suffix(path, ";"@),
        !has_suffix(path, " as"@),
    ensures
        named_path(path) == path,
        named_path(seq!['"'] + path + seq!['"']) == path,
{
    lemma_trim_same(path);
    lemma_unquoted(path);
    reveal_strlit("import ");
    reveal_strlit(";");
    reveal_strlit(" as");
    let s = seq!['"'] + path + seq!['"'];
    assert(s[0] == '"' && s.last() == '"');
    lemma_trim_same(s);
    if has_prefix(s, "import "@) {
        assert(s.subrange(0, 7)[0] == "import "@[0]);
    }
    if has_suffix(s, ";"@) {
        assert(s.subrange(s.len() - 1, s.len() as int)[0] == ";"@[0]);
    }
    if has_suffix(s, " as"@) {
        assert(s.subrange(s.len() - 3, s.len() as int)[2] == " as"@[2]);
    }
}

proof fn lemma_unquoted(path: Str)
    requires
        path.len() > 0,
        !path.contains('"'),
    ensures
        unquoted(path) == path,
        unquoted(seq!['"'] + path + seq!['"']) == path,
{
    assert(path.contains(path[0]) && path.contains(path.last()));
    assert(quotes_end(path, 0) == 0);
    assert(quotes_start(path, path.len() as int, 0) == path.len());
    assert(path.subrange(0, path.len() as int) =~= path);
    let s = seq!['"'] + path + seq!['"'];
    let n = path.len() as int;
    assert(s[1] == path[0] && s[n] == path[n - 1] && s[n + 1] == '"');
    assert(quotes_end(s, 1) == 1);
    assert(quotes_end(s, 0) == 1);
    assert(quotes_start(s, n + 1, 1) == n + 1);
    assert(quotes_start(s, n + 2, 1) == n + 1);
    assert(s.subrange(1, n + 1) =~= path);
}

// ---------------------------------------------------------------------------
// What is handed to the host
// ---------------------------------------------------------------------------

/// In a workspace the functions on files work on the place that a path leads to, and a path that
/// is refused is neither read nor written.
pub proof fn law_files_stay_in_the_workspace(path: Str, content: Str, w: World)
    ensures
        confined(w, path, "read_text"@).0 is Err ==> read_text_call(seq![Val::Text(path)], w) == (
            Err::<Val, Str>(confined(w, path, "read_text"@).0->Err_0),
            confined(w, path, "read_text"@).1,
        ),
        confined(w, path, "read_text"@).0 is Ok ==> read_text_call(seq![Val::Text(path)], w).1
            == ask(
            confined(w, path, "read_text"@).1,
            "read_text"@,
            seq![
                Val::Text(confined(w, path, "read_text"@).0->Ok_0),
                Val::Text("read_text"@),
            ],
        ).1,
        confined(w, path, "write_text"@).0 is Err ==> write_text_call(
            seq![Val::Text(path), Val::Text(content)],
            w,
        ) == (
            Err::<Val, Str>(confined(w, path, "write_text"@).0->Err_0),
            confined(w, path, "write_text"@).1,
        ),
        confined(w, path, "write_text"@).0 is Ok && size(content) <= 8_388_608 ==> write_text_call(
            seq![Val::Text(path), Val::Text(content)],
            w,
        ).1 == ask(
            confined(w, path, "write_text"@).1,
            "write_text"@,
            seq![
                Val::Text(confined(w, path, "write_text"@).0->Ok_0),
                Val::Text(content),
                Val::Text("write_text"@),
            ],
        ).1,
        confined(w, path, "file_metadata"@).0 is Err ==> metadata_call(
            seq![Val::Text(path)],
            w,
        ).0 is Err,
        confined(w, path, "file_metadata"@).0 is Ok ==> metadata_call(seq![Val::Text(path)], w)
            == ({
            let (reply, after) = ask(
                confined(w, path, "file_metadata"@).1,
                "file_metadata"@,
                seq![Val::Text(confined(w, path, "file_metadata"@).0->Ok_0)],
            );
            (metadata_record(reply), after)
        }),
{
}

/// A file is replaced as a whole with a text of at most 8 MiB, at a path that names a file.
pub proof fn law_files_are_replaced(path: Str, content: Str, w: World)
    requires
        confined(w, path, "atomic_write"@).0 is Ok,
    ensures
        ({
            let (place, resolved) = confined(w, path, "atomic_write"@);
            let called = atomic_write_call(seq![Val::Text(path), Val::Text(content)], w);
            let (reply, after) = ask(
                resolved,
                "atomic_write"@,
                seq![Val::Text(place->Ok_0), Val::Text(content)],
            );
            &&& size(content) > 8_388_608 ==> called.0 is Err && called.1 == resolved
            &&& file_name(place->Ok_0, w.separator) is None ==> called.0 is Err && called.1
                == resolved
            &&& size(content) <= 8_388_608 && file_name(place->Ok_0, w.separator) is Some
                ==> called.1 == after && (called.0 is Ok <==> reply is Ok)
        }),
{
}

/// A process is run with its command and its arguments, which have to be texts.
pub proof fn law_processes_are_run_as_given(command: Str, arguments: Seq<Val>, w: World)
    requires
        !w.untrusted,
    ensures
        ({
            let args = seq![Val::Text(command), Val::List(arguments)];
            let texts = forall|i: int|
                0 <= i < arguments.len() ==> (#[trigger] arguments[i]) is Text;
            &&& texts ==> process_call(args, w) == ({
                let (reply, after) = ask(w, "process_run"@, args);
                (process_record(reply), after)
            })
            &&& !texts ==> process_call(args, w).0 is Err && process_call(args, w).1 == w
        }),
{
}

/// A request is handed to the host as it was made, if its URL leads to a host and its body is
/// within the limit; a plain `http_get` is a request with the method GET.
pub proof fn law_requests_are_made_as_given(method: Str, url: Str, w: World)
    requires
        !w.untrusted,
    ensures
        ({
            let args = seq![Val::Text(method), Val::Text(url)];
            &&& url_target(url) is Ok ==> http_call(args, w) == ({
                let (reply, after) = ask(w, "http_request"@, args);
                (response_record(reply), after)
            })
            &&& url_target(url) is Err ==> http_call(args, w).0 is Err && http_call(args, w).1 == w
            &&& http_get_call(seq![Val::Text(url)], w) == http_call(
                seq![Val::Text("GET"@), Val::Text(url)],
                w,
            )
        }),
{
}

/// Encoding a text for a URL and decoding it are what their names say: what is encoded is decoded
/// to the text again.
pub proof fn law_url_functions(s: Str)
    ensures
        url_call("url_encode"@, seq![Val::Text(s)]) is Ok,
        url_call("url_encode"@, seq![Val::Text(s)])->Ok_0 is Text,
        url_call("url_decode"@, seq![url_call("url_encode"@, seq![Val::Text(s)])->Ok_0]) == Ok::<
            Val,
            Str,
        >(Val::Text(s)),
{
    lemma_names();
    crate::roundtrip::law_url_escapes_are_undone(s);
}

/// An asset is looked for in its directory by its path, and delivered with the type of its file;
/// one with a type that is not delivered is not there, and a bad path is an error.
pub proof fn law_assets_are_looked_for(asset: Str, root: Str, w: World)
    requires
        root.len() > 0,
    ensures
        ({
            let path = asset_path(asset, w.separator);
            let kind = content_type(path->Ok_0, w.separator);
            let (place, resolved) = confined(w, root, "web_static"@);
            let (reply, after) = ask(
                resolved,
                "find_asset"@,
                seq![Val::Text(place->Ok_0), Val::Text(path->Ok_0)],
            );
            let found = asset_place(reply, w.separator);
            let served = served_asset(asset, root, w);
            &&& path is Err ==> served.0 is Err && served.1 == w
            &&& path is Ok && kind is None ==> served == (
                Ok::<Val, Str>(asset_not_found()),
                w,
            )
            &&& path is Ok && kind is Some && place is Err ==> served.0 is Err
            &&& path is Ok && kind is Some && place is Ok && found is Err ==> served.0 is Err
            &&& path is Ok && kind is Some && place is Ok && found is Ok && found->Ok_0 is None
                ==> served == (Ok::<Val, Str>(asset_not_found()), after)
            &&& path is Ok && kind is Some && place is Ok && found is Ok && found->Ok_0 is Some
                ==> served == delivered_asset(kind->0, found->Ok_0->0, after)
        }),
{
}

/// A URL of more than 8192 bytes, without a scheme or without a host is refused.
pub proof fn law_bad_urls_are_refused(value: Str)
    ensures
        size(value) > 8_192 ==> url_record(value) is Err,
        cut(value, "://"@) is None ==> url_record(value) is Err,
        cut(value, "://"@) is Some && (cut(value, "://"@)->0).0.len() == 0 ==> url_record(
            value,
        ) is Err,
        cut(value, "://"@) is Some && (cut(value, "://"@)->0).1.len() == 0 ==> url_record(
            value,
        ) is Err,
{
}

/// A host in brackets keeps its brackets, and a port may stand behind them.
pub proof fn law_hosts_in_brackets(inside: Str, port: nat)
    requires
        !inside.contains(']'),
        port <= 65_535,
    ensures
        host_and_port(seq!['['] + inside + seq![']']) == Ok::<(Str, Option<int>), Str>(
            (seq!['['] + inside + seq![']'], None),
        ),
        host_and_port(
            seq!['['] + inside + seq![']'] + seq![':'] + crate::text::digits(port),
        ) == Ok::<(Str, Option<int>), Str>(
            (seq!['['] + inside + seq![']'], Some(port as int)),
        ),
{
    reveal_strlit("]");
    assert("]"@ =~= seq![']']);
    let host = seq!['['] + inside + seq![']'];
    let written = crate::text::digits(port);
    crate::wording::law_digits_denote_their_number(port);
    assert(crate::text::is_digit(written[0]));
    lemma_bracket(inside, Seq::empty());
    assert(host + Seq::<char>::empty() =~= host);
    assert(host.skip(host.len() as int) =~= Seq::<char>::empty());
    assert(host.take(host.len() as int) =~= host);
    let s = host + seq![':'] + written;
    lemma_bracket(inside, seq![':'] + written);
    assert(host + (seq![':'] + written) =~= s);
    let rest = s.skip(host.len() as int);
    assert(rest =~= seq![':'] + written);
    assert(rest.skip(1) =~= written);
    assert(s.take(host.len() as int) =~= host);
}

proof fn lemma_bracket(inside: Str, behind: Str)
    requires
        !inside.contains(']'),
    ensures
        crate::text::find(seq!['['] + inside + seq![']'] + behind, seq![']']) == Some(
            (inside.len() + 1) as int,
        ),
{
    let s = seq!['['] + inside + seq![']'] + behind;
    let n = (inside.len() + 1) as int;
    assert(s.subrange(n, n + 1) =~= seq![']']);
    assert forall|j: int| 0 <= j < n implies !#[trigger] crate::text::stands_at(
        s,
        seq![']'],
        j,
    ) by {
        if crate::text::stands_at(s, seq![']'], j) {
            assert(s.subrange(j, j + 1)[0] == s[j]);
            if j > 0 {
                assert(s[j] == inside[j - 1]);
                assert(inside.contains(inside[j - 1]));
            }
        }
    }
    crate::wording::law_the_first_place_is_found(s, seq![']'], n);
}

/// The digits of escapes go from 0 to 9 and from A to F, small or capital, and two of them make a
/// byte.
pub proof fn law_digits_of_escapes(a: u8, b: u8)
    ensures
        48 <= a <= 57 ==> hex_value(a) == Some((a - 48) as u8),
        65 <= a <= 70 ==> hex_value(a) == Some((a - 55) as u8),
        97 <= a <= 102 ==> hex_value(a) == Some((a - 87) as u8),
        hex_value(a) is Some && a != 43 && hex_value(b) is Some ==> hex_pair(a, b) == Some(
            (16 * hex_value(a)->0 + hex_value(b)->0) as u8,
        ),
        hex_value(a) is None && a != 43 ==> hex_pair(a, b) is None,
        hex_value(b) is None ==> hex_pair(a, b) is None,
{
}

// ---------------------------------------------------------------------------
// Functions of modules
// ---------------------------------------------------------------------------

/// Whether a frame binds the name of a function to the function.
pub open spec fn binds(w: World, frame: int, name: Str, f: Fun) -> bool {
    get(names_of(w, frame), name) == Some(Val::Callable(f))
}

proof fn lemma_other_names(w: World, frame: int, funcs: Rows<Fun>, j: nat, name: Str)
    requires
        frames_ordered(w.frames),
        forall|m: int| j <= m < funcs.len() ==> (#[trigger] funcs[m]).0 != name,
    ensures
        get(names_of(bound_in(w, frame, funcs, j), frame), name) == get(names_of(w, frame), name),
    decreases funcs.len() - j,
{
    if j < funcs.len() {
        let key = funcs[j as int].0;
        let f = Val::Callable(funcs[j as int].1);
        let next = if has_prefix(key, fn_prefix()) {
            w
        } else {
            insert_local(w, frame, key, f)
        };
        lemma_insert_ordered(w, frame, key, f);
        if 0 <= frame < w.frames.len() {
            lemma_get_put_other(w.frames[frame].names, key, f, name);
        }
        lemma_other_names(next, frame, funcs, j + 1, name);
    }
}

proof fn lemma_insert_ordered(w: World, frame: int, name: Str, value: Val)
    requires
        frames_ordered(w.frames),
    ensures
        frames_ordered(insert_local(w, frame, name, value).frames),
        insert_local(w, frame, name, value).frames.len() == w.frames.len(),
        forall|k: int|
            0 <= k < w.frames.len() && k != frame ==> insert_local(
                w,
                frame,
                name,
                value,
            ).frames[k] == #[trigger] w.frames[k],
{
    if 0 <= frame < w.frames.len() {
        lemma_put_ordered(w.frames[frame].names, name, value);
        let after = insert_local(w, frame, name, value);
        assert forall|k: int| 0 <= k < after.frames.len() implies ordered(
            (#[trigger] after.frames[k]).names,
        ) by {
            if k != frame {
                assert(after.frames[k] == w.frames[k]);
            }
        }
    }
}

proof fn lemma_bound_in_keeps(w: World, frame: int, funcs: Rows<Fun>, j: nat)
    requires
        frames_ordered(w.frames),
    ensures
        frames_ordered(bound_in(w, frame, funcs, j).frames),
        bound_in(w, frame, funcs, j).frames.len() == w.frames.len(),
        forall|k: int|
            0 <= k < w.frames.len() && k != frame ==> bound_in(w, frame, funcs, j).frames[k]
                == #[trigger] w.frames[k],
    decreases funcs.len() - j,
{
    if j < funcs.len() {
        let key = funcs[j as int].0;
        let f = Val::Callable(funcs[j as int].1);
        let next = if has_prefix(key, fn_prefix()) {
            w
        } else {
            insert_local(w, frame, key, f)
        };
        lemma_insert_ordered(w, frame, key, f);
        lemma_bound_in_keeps(next, frame, funcs, j + 1);
        assert forall|k: int| 0 <= k < w.frames.len() && k != frame implies bound_in(
            w,
            frame,
            funcs,
            j,
        ).frames[k] == #[trigger] w.frames[k] by {
            assert(next.frames[k] == w.frames[k]);
        }
    }
}

proof fn lemma_bound_in(w: World, frame: int, funcs: Rows<Fun>, j: nat, k: int)
    requires
        frames_ordered(w.frames),
        ordered(funcs),
        0 <= frame < w.frames.len(),
        j <= k < funcs.len(),
        !has_prefix(funcs[k].0, fn_prefix()),
    ensures
        binds(bound_in(w, frame, funcs, j), frame, funcs[k].0, funcs[k].1),
    decreases funcs.len() - j,
{
    let key = funcs[j as int].0;
    let f = Val::Callable(funcs[j as int].1);
    lemma_insert_ordered(w, frame, key, f);
    let next = if has_prefix(key, fn_prefix()) {
        w
    } else {
        insert_local(w, frame, key, f)
    };
    if j < k {
        lemma_bound_in(next, frame, funcs, j + 1, k);
    } else {
        lemma_get_put_same(w.frames[frame].names, key, f);
        assert forall|m: int| j + 1 <= m < funcs.len() implies (#[trigger] funcs[m]).0 != key by {
            crate::text::lemma_less_total(key, funcs[m].0);
        }
        lemma_other_names(next, frame, funcs, j + 1, key);
    }
}

proof fn lemma_attached(w: World, funcs: Rows<Fun>, i: nat, frame: int, k: int)
    requires
        frames_ordered(w.frames),
        ordered(funcs),
        0 <= frame < w.frames.len(),
        0 <= k < funcs.len(),
        !has_prefix(funcs[k].0, fn_prefix()),
        binds(w, frame, funcs[k].0, funcs[k].1) || exists|a: int|
            i <= a < funcs.len() && (#[trigger] funcs[a]).1.closure == frame,
    ensures
        binds(attached(w, funcs, i), frame, funcs[k].0, funcs[k].1),
    decreases funcs.len() - i,
{
    if i < funcs.len() {
        let at = funcs[i as int].1.closure as int;
        let next = bound_in(w, at, funcs, 0);
        lemma_bound_in_keeps(w, at, funcs, 0);
        if at == frame {
            lemma_bound_in(w, frame, funcs, 0, k);
        } else {
            assert(next.frames[frame] == w.frames[frame]);
            if !binds(w, frame, funcs[k].0, funcs[k].1) {
                let a = choose|a: int|
                    i <= a < funcs.len() && (#[trigger] funcs[a]).1.closure == frame;
                assert(i + 1 <= a && funcs[a].1.closure == frame);
            }
        }
        lemma_attached(next, funcs, i + 1, frame, k);
    }
}

/// The functions of a module see each other: in the closure of each of them every function of the
/// module is bound to its name.
pub proof fn law_functions_of_a_module_see_each_other(w: World, funcs: Rows<Fun>, a: int, k: int)
    requires
        frames_ordered(w.frames),
        ordered(funcs),
        0 <= a < funcs.len(),
        0 <= k < funcs.len(),
        funcs[a].1.closure < w.frames.len(),
        !has_prefix(funcs[k].0, fn_prefix()),
    ensures
        binds(attached(w, funcs, 0), funcs[a].1.closure as int, funcs[k].0, funcs[k].1),
{
    assert(funcs[a].1.closure == funcs[a].1.closure as int);
    lemma_attached(w, funcs, 0, funcs[a].1.closure as int, k);
}

// ---------------------------------------------------------------------------
// Escapes
// ---------------------------------------------------------------------------

/// Whether a character may stand in a URL as it is.
pub open spec fn stands_for_itself(c: char) -> bool {
    '0' <= c <= '9' || 'a' <= c <= 'z' || 'A' <= c <= 'Z' || c == '-' || c == '_' || c == '.' || c
        == '~'
}

proof fn lemma_escapes(bytes: Seq<u8>, n: nat)
    requires
        n <= bytes.len(),
    ensures
        forall|i: int|
            0 <= i < escape_all(bytes, n).len() ==> stands_for_itself(
                #[trigger] escape_all(bytes, n)[i],
            ) || escape_all(bytes, n)[i] == '%',
        n <= escape_all(bytes, n).len() <= 3 * n,
        (forall|i: int| 0 <= i < n ==> stands_for_itself(#[trigger] bytes[i] as char))
            <==> escape_all(bytes, n).len() == n,
        (forall|i: int| 0 <= i < n ==> stands_for_itself(#[trigger] bytes[i] as char)) ==> forall|
            i: int,
        |
            0 <= i < n ==> #[trigger] escape_all(bytes, n)[i] == bytes[i] as char,
    decreases n,
{
    if n > 0 {
        let m = (n - 1) as nat;
        lemma_escapes(bytes, m);
        let b = bytes[m as int];
        assert(escape_all(bytes, n) == escape_all(bytes, m) + escape(b));
        assert(stands_for_itself(b as char) <==> escape(b).len() == 1);
        if escape_all(bytes, n).len() == n {
            assert(escape(b).len() == 1 && escape_all(bytes, m).len() == m);
        }
    }
}

/// What a text is encoded to for a URL consists of letters, digits, the four marks `-`, `_`, `.`
/// and `~` and percent signs; it is longer than the bytes of the text exactly if the text holds
/// anything but those letters, digits and marks, and is those bytes otherwise.
pub proof fn law_encoded_texts(s: Str)
    ensures
        ({
            let bytes = encode_utf8(s);
            let encoded = percent_encoded(s);
            &&& forall|i: int|
                0 <= i < encoded.len() ==> stands_for_itself(#[trigger] encoded[i]) || encoded[i]
                    == '%'
            &&& bytes.len() <= encoded.len() <= 3 * bytes.len()
            &&& (forall|i: int| 0 <= i < bytes.len() ==> stands_for_itself(#[trigger] bytes[i] as char))
                <==> encoded.len() == bytes.len()
            &&& encoded.len() == bytes.len() ==> forall|i: int|
                0 <= i < bytes.len() ==> #[trigger] encoded[i] == bytes[i] as char
        }),
{
    lemma_escapes(encode_utf8(s), encode_utf8(s).len());
}

/// A reading of the clock has seconds that are not negative and less than a thousand million
/// nanoseconds; any other is refused.
pub proof fn law_readings_of_the_clock(seconds: i64, nanos: i64, w: World)
    requires
        ask(w, "clock"@, Seq::empty()).0 == Ok::<Val, Str>(
            Val::List(seq![Val::Number(seconds), Val::Number(nanos)]),
        ),
    ensures
        seconds < 0 || nanos < 0 || nanos >= 1_000_000_000 ==> utc_now(w).0 is Err,
        seconds >= 0 && 0 <= nanos < 1_000_000_000 ==> utc_now(w).0 == utc_record(
            seconds as u64,
            nanos as u32,
        ),
        utc_now(w).1 == ask(w, "clock"@, Seq::empty()).1,
{
}

} // verus!
