//! Modules: the paths of imports, the import of names, the scope of a module's functions.

use crate::ast::opt_text;
use crate::paths::{climbs, is_absolute, path_climbs, path_is_absolute, push_path, pushed};
use crate::table::{get, put, Rows, Table};
use crate::text::{after, before, chars_of, ends_with, has_prefix, has_suffix, is_blank_text, join,
    join2, join_texts, same, starts_with, text_of, texts, trim, trimmed, Str};
use crate::value::{fail, told, Fun, Functions, Val, ZapValue};
use crate::world::{insert_local, ExecutionContext, ModuleM, World};
use std::rc::Rc;
use vstd::prelude::*;

verus! {

pub open spec fn var_prefix() -> Str {
    "__zap_export_var__:"@
}

pub open spec fn fn_prefix() -> Str {
    "__zap_export_fn__:"@
}

// ---------------------------------------------------------------------------
// Paths
// ---------------------------------------------------------------------------

pub open spec fn quotes_end(s: Str, i: int) -> int
    decreases s.len() - i,
{
    if 0 <= i < s.len() && s[i] == '"' {
        quotes_end(s, i + 1)
    } else {
        i
    }
}

pub open spec fn quotes_start(s: Str, i: int, from: int) -> int
    decreases i,
{
    if from < i <= s.len() && 0 < i && s[i - 1] == '"' {
        quotes_start(s, i - 1, from)
    } else {
        i
    }
}

/// A text without the quotation marks around it.
pub open spec fn unquoted(s: Str) -> Str {
    let from = quotes_end(s, 0);
    s.subrange(from, quotes_start(s, s.len() as int, from))
}

pub open spec fn without_suffix(s: Str, suffix: Str) -> Str {
    if has_suffix(s, suffix) {
        s.take(s.len() - suffix.len())
    } else {
        s
    }
}

/// The path that an import names.
pub open spec fn named_path(raw: Str) -> Str {
    let a = trim(raw);
    let b = trim(
        if has_prefix(a, "import "@) {
            a.skip(7)
        } else {
            a
        },
    );
    let c = trim(without_suffix(b, ";"@));
    let d = trim(without_suffix(c, " as"@));
    unquoted(d)
}

/// The path of an import, if it may be used: it is relative and stays below its base.
pub open spec fn import_path(raw: Str, sep: char) -> Result<Str, Str> {
    let path = named_path(raw);
    if path.len() == 0 {
        Err("import expects a module path"@)
    } else if is_absolute(path, sep) {
        Err("absolute module paths are not allowed"@)
    } else if climbs(path, sep) {
        Err("module paths may not traverse parent directories"@)
    } else {
        Ok(path)
    }
}

fn unquote(s: &str) -> (r: String)
    ensures
        r@ == unquoted(s@),
{
    let v = chars_of(s);
    let mut from: usize = 0;
    while from < v.len() && v[from] == '"'
        invariant
            from <= v@.len(),
            quotes_end(v@, 0) == quotes_end(v@, from as int),
        decreases v.len() - from,
    {
        from += 1;
    }
    let mut to: usize = v.len();
    while to > from && v[to - 1] == '"'
        invariant
            from <= to <= v@.len(),
            quotes_start(v@, v@.len() as int, from as int) == quotes_start(
                v@,
                to as int,
                from as int,
            ),
        decreases to,
    {
        to -= 1;
    }
    text_of(&v, from, to)
}

fn drop_suffix(s: &str, suffix: &str) -> (r: String)
    ensures
        r@ == without_suffix(s@, suffix@),
{
    if ends_with(s, suffix) {
        let n = chars_of(s).len();
        let m = chars_of(suffix).len();
        before(s, n - m)
    } else {
        s.to_owned()
    }
}

pub fn read_import_path(raw: &str, sep: char) -> (r: Result<String, String>)
    ensures
        told(r) == import_path(raw@, sep),
{
    let a = trimmed(raw);
    proof {
        reveal_strlit("import ");
    }
    let b = if starts_with(a.as_str(), "import ") {
        trimmed(after(a.as_str(), 7).as_str())
    } else {
        trimmed(a.as_str())
    };
    let c = trimmed(drop_suffix(b.as_str(), ";").as_str());
    let d = trimmed(drop_suffix(c.as_str(), " as").as_str());
    let path = unquote(d.as_str());
    if is_blank_text(path.as_str()) {
        return fail("import expects a module path");
    }
    if path_is_absolute(path.as_str(), sep) {
        return fail("absolute module paths are not allowed");
    }
    if path_climbs(path.as_str(), sep) {
        return fail("module paths may not traverse parent directories");
    }
    Ok(path)
}

/// The first place of a path among those that are being loaded.
pub open spec fn place_of(loading: Seq<Str>, path: Str, i: int) -> Option<int>
    decreases loading.len() - i,
{
    if i < 0 || i >= loading.len() {
        None
    } else if loading[i] == path {
        Some(i)
    } else {
        place_of(loading, path, i + 1)
    }
}

/// The chain of imports that leads back to a path that is being loaded.
pub open spec fn import_cycle(loading: Seq<Str>, path: Str) -> Option<Str> {
    match place_of(loading, path, 0) {
        Some(start) => Some(
            "circular import detected: "@ + join(loading.skip(start).push(path), " -> "@),
        ),
        None => None,
    }
}

pub fn find_import_cycle(loading: &Vec<String>, path: &str) -> (r: Option<String>)
    ensures
        opt_text(r) == import_cycle(texts(loading@), path@),
{
    let ghost all = texts(loading@);
    let mut start: usize = 0;
    while start < loading.len() && !same(loading[start].as_str(), path)
        invariant
            start <= loading@.len(),
            all == texts(loading@),
            place_of(all, path@, 0) == place_of(all, path@, start as int),
        decreases loading.len() - start,
    {
        assert(all[start as int] == loading@[start as int]@);
        start += 1;
    }
    if start >= loading.len() {
        return None;
    }
    assert(all[start as int] == loading@[start as int]@);
    let mut chain: Vec<String> = Vec::new();
    let mut i: usize = start;
    while i < loading.len()
        invariant
            start <= i <= loading@.len(),
            all == texts(loading@),
            texts(chain@) == all.subrange(start as int, i as int),
        decreases loading.len() - i,
    {
        let ghost before = texts(chain@);
        chain.push(loading[i].clone());
        assert(texts(chain@) =~= before.push(loading@[i as int]@));
        assert(all.subrange(start as int, i + 1) =~= before.push(all[i as int]));
        i += 1;
    }
    assert(all.skip(start as int) =~= texts(chain@));
    let ghost before = texts(chain@);
    chain.push(path.to_owned());
    assert(texts(chain@) =~= before.push(path@));
    Some(join2("circular import detected: ", join_texts(&chain, " -> ").as_str()))
}

// ---------------------------------------------------------------------------
// Import of names
// ---------------------------------------------------------------------------

/// Puts the entries of a module that are marked for export, from mark number `i` on, into a
/// table.
pub open spec fn exported<W, M>(source: Rows<W>, marks: Rows<M>, prefix: Str, i: nat, target: Rows<W>) -> Rows<W>
    decreases marks.len() - i,
{
    if i >= marks.len() {
        target
    } else {
        let key = marks[i as int].0;
        exported(
            source,
            marks,
            prefix,
            i + 1,
            if has_prefix(key, prefix) {
                let name = key.skip(prefix.len() as int);
                match get(source, name) {
                    Some(value) => put(target, name, value),
                    None => target,
                }
            } else {
                target
            },
        )
    }
}

/// The places where a module may be: the path under the base, and with the suffix of the
/// language.
pub open spec fn module_places(base: Str, path: Str, sep: char) -> (Str, Str) {
    (pushed(base, path, sep), pushed(base, path, sep) + ".zp"@)
}

pub fn find_module_places(base: &str, path: &str, sep: char) -> (r: (String, String))
    ensures
        (r.0@, r.1@) == module_places(base@, path@, sep),
{
    let plain = push_path(base, path, sep);
    let suffixed = join2(plain.as_str(), ".zp");
    (plain, suffixed)
}

/// The host's reply for a module, from where the chosen place leads and whether that is a file.
pub open spec fn module_reply(file: Str, is_file: bool) -> Result<Val, Str> {
    if is_file {
        Ok(Val::Text(file))
    } else {
        Err("module is not a file: "@ + file)
    }
}

pub fn tell_module(file: String, is_file: bool) -> (r: Result<ZapValue, String>)
    ensures
        told(r) == module_reply(file@, is_file),
{
    if is_file {
        Ok(ZapValue::Text(file))
    } else {
        Err(join2("module is not a file: ", file.as_str()))
    }
}

/// Puts all entries of a module, from number `i` on, into a table, but for the marks of exports
/// and one more name.
pub open spec fn merged<W>(source: Rows<W>, prefix: Str, left_out: Option<Str>, i: nat, target: Rows<W>) -> Rows<W>
    decreases source.len() - i,
{
    if i >= source.len() {
        target
    } else {
        let key = source[i as int].0;
        merged(
            source,
            prefix,
            left_out,
            i + 1,
            if has_prefix(key, prefix) || left_out == Some(key) {
                target
            } else {
                put(target, key, source[i as int].1)
            },
        )
    }
}

/// The name that tells a module its own file.
pub open spec fn own_name() -> Str {
    "__zap_module"@
}

/// What a plain import leaves out besides the marks of exports: the import that runs a module
/// leaves out the name that tells the module its own file, and a later one nothing.
pub open spec fn kept_back(first: bool) -> Option<Str> {
    if first {
        Some(own_name())
    } else {
        None
    }
}

pub open spec fn imported_vars(
    module: ModuleM,
    explicit: bool,
    first: bool,
    vars: Rows<Val>,
) -> Rows<Val> {
    if explicit {
        exported(module.vars, module.vars, var_prefix(), 0, vars)
    } else {
        merged(module.vars, var_prefix(), kept_back(first), 0, vars)
    }
}

pub open spec fn imported_funcs(module: ModuleM, explicit: bool, funcs: Rows<Fun>) -> Rows<Fun> {
    if explicit {
        exported(module.funcs, module.funcs, fn_prefix(), 0, funcs)
    } else {
        merged(module.funcs, fn_prefix(), None, 0, funcs)
    }
}

pub fn import_vars(
    source: &Table<ZapValue>,
    explicit: bool,
    first: bool,
    vars: &mut Table<ZapValue>,
)
    ensures
        final(vars)@ == (if explicit {
            exported(source@, source@, var_prefix(), 0, old(vars)@)
        } else {
            merged(source@, var_prefix(), kept_back(first), 0, old(vars)@)
        }),
{
    let prefix = "__zap_export_var__:";
    let n = chars_of(prefix).len();
    let mut i: usize = 0;
    let ghost start = vars@;
    while i < source.entries.len()
        invariant
            i <= source.entries@.len(),
            prefix@ == var_prefix(),
            n == prefix@.len(),
            start == old(vars)@,
            explicit ==> exported(source@, source@, prefix@, 0, start) == exported(
                source@,
                source@,
                prefix@,
                i as nat,
                vars@,
            ),
            !explicit ==> merged(
                source@,
                prefix@,
                kept_back(first),
                0,
                start,
            ) == merged(
                source@,
                prefix@,
                kept_back(first),
                i as nat,
                vars@,
            ),
        decreases source.entries.len() - i,
    {
        let key = source.entries[i].0.as_str();
        assert(source@[i as int] == (key@, source.entries@[i as int].1@));
        let marked = starts_with(key, prefix);
        if explicit {
            if marked {
                let name = after(key, n);
                match source.find(name.as_str()) {
                    Some(value) => {
                        let value = value.copy();
                        vars.insert(name, value);
                    },
                    None => {},
                }
            }
        } else {
            if !marked && !(first && same(key, "__zap_module")) {
                let value = source.entries[i].1.copy();
                vars.insert(key.to_owned(), value);
            }
        }
        i += 1;
    }
}

pub fn import_funcs(source: &Functions, explicit: bool, funcs: &mut Functions)
    ensures
        final(funcs)@ == (if explicit {
            exported(source@, source@, fn_prefix(), 0, old(funcs)@)
        } else {
            merged(source@, fn_prefix(), None, 0, old(funcs)@)
        }),
{
    let prefix = "__zap_export_fn__:";
    let n = chars_of(prefix).len();
    let mut i: usize = 0;
    let ghost start = funcs@;
    while i < source.entries.len()
        invariant
            i <= source.entries@.len(),
            prefix@ == fn_prefix(),
            n == prefix@.len(),
            start == old(funcs)@,
            explicit ==> exported(source@, source@, prefix@, 0, start) == exported(
                source@,
                source@,
                prefix@,
                i as nat,
                funcs@,
            ),
            !explicit ==> merged(source@, prefix@, None, 0, start) == merged(
                source@,
                prefix@,
                None,
                i as nat,
                funcs@,
            ),
        decreases source.entries.len() - i,
    {
        let key = source.entries[i].0.as_str();
        assert(source@[i as int] == (key@, source.entries@[i as int].1@));
        let marked = starts_with(key, prefix);
        if explicit {
            if marked {
                let name = after(key, n);
                match source.find(name.as_str()) {
                    Some(function) => {
                        let function = Rc::clone(function);
                        funcs.insert(name, function);
                    },
                    None => {},
                }
            }
        } else if !marked {
            funcs.insert(key.to_owned(), Rc::clone(&source.entries[i].1));
        }
        i += 1;
    }
}

// ---------------------------------------------------------------------------
// The scope of a module's functions
// ---------------------------------------------------------------------------

/// Binds the functions of a module, from number `j` on, in a frame.
pub open spec fn bound_in(w: World, frame: int, funcs: Rows<Fun>, j: nat) -> World
    decreases funcs.len() - j,
{
    if j >= funcs.len() {
        w
    } else {
        bound_in(
            if has_prefix(funcs[j as int].0, fn_prefix()) {
                w
            } else {
                insert_local(w, frame, funcs[j as int].0, Val::Callable(funcs[j as int].1))
            },
            frame,
            funcs,
            j + 1,
        )
    }
}

/// Binds the functions of a module in the closures of all of them, from number `i` on.
pub open spec fn attached(w: World, funcs: Rows<Fun>, i: nat) -> World
    decreases funcs.len() - i,
{
    if i >= funcs.len() {
        w
    } else {
        attached(bound_in(w, funcs[i as int].1.closure as int, funcs, 0), funcs, i + 1)
    }
}

fn bind_functions(frame: usize, funcs: &Functions, context: &mut ExecutionContext)
    ensures
        final(context)@ == bound_in(old(context)@, frame as int, funcs@, 0),
{
    let mut j: usize = 0;
    while j < funcs.entries.len()
        invariant
            j <= funcs.entries@.len(),
            bound_in(old(context)@, frame as int, funcs@, 0) == bound_in(
                context@,
                frame as int,
                funcs@,
                j as nat,
            ),
        decreases funcs.entries.len() - j,
    {
        let key = funcs.entries[j].0.as_str();
        assert(funcs@[j as int] == (key@, funcs.entries@[j as int].1@));
        if !starts_with(key, "__zap_export_fn__:") {
            context.insert_local(frame, key, ZapValue::Callable(Rc::clone(&funcs.entries[j].1)));
        }
        j += 1;
    }
}

pub fn attach_module_function_scope(funcs: &Functions, context: &mut ExecutionContext)
    ensures
        final(context)@ == attached(old(context)@, funcs@, 0),
{
    let mut i: usize = 0;
    while i < funcs.entries.len()
        invariant
            i <= funcs.entries@.len(),
            attached(old(context)@, funcs@, 0) == attached(context@, funcs@, i as nat),
        decreases funcs.entries.len() - i,
    {
        assert(funcs@[i as int].1 == funcs.entries@[i as int].1@);
        bind_functions(funcs.entries[i].1.closure, funcs, context);
        i += 1;
    }
}

} // verus!
