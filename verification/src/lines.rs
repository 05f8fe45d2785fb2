//! Function records made of source lines: how lines define functions and classes.

use crate::ast::{opt_text, views, Param, ParamM};
use crate::classes::{class_key, method_key, parent_key};
use crate::layout::{block, block_end, indented, lemma_block_end};
use crate::program::{parse_signature, signature};
use crate::registry::{inherit, inherited, mark, mark_record, method_params, own_init_key,
    with_receiver, Registered};
use crate::table::{get, put, Rows, Table};
use crate::text::{after, chars_of, cut, has_prefix, join2, join3, same, split_once, split_words,
    starts_with, text_of, texts, trim, trimmed, words, Str};
use crate::value::{copy_table, fail, told_unit, Fun, Function, Functions, Val, ZapValue};
use crate::world::{new_frame, ExecutionContext, World};
use std::rc::Rc;
use vstd::prelude::*;

verus! {

/// What stands behind a prefix.
pub open spec fn stripped(s: Str, prefix: Str) -> Option<Str> {
    if has_prefix(s, prefix) {
        Some(s.skip(prefix.len() as int))
    } else {
        None
    }
}

pub fn strip_prefix(s: &str, prefix: &str) -> (r: Option<String>)
    ensures
        opt_text(r) == stripped(s@, prefix@),
{
    if starts_with(s, prefix) {
        let n = chars_of(prefix).len();
        Some(after(s, n))
    } else {
        None
    }
}

pub open spec fn colons_start(s: Str, i: int) -> int
    decreases i,
{
    if 0 < i <= s.len() && s[i - 1] == ':' {
        colons_start(s, i - 1)
    } else {
        i
    }
}

/// A text without the colons at its end.
pub open spec fn bare(s: Str) -> Str {
    s.take(colons_start(s, s.len() as int))
}

pub fn without_colons(s: &str) -> (r: String)
    ensures
        r@ == bare(s@),
{
    let v = chars_of(s);
    let mut i: usize = v.len();
    while i > 0 && v[i - 1] == ':'
        invariant
            i <= v@.len(),
            v@ == s@,
            colons_start(s@, s@.len() as int) == colons_start(s@, i as int),
        decreases i,
    {
        i -= 1;
    }
    let r = text_of(&v, 0, i);
    assert(r@ =~= s@.take(i as int));
    r
}

/// A frame inside a frame that holds the given variables.
pub open spec fn closed_over(vars: Rows<Val>, w: World) -> (usize, World) {
    let (outer, w1) = new_frame(w, vars, None, None);
    new_frame(w1, Seq::empty(), Some(outer), None)
}

pub fn close_over(vars: &Table<ZapValue>, context: &mut ExecutionContext) -> (r: usize)
    ensures
        (r, final(context)@) == closed_over(vars@, old(context)@),
{
    let outer = context.new_frame(copy_table(vars), None, None);
    context.child_frame(outer)
}

/// The definition that a line begins with `fn` or `def`, without that word.
pub open spec fn definition_of(line: Str) -> Option<Str> {
    match stripped(line, "fn "@) {
        Some(rest) => Some(rest),
        None => stripped(line, "def "@),
    }
}

pub fn strip_definition(line: &str) -> (r: Option<String>)
    ensures
        opt_text(r) == definition_of(line@),
{
    match strip_prefix(line, "fn ") {
        Some(rest) => Some(rest),
        None => strip_prefix(line, "def "),
    }
}

pub open spec fn line_record(
    visibility: Str,
    params: Seq<ParamM>,
    return_annotation: Option<Str>,
    body: Seq<Str>,
    closure: usize,
) -> Fun {
    Fun {
        visibility,
        type_params: Seq::empty(),
        params,
        return_annotation,
        is_async: false,
        body,
        ast_body: None,
        closure,
    }
}

fn make_record(
    visibility: &str,
    params: Vec<Param>,
    return_annotation: Option<String>,
    body: Vec<String>,
    closure: usize,
) -> (r: Function)
    ensures
        r@ == line_record(
            visibility@,
            views(params@),
            opt_text(return_annotation),
            texts(body@),
            closure,
        ),
{
    let r = Function {
        visibility: visibility.to_owned(),
        type_params: Vec::new(),
        params,
        return_annotation,
        is_async: false,
        body,
        ast_body: None,
        closure,
    };
    assert(r@.type_params =~= Seq::<Str>::empty());
    r
}

/// Defines a function by a line and the block behind it.
pub open spec fn function_defined(
    rest: Str,
    body: Seq<Str>,
    is_export: bool,
    vars: Rows<Val>,
    funcs: Rows<Fun>,
    w: World,
) -> Registered {
    match cut(bare(rest), "("@) {
        None => Registered {
            result: Err("function syntax: fn name(a, b):"@),
            funcs,
            world: w,
        },
        Some(pair) => match signature(pair.1) {
            Err(error) => Registered { result: Err(error), funcs, world: w },
            Ok((params, return_annotation)) => {
                let name = trim(pair.0);
                let (closure, w1) = closed_over(vars, w);
                let known = put(
                    funcs,
                    name,
                    line_record("public"@, params, return_annotation, body, closure),
                );
                if is_export {
                    let (empty, w2) = new_frame(w1, Seq::empty(), None, None);
                    Registered {
                        result: Ok(()),
                        funcs: put(
                            known,
                            "__zap_export_fn__:"@ + name,
                            mark(Seq::empty(), empty),
                        ),
                        world: w2,
                    }
                } else {
                    Registered { result: Ok(()), funcs: known, world: w1 }
                }
            },
        },
    }
}

pub open spec fn defined_view(r: Result<(), String>, funcs: Functions, w: World) -> Registered {
    Registered { result: told_unit(r), funcs: funcs@, world: w }
}

pub fn define_function(
    rest: &str,
    body: Vec<String>,
    is_export: bool,
    vars: &Table<ZapValue>,
    funcs: &mut Functions,
    context: &mut ExecutionContext,
) -> (r: Result<(), String>)
    ensures
        defined_view(r, *final(funcs), final(context)@) == function_defined(
            rest@,
            texts(body@),
            is_export,
            vars@,
            old(funcs)@,
            old(context)@,
        ),
{
    let pair = match split_once(without_colons(rest).as_str(), "(") {
        None => {
            return fail("function syntax: fn name(a, b):");
        },
        Some(pair) => pair,
    };
    let (params, return_annotation) = match parse_signature(pair.1.as_str()) {
        Err(error) => {
            return Err(error);
        },
        Ok(found) => found,
    };
    let name = trimmed(pair.0.as_str());
    let closure = close_over(vars, context);
    funcs.insert(
        name.clone(),
        Rc::new(make_record("public", params, return_annotation, body, closure)),
    );
    if is_export {
        let empty = context.new_frame(Table::new(), None, None);
        let none: Vec<String> = Vec::new();
        assert(texts(none@) =~= Seq::<Str>::empty());
        funcs.insert(
            join2("__zap_export_fn__:", name.as_str()),
            Rc::new(mark_record(none, empty)),
        );
    }
    Ok(())
}

/// The visibility in front of a line of a class, and the rest of the line.
pub open spec fn shown_line(line: Str) -> (Str, Str) {
    match stripped(line, "public "@) {
        Some(rest) => ("public"@, rest),
        None => match stripped(line, "private "@) {
            Some(rest) => ("private"@, rest),
            None => match stripped(line, "protected "@) {
                Some(rest) => ("protected"@, rest),
                None => ("public"@, line),
            },
        },
    }
}

fn read_shown_line(line: &str) -> (r: (String, String))
    ensures
        (r.0@, r.1@) == shown_line(line@),
{
    if let Some(rest) = strip_prefix(line, "public ") {
        return ("public".to_owned(), rest);
    }
    if let Some(rest) = strip_prefix(line, "private ") {
        return ("private".to_owned(), rest);
    }
    if let Some(rest) = strip_prefix(line, "protected ") {
        return ("protected".to_owned(), rest);
    }
    ("public".to_owned(), line.to_owned())
}

/// Defines a method of a class by a line and the block behind it.
pub open spec fn method_defined(
    class_name: Str,
    visibility: Str,
    rest: Str,
    body: Seq<Str>,
    vars: Rows<Val>,
    funcs: Rows<Fun>,
    w: World,
) -> Registered {
    match cut(bare(rest), "("@) {
        None => Registered { result: Err("method syntax: fn name(self):"@), funcs, world: w },
        Some(pair) => {
            let name = trim(pair.0);
            let (known, w1) = if name == "init"@ {
                let (closure, w1) = closed_over(vars, w);
                (
                    put(
                        funcs,
                        own_init_key(class_name),
                        line_record(visibility, Seq::empty(), None, Seq::empty(), closure),
                    ),
                    w1,
                )
            } else {
                (funcs, w)
            };
            match signature(pair.1) {
                Err(error) => Registered { result: Err(error), funcs: known, world: w1 },
                Ok((params, return_annotation)) => {
                    let (closure, w2) = closed_over(
                        put(vars, "__zap_owner_class"@, Val::Text(class_name)),
                        w1,
                    );
                    Registered {
                        result: Ok(()),
                        funcs: put(
                            known,
                            method_key(class_name, name),
                            line_record(
                                visibility,
                                method_params(params),
                                return_annotation,
                                body,
                                closure,
                            ),
                        ),
                        world: w2,
                    }
                },
            }
        },
    }
}

fn define_method(
    class_name: &str,
    visibility: &str,
    rest: &str,
    body: Vec<String>,
    vars: &Table<ZapValue>,
    funcs: &mut Functions,
    context: &mut ExecutionContext,
) -> (r: Result<(), String>)
    ensures
        defined_view(r, *final(funcs), final(context)@) == method_defined(
            class_name@,
            visibility@,
            rest@,
            texts(body@),
            vars@,
            old(funcs)@,
            old(context)@,
        ),
{
    let pair = match split_once(without_colons(rest).as_str(), "(") {
        None => {
            return fail("method syntax: fn name(self):");
        },
        Some(pair) => pair,
    };
    let name = trimmed(pair.0.as_str());
    if same(name.as_str(), "init") {
        let closure = close_over(vars, context);
        let no_params: Vec<Param> = Vec::new();
        let no_lines: Vec<String> = Vec::new();
        assert(views(no_params@) =~= Seq::<ParamM>::empty());
        assert(texts(no_lines@) =~= Seq::<Str>::empty());
        funcs.insert(
            join2(class_name, ".__own_init__"),
            Rc::new(make_record(visibility, no_params, None, no_lines, closure)),
        );
    }
    let (params, return_annotation) = match parse_signature(pair.1.as_str()) {
        Err(error) => {
            return Err(error);
        },
        Ok(found) => found,
    };
    let mut seen = copy_table(vars);
    seen.insert("__zap_owner_class".to_owned(), ZapValue::Text(class_name.to_owned()));
    let closure = close_over(&seen, context);
    funcs.insert(
        join3(class_name, ".", name.as_str()),
        Rc::new(
            make_record(visibility, with_receiver(params), return_annotation, body, closure),
        ),
    );
    Ok(())
}

/// Defines the methods of a class from its lines, from number `j` on.
pub open spec fn methods_defined(
    class_name: Str,
    lines: Seq<Str>,
    j: int,
    vars: Rows<Val>,
    funcs: Rows<Fun>,
    w: World,
) -> Registered
    decreases lines.len() - j,
{
    if j < 0 || j >= lines.len() {
        Registered { result: Ok(()), funcs, world: w }
    } else {
        let (visibility, line) = shown_line(trim(lines[j]));
        match definition_of(line) {
            None => methods_defined(class_name, lines, j + 1, vars, funcs, w),
            Some(rest) => {
                let step = method_defined(
                    class_name,
                    visibility,
                    rest,
                    block(lines, j + 1),
                    vars,
                    funcs,
                    w,
                );
                proof {
                    lemma_block_end(lines, j + 1);
                }
                match step.result {
                    Err(_) => step,
                    Ok(_) => methods_defined(
                        class_name,
                        lines,
                        block_end(lines, j + 1),
                        vars,
                        step.funcs,
                        step.world,
                    ),
                }
            },
        }
    }
}

fn define_methods(
    class_name: &str,
    lines: &Vec<String>,
    vars: &Table<ZapValue>,
    funcs: &mut Functions,
    context: &mut ExecutionContext,
) -> (r: Result<(), String>)
    ensures
        defined_view(r, *final(funcs), final(context)@) == methods_defined(
            class_name@,
            texts(lines@),
            0,
            vars@,
            old(funcs)@,
            old(context)@,
        ),
{
    let ghost all = texts(lines@);
    let mut j: usize = 0;
    while j < lines.len()
        invariant
            j <= lines@.len(),
            all == texts(lines@),
            methods_defined(class_name@, all, 0, vars@, old(funcs)@, old(context)@)
                == methods_defined(class_name@, all, j as int, vars@, funcs@, context@),
        decreases lines.len() - j,
    {
        assert(all[j as int] == lines@[j as int]@);
        let (visibility, line) = read_shown_line(trimmed(lines[j].as_str()).as_str());
        match strip_definition(line.as_str()) {
            None => {
                j += 1;
            },
            Some(rest) => {
                let (body, end) = indented(lines, j + 1);
                proof {
                    lemma_block_end(all, j + 1);
                }
                match define_method(
                    class_name,
                    visibility.as_str(),
                    rest.as_str(),
                    body,
                    vars,
                    funcs,
                    context,
                ) {
                    Err(error) => {
                        return Err(error);
                    },
                    Ok(_) => {},
                }
                j = end;
            },
        }
    }
    Ok(())
}

/// The name of a class and of its parent, from the line that defines it.
pub open spec fn class_names(rest: Str) -> Option<(Str, Option<Str>)> {
    let parts = words(trim(bare(rest)));
    if parts.len() == 0 {
        None
    } else {
        Some(
            (
                parts[0],
                if parts.len() > 2 && parts[1] == "extends"@ {
                    Some(parts[2])
                } else {
                    None
                },
            ),
        )
    }
}

/// Defines a class by a line and the block behind it.
pub open spec fn class_defined(
    rest: Str,
    body: Seq<Str>,
    vars: Rows<Val>,
    funcs: Rows<Fun>,
    w: World,
) -> Registered {
    match class_names(rest) {
        None => Registered { result: Err("class syntax: class Name:"@), funcs, world: w },
        Some((name, parent)) => {
            let (own, w1) = closed_over(vars, w);
            let known = put(funcs, class_key(name), mark(Seq::empty(), own));
            let linked = match parent {
                None => Registered { result: Ok(()), funcs: known, world: w1 },
                Some(parent_name) => if get(known, class_key(parent_name)) is None {
                    Registered {
                        result: Err("unknown parent class: "@ + parent_name),
                        funcs: known,
                        world: w1,
                    }
                } else {
                    let (link, w2) = closed_over(vars, w1);
                    Registered {
                        result: Ok(()),
                        funcs: put(known, parent_key(name), mark(seq![parent_name], link)),
                        world: w2,
                    }
                },
            };
            match linked.result {
                Err(_) => linked,
                Ok(_) => {
                    let own = methods_defined(name, body, 0, vars, linked.funcs, linked.world);
                    match (own.result, parent) {
                        (Ok(_), Some(parent_name)) => Registered {
                            funcs: inherited(
                                name,
                                parent_name + "."@,
                                own.funcs,
                                0,
                                true,
                                own.funcs,
                            ),
                            ..own
                        },
                        _ => own,
                    }
                },
            }
        },
    }
}

pub fn define_class(
    rest: &str,
    body: &Vec<String>,
    vars: &Table<ZapValue>,
    funcs: &mut Functions,
    context: &mut ExecutionContext,
) -> (r: Result<(), String>)
    ensures
        defined_view(r, *final(funcs), final(context)@) == class_defined(
            rest@,
            texts(body@),
            vars@,
            old(funcs)@,
            old(context)@,
        ),
{
    let parts = split_words(trimmed(without_colons(rest).as_str()).as_str());
    let ghost parts_view = texts(parts@);
    if parts.len() == 0 {
        return fail("class syntax: class Name:");
    }
    assert(parts_view[0] == parts@[0]@);
    let name = parts[0].clone();
    let parent: Option<String> = if parts.len() > 2 {
        assert(parts_view[1] == parts@[1]@ && parts_view[2] == parts@[2]@);
        if same(parts[1].as_str(), "extends") {
            Some(parts[2].clone())
        } else {
            None
        }
    } else {
        None
    };
    assert(class_names(rest@) == Some((name@, opt_text(parent))));
    let own = close_over(vars, context);
    let none: Vec<String> = Vec::new();
    assert(texts(none@) =~= Seq::<Str>::empty());
    funcs.insert(join2(name.as_str(), ".__class__"), Rc::new(mark_record(none, own)));
    if let Some(parent_name) = &parent {
        if !funcs.holds(join2(parent_name.as_str(), ".__class__").as_str()) {
            return Err(join2("unknown parent class: ", parent_name.as_str()));
        }
        let link = close_over(vars, context);
        let mut line: Vec<String> = Vec::new();
        line.push(parent_name.clone());
        assert(texts(line@) =~= seq![parent_name@]);
        funcs.insert(join2(name.as_str(), ".__parent__"), Rc::new(mark_record(line, link)));
    }
    match define_methods(name.as_str(), body, vars, funcs, context) {
        Err(error) => Err(error),
        Ok(_) => {
            if let Some(parent_name) = &parent {
                inherit(name.as_str(), parent_name.as_str(), true, funcs);
            }
            Ok(())
        },
    }
}

} // verus!
