//! Registration of functions and classes.

use crate::ast::{copy_opt, copy_params, copy_texts, lemma_program, opt_text, views, Expr, ExprM,
    Param, ParamM, Program, Stmt, StmtM};
use crate::classes::{class_key, field_key, method_key, parent_key};
use crate::table::{get, put, Rows};
use crate::text::{after, chars_of, has_prefix, join2, join3, same, starts_with, texts, Str};
use crate::value::{cost, told_unit, Fun, Function, Functions, Val, ZapValue};
use crate::world::{insert_local, new_frame, reserve_bytes, ExecutionContext, World};
use std::rc::Rc;
use vstd::prelude::*;

verus! {

/// What a registration leaves behind.
pub struct Registered {
    pub result: Result<(), Str>,
    pub funcs: Rows<Fun>,
    pub world: World,
}

/// A record that only marks a class: it has no code, at most one line of text.
pub open spec fn mark(body: Seq<Str>, closure: usize) -> Fun {
    Fun {
        visibility: "public"@,
        type_params: Seq::empty(),
        params: Seq::empty(),
        return_annotation: None,
        is_async: false,
        body,
        ast_body: None,
        closure,
    }
}

/// Enters a function under a name and takes its cost from the budget.
pub open spec fn insert_charged(name: Str, function: Fun, funcs: Rows<Fun>, w: World) -> Registered {
    let (r, after) = reserve_bytes(w, cost(Val::Callable(function)));
    match r {
        Err(error) => Registered { result: Err(error), funcs, world: after },
        Ok(_) => Registered {
            result: Ok(()),
            funcs: put(funcs, name, function),
            world: after,
        },
    }
}

/// A function definition without its place.
pub struct FunctionM {
    pub name: Str,
    pub type_params: Seq<Str>,
    pub params: Seq<ParamM>,
    pub visibility: Str,
    pub return_type: Option<Str>,
    pub body: Seq<StmtM>,
    pub is_async: bool,
    pub exported: bool,
}

pub open spec fn export_key(name: Str) -> Str {
    "__zap_export_fn__:"@ + name
}

pub open spec fn function_record(d: FunctionM, closure: usize) -> Fun {
    Fun {
        visibility: d.visibility,
        type_params: d.type_params,
        params: d.params,
        return_annotation: d.return_type,
        is_async: d.is_async,
        body: Seq::empty(),
        ast_body: Some(d.body),
        closure,
    }
}

/// Registers a function that closes over a new frame inside `frame`.
pub open spec fn function_registered(d: FunctionM, frame: usize, funcs: Rows<Fun>, w: World) -> Registered {
    let (closure, w1) = new_frame(w, Seq::empty(), Some(frame), None);
    let function = function_record(d, closure);
    let entered = insert_charged(d.name, function, funcs, w1);
    match entered.result {
        Err(_) => entered,
        Ok(_) => if d.exported {
            Registered { funcs: put(entered.funcs, export_key(d.name), function), ..entered }
        } else {
            entered
        },
    }
}

pub open spec fn self_param() -> ParamM {
    ParamM { name: "self"@, annotation: None, default: None }
}

/// The parameters of a method, with the receiver in front.
pub open spec fn method_params(params: Seq<ParamM>) -> Seq<ParamM> {
    if params.len() > 0 && params[0].name == "self"@ {
        params
    } else {
        seq![self_param()] + params
    }
}

/// Registers a field of a class: a record that returns the field's first value.
pub open spec fn field_registered(
    class_name: Str,
    field: Str,
    annotation: Option<Str>,
    value: ExprM,
    visibility: Str,
    frame: usize,
    funcs: Rows<Fun>,
    w: World,
) -> Registered {
    let (closure, w1) = new_frame(w, Seq::empty(), Some(frame), None);
    insert_charged(
        field_key(class_name, field),
        Fun {
            visibility,
            type_params: Seq::empty(),
            params: Seq::empty(),
            return_annotation: annotation,
            is_async: false,
            body: Seq::empty(),
            ast_body: Some(seq![StmtM::Return(Some(value))]),
            closure,
        },
        funcs,
        w1,
    )
}

pub open spec fn own_init_key(class_name: Str) -> Str {
    class_name + ".__own_init__"@
}

/// Marks that a class has a constructor of its own.
pub open spec fn init_marked(class_name: Str, frame: usize, funcs: Rows<Fun>, w: World) -> Registered {
    let (closure, w1) = new_frame(w, Seq::empty(), Some(frame), None);
    insert_charged(own_init_key(class_name), mark(Seq::empty(), closure), funcs, w1)
}

/// Registers a method: its closure knows the class that owns it.
pub open spec fn method_registered(
    class_name: Str,
    method: Str,
    params: Seq<ParamM>,
    return_type: Option<Str>,
    body: Seq<StmtM>,
    visibility: Str,
    is_async: bool,
    frame: usize,
    funcs: Rows<Fun>,
    w: World,
) -> Registered {
    let marked = if method == "init"@ {
        init_marked(class_name, frame, funcs, w)
    } else {
        Registered { result: Ok(()), funcs, world: w }
    };
    match marked.result {
        Err(_) => marked,
        Ok(_) => {
            let (closure, w1) = new_frame(marked.world, Seq::empty(), Some(frame), None);
            let w2 = insert_local(
                w1,
                closure as int,
                "__zap_owner_class"@,
                Val::Text(class_name),
            );
            insert_charged(
                method_key(class_name, method),
                Fun {
                    visibility,
                    type_params: Seq::empty(),
                    params: method_params(params),
                    return_annotation: return_type,
                    is_async,
                    body: Seq::empty(),
                    ast_body: Some(body),
                    closure,
                },
                marked.funcs,
                w2,
            )
        },
    }
}

/// Registers the fields and methods of a class, from statement `i` on.
pub open spec fn members_registered(
    class_name: Str,
    body: Seq<StmtM>,
    i: nat,
    frame: usize,
    funcs: Rows<Fun>,
    w: World,
) -> Registered
    decreases body.len() - i,
{
    if i >= body.len() {
        Registered { result: Ok(()), funcs, world: w }
    } else {
        let step = match body[i as int] {
            StmtM::Field { name, annotation, value, visibility } => field_registered(
                class_name,
                name,
                annotation,
                value,
                visibility,
                frame,
                funcs,
                w,
            ),
            StmtM::Function { name, params, return_type, body, visibility, is_async, .. } =>
                method_registered(
                class_name,
                name,
                params,
                return_type,
                body,
                visibility,
                is_async,
                frame,
                funcs,
                w,
            ),
            _ => Registered { result: Ok(()), funcs, world: w },
        };
        match step.result {
            Err(_) => step,
            Ok(_) => members_registered(class_name, body, i + 1, frame, step.funcs, step.world),
        }
    }
}

/// A text without any number of copies of a prefix.
pub open spec fn without_prefixes(s: Str, prefix: Str) -> Str
    decreases s.len(),
{
    if prefix.len() > 0 && has_prefix(s, prefix) {
        without_prefixes(s.skip(prefix.len() as int), prefix)
    } else {
        s
    }
}

/// Gives a class what the records of its parent, from number `i` on, hold and it lacks. With
/// `fields` the fields are handed on too.
pub open spec fn inherited(
    class_name: Str,
    prefix: Str,
    records: Rows<Fun>,
    i: nat,
    fields: bool,
    funcs: Rows<Fun>,
) -> Rows<Fun>
    decreases records.len() - i,
{
    if i >= records.len() {
        funcs
    } else {
        let key = records[i as int].0;
        let name = without_prefixes(key, prefix);
        let own = method_key(class_name, name);
        inherited(
            class_name,
            prefix,
            records,
            i + 1,
            fields,
            if has_prefix(key, prefix) && (fields || !has_prefix(name, "__field__."@)) && get(
                funcs,
                own,
            ) is None {
                put(funcs, own, records[i as int].1)
            } else {
                funcs
            },
        )
    }
}

/// Enters the marks of a class and of its parent, if it has one.
pub open spec fn class_marked(
    name: Str,
    base: Option<Str>,
    frame: usize,
    funcs: Rows<Fun>,
    w: World,
) -> Registered {
    let (own, w1) = new_frame(w, Seq::empty(), Some(frame), None);
    let known = put(funcs, class_key(name), mark(Seq::empty(), own));
    match base {
        None => Registered { result: Ok(()), funcs: known, world: w1 },
        Some(parent) => if get(known, class_key(parent)) is None {
            Registered {
                result: Err("unknown parent class: "@ + parent),
                funcs: known,
                world: w1,
            }
        } else {
            let (link, w2) = new_frame(w1, Seq::empty(), Some(frame), None);
            Registered {
                result: Ok(()),
                funcs: put(known, parent_key(name), mark(seq![parent], link)),
                world: w2,
            }
        },
    }
}

/// Registers a class with its fields and methods and with what it inherits.
pub open spec fn class_registered(
    name: Str,
    base: Option<Str>,
    body: Seq<StmtM>,
    frame: usize,
    funcs: Rows<Fun>,
    w: World,
) -> Registered {
    let marked = class_marked(name, base, frame, funcs, w);
    match marked.result {
        Err(_) => marked,
        Ok(_) => {
            let own = members_registered(name, body, 0, frame, marked.funcs, marked.world);
            match (own.result, base) {
                (Ok(_), Some(parent)) => Registered {
                    funcs: inherited(name, parent + "."@, own.funcs, 0, false, own.funcs),
                    ..own
                },
                _ => own,
            }
        },
    }
}

// ---------------------------------------------------------------------------
// Execution
// ---------------------------------------------------------------------------

pub open spec fn registered_view(r: Result<(), String>, funcs: Functions, context: World) -> Registered {
    Registered { result: told_unit(r), funcs: funcs@, world: context }
}

pub fn mark_record(body: Vec<String>, closure: usize) -> (r: Function)
    ensures
        r@ == mark(texts(body@), closure),
{
    let r = Function {
        visibility: "public".to_owned(),
        type_params: Vec::new(),
        params: Vec::new(),
        return_annotation: None,
        is_async: false,
        body,
        ast_body: None,
        closure,
    };
    assert(r@.type_params =~= Seq::<Str>::empty());
    assert(r@.params =~= Seq::<ParamM>::empty());
    r
}

fn empty_mark(closure: usize) -> (r: Function)
    ensures
        r@ == mark(Seq::empty(), closure),
{
    let none: Vec<String> = Vec::new();
    assert(texts(none@) =~= Seq::<Str>::empty());
    mark_record(none, closure)
}

pub fn insert_ast_function_with_charge(
    name: String,
    function: Rc<Function>,
    funcs: &mut Functions,
    context: &mut ExecutionContext,
) -> (r: Result<(), String>)
    ensures
        registered_view(r, *final(funcs), final(context)@) == insert_charged(
            name@,
            function@,
            old(funcs)@,
            old(context)@,
        ),
{
    let value = ZapValue::Callable(Rc::clone(&function));
    match context.reserve_value(&value) {
        Err(error) => Err(error),
        Ok(_) => {
            funcs.insert(name, function);
            Ok(())
        },
    }
}

/// A function definition as it stands in a program.
pub struct AstFunctionSpec<'a> {
    pub name: &'a str,
    pub type_params: &'a Vec<String>,
    pub params: &'a Vec<Param>,
    pub visibility: &'a str,
    pub return_type: &'a Option<String>,
    pub body: &'a Rc<Program>,
    pub is_async: bool,
    pub exported: bool,
}

impl<'a> View for AstFunctionSpec<'a> {
    type V = FunctionM;

    open spec fn view(&self) -> FunctionM {
        FunctionM {
            name: self.name@,
            type_params: texts(self.type_params@),
            params: views(self.params@),
            visibility: self.visibility@,
            return_type: opt_text(*self.return_type),
            body: (*self.body)@,
            is_async: self.is_async,
            exported: self.exported,
        }
    }
}

pub fn register_ast_function(
    definition: AstFunctionSpec<'_>,
    frame: usize,
    funcs: &mut Functions,
    context: &mut ExecutionContext,
) -> (r: Result<(), String>)
    ensures
        registered_view(r, *final(funcs), final(context)@) == function_registered(
            definition@,
            frame,
            old(funcs)@,
            old(context)@,
        ),
{
    let closure = context.child_frame(frame);
    let none: Vec<String> = Vec::new();
    assert(texts(none@) =~= Seq::<Str>::empty());
    let function = Rc::new(
        Function {
            visibility: definition.visibility.to_owned(),
            type_params: copy_texts(definition.type_params),
            params: copy_params(definition.params),
            return_annotation: copy_opt(definition.return_type),
            is_async: definition.is_async,
            body: none,
            ast_body: Some(Rc::clone(definition.body)),
            closure,
        },
    );
    match insert_ast_function_with_charge(
        definition.name.to_owned(),
        Rc::clone(&function),
        funcs,
        context,
    ) {
        Err(error) => Err(error),
        Ok(_) => {
            if definition.exported {
                funcs.insert(join2("__zap_export_fn__:", definition.name), function);
            }
            Ok(())
        },
    }
}

pub fn with_receiver(params: Vec<Param>) -> (r: Vec<Param>)
    ensures
        views(r@) == method_params(views(params@)),
{
    if params.len() > 0 && same(params[0].name.as_str(), "self") {
        return params;
    }
    let mut out: Vec<Param> = Vec::new();
    out.push(Param { name: "self".to_owned(), annotation: None, default: None });
    let mut i: usize = 0;
    assert(views(out@) =~= seq![self_param()] + views(params@).take(0));
    while i < params.len()
        invariant
            i <= params@.len(),
            views(out@) == seq![self_param()] + views(params@).take(i as int),
        decreases params.len() - i,
    {
        let ghost before = views(out@);
        let param = params[i].copy();
        out.push(param);
        assert(views(out@) =~= before.push(param@));
        assert(views(params@).take(i + 1) =~= views(params@).take(i as int).push(
            params@[i as int]@,
        ));
        assert(views(out@) =~= seq![self_param()] + views(params@).take(i + 1));
        i += 1;
    }
    assert(views(params@).take(params@.len() as int) =~= views(params@));
    out
}

fn register_field(
    class_name: &str,
    field: &str,
    annotation: &Option<String>,
    value: &Expr,
    visibility: &str,
    frame: usize,
    funcs: &mut Functions,
    context: &mut ExecutionContext,
) -> (r: Result<(), String>)
    ensures
        registered_view(r, *final(funcs), final(context)@) == field_registered(
            class_name@,
            field@,
            opt_text(*annotation),
            value@,
            visibility@,
            frame,
            old(funcs)@,
            old(context)@,
        ),
{
    let closure = context.child_frame(frame);
    let mut statements: Vec<Stmt> = Vec::new();
    statements.push(Stmt::Return(Some(value.copy())));
    let program = Program { statements };
    proof {
        lemma_program(&program);
        assert(program@ =~= seq![StmtM::Return(Some(value@))]);
    }
    let function = Function {
        visibility: visibility.to_owned(),
        type_params: Vec::new(),
        params: Vec::new(),
        return_annotation: copy_opt(annotation),
        is_async: false,
        body: Vec::new(),
        ast_body: Some(Rc::new(program)),
        closure,
    };
    assert(function@.type_params =~= Seq::<Str>::empty());
    assert(function@.params =~= Seq::<ParamM>::empty());
    assert(function@.body =~= Seq::<Str>::empty());
    insert_ast_function_with_charge(
        join3(class_name, ".__field__.", field),
        Rc::new(function),
        funcs,
        context,
    )
}

fn register_method(
    class_name: &str,
    method: &str,
    params: &Vec<Param>,
    return_type: &Option<String>,
    body: &Rc<Program>,
    visibility: &str,
    is_async: bool,
    frame: usize,
    funcs: &mut Functions,
    context: &mut ExecutionContext,
) -> (r: Result<(), String>)
    ensures
        registered_view(r, *final(funcs), final(context)@) == method_registered(
            class_name@,
            method@,
            views(params@),
            opt_text(*return_type),
            (*body)@,
            visibility@,
            is_async,
            frame,
            old(funcs)@,
            old(context)@,
        ),
{
    if same(method, "init") {
        let closure = context.child_frame(frame);
        match insert_ast_function_with_charge(
            join2(class_name, ".__own_init__"),
            Rc::new(empty_mark(closure)),
            funcs,
            context,
        ) {
            Err(error) => {
                return Err(error);
            },
            Ok(_) => {},
        }
    }
    let closure = context.child_frame(frame);
    context.insert_local(closure, "__zap_owner_class", ZapValue::Text(class_name.to_owned()));
    let function = Function {
        visibility: visibility.to_owned(),
        type_params: Vec::new(),
        params: with_receiver(copy_params(params)),
        return_annotation: copy_opt(return_type),
        is_async,
        body: Vec::new(),
        ast_body: Some(Rc::clone(body)),
        closure,
    };
    assert(function@.type_params =~= Seq::<Str>::empty());
    assert(function@.body =~= Seq::<Str>::empty());
    insert_ast_function_with_charge(
        join3(class_name, ".", method),
        Rc::new(function),
        funcs,
        context,
    )
}

fn register_members(
    class_name: &str,
    body: &Program,
    frame: usize,
    funcs: &mut Functions,
    context: &mut ExecutionContext,
) -> (r: Result<(), String>)
    ensures
        registered_view(r, *final(funcs), final(context)@) == members_registered(
            class_name@,
            body@,
            0,
            frame,
            old(funcs)@,
            old(context)@,
        ),
{
    let mut i: usize = 0;
    proof {
        lemma_program(body);
    }
    while i < body.statements.len()
        invariant
            i <= body.statements@.len(),
            body@ == views(body.statements@),
            members_registered(class_name@, body@, 0, frame, old(funcs)@, old(context)@)
                == members_registered(
                class_name@,
                body@,
                i as nat,
                frame,
                funcs@,
                context@,
            ),
        decreases body.statements.len() - i,
    {
        assert(body@[i as int] == body.statements@[i as int]@);
        let step = match &body.statements[i] {
            Stmt::Field { name, annotation, value, visibility } => register_field(
                class_name,
                name.as_str(),
                annotation,
                value,
                visibility.as_str(),
                frame,
                funcs,
                context,
            ),
            Stmt::Function { name, params, return_type, body, visibility, is_async, .. } =>
                register_method(
                class_name,
                name.as_str(),
                params,
                return_type,
                body,
                visibility.as_str(),
                *is_async,
                frame,
                funcs,
                context,
            ),
            _ => Ok(()),
        };
        if let Err(error) = step {
            return Err(error);
        }
        i += 1;
    }
    Ok(())
}

fn drop_prefixes(s: &str, prefix: &str) -> (r: String)
    ensures
        r@ == without_prefixes(s@, prefix@),
{
    let n = chars_of(prefix).len();
    let mut rest: String = s.to_owned();
    if n == 0 {
        return rest;
    }
    while starts_with(rest.as_str(), prefix)
        invariant
            n == prefix@.len(),
            n > 0,
            without_prefixes(s@, prefix@) == without_prefixes(rest@, prefix@),
        decreases rest@.len(),
    {
        rest = after(rest.as_str(), n);
    }
    rest
}

/// Gives a class what its parent's records hold and it lacks.
pub fn inherit(class_name: &str, parent: &str, fields: bool, funcs: &mut Functions)
    ensures
        final(funcs)@ == inherited(
            class_name@,
            parent@ + "."@,
            old(funcs)@,
            0,
            fields,
            old(funcs)@,
        ),
{
    let prefix = join2(parent, ".");
    let records = crate::value::copy_functions(funcs);
    let mut i: usize = 0;
    while i < records.entries.len()
        invariant
            i <= records.entries@.len(),
            prefix@ == parent@ + "."@,
            records@ == old(funcs)@,
            inherited(class_name@, prefix@, records@, 0, fields, old(funcs)@) == inherited(
                class_name@,
                prefix@,
                records@,
                i as nat,
                fields,
                funcs@,
            ),
        decreases records.entries.len() - i,
    {
        let key = records.entries[i].0.as_str();
        assert(records@[i as int].0 == key@);
        let name = drop_prefixes(key, prefix.as_str());
        let own = join3(class_name, ".", name.as_str());
        if starts_with(key, prefix.as_str()) && (fields || !starts_with(
            name.as_str(),
            "__field__.",
        )) && !funcs.holds(own.as_str()) {
            funcs.insert(own, Rc::clone(&records.entries[i].1));
        }
        i += 1;
    }
}

pub fn register_ast_class(
    name: &str,
    base: &Option<String>,
    body: &Program,
    frame: usize,
    funcs: &mut Functions,
    context: &mut ExecutionContext,
) -> (r: Result<(), String>)
    ensures
        registered_view(r, *final(funcs), final(context)@) == class_registered(
            name@,
            opt_text(*base),
            body@,
            frame,
            old(funcs)@,
            old(context)@,
        ),
{
    let own = context.child_frame(frame);
    funcs.insert(join2(name, ".__class__"), Rc::new(empty_mark(own)));
    if let Some(parent) = base {
        if !funcs.holds(join2(parent.as_str(), ".__class__").as_str()) {
            return Err(join2("unknown parent class: ", parent.as_str()));
        }
        let link = context.child_frame(frame);
        let mut line: Vec<String> = Vec::new();
        line.push(parent.clone());
        assert(texts(line@) =~= seq![parent@]);
        funcs.insert(join2(name, ".__parent__"), Rc::new(mark_record(line, link)));
    }
    assert(registered_view(Ok(()), *funcs, context@) == class_marked(
        name@,
        opt_text(*base),
        frame,
        old(funcs)@,
        old(context)@,
    ));
    match register_members(name, body, frame, funcs, context) {
        Err(error) => Err(error),
        Ok(_) => {
            if let Some(parent) = base {
                inherit(name, parent.as_str(), false, funcs);
            }
            Ok(())
        },
    }
}

} // verus!
