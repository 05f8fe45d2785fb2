//! Classes: inheritance, the owners of fields and visibility.

use crate::ast::{lemma_program, views, Expr, ExprM, Program, Stmt, StmtM};
use crate::table::{get, Rows, Table};
use crate::text::{contains, includes, join2, join3, same, texts, Str};
use crate::value::{told_unit, Fun, Function, Functions, Val, ZapValue};
use crate::world::{lookup, ExecutionContext, FrameM};
use vstd::prelude::*;

verus! {

/// The key under which the parent of a class is recorded.
pub open spec fn parent_key(class_name: Str) -> Str {
    class_name + ".__parent__"@
}

pub open spec fn class_key(class_name: Str) -> Str {
    class_name + ".__class__"@
}

pub open spec fn method_key(class_name: Str, method: Str) -> Str {
    class_name + "."@ + method
}

/// What the keys of the fields of a class begin with.
pub open spec fn field_prefix(class_name: Str) -> Str {
    class_name + ".__field__."@
}

pub open spec fn field_key(class_name: Str, field: Str) -> Str {
    field_prefix(class_name) + field
}

/// The parent of a class.
pub open spec fn parent(class_name: Str, funcs: Rows<Fun>) -> Option<Str> {
    match get(funcs, parent_key(class_name)) {
        Some(function) => if function.body.len() > 0 {
            Some(function.body[0])
        } else {
            None
        },
        None => None,
    }
}

/// Whether `target` is `current` or one of its next `steps` ancestors.
pub open spec fn descends(current: Str, target: Str, funcs: Rows<Fun>, steps: nat) -> bool
    decreases steps,
{
    current == target || (steps > 0 && match parent(current, funcs) {
        Some(p) => descends(p, target, funcs, (steps - 1) as nat),
        None => false,
    })
}

/// Whether `target` is `current` or an ancestor of it. A line of ancestors without a repetition
/// is no longer than the table of functions.
pub open spec fn same_or_subclass(current: Str, target: Str, funcs: Rows<Fun>) -> bool {
    descends(current, target, funcs, funcs.len())
}

/// The first class, from `current` through its next `steps` ancestors, that declares a field.
pub open spec fn owner_within(current: Str, field: Str, funcs: Rows<Fun>, steps: nat) -> Option<Str>
    decreases steps,
{
    if get(funcs, field_key(current, field)) is Some {
        Some(current)
    } else if steps == 0 {
        None
    } else {
        match parent(current, funcs) {
            Some(p) => owner_within(p, field, funcs, (steps - 1) as nat),
            None => None,
        }
    }
}

pub open spec fn field_owner(class_name: Str, field: Str, funcs: Rows<Fun>) -> Option<Str> {
    owner_within(class_name, field, funcs, funcs.len())
}

pub fn class_parent(class_name: &str, funcs: &Functions) -> (r: Option<String>)
    ensures
        crate::ast::opt_text(r) == parent(class_name@, funcs@),
{
    let key = join2(class_name, ".__parent__");
    match funcs.find(key.as_str()) {
        Some(function) => {
            assert(texts(function.body@).len() == function.body@.len());
            if function.body.len() > 0 {
                Some(function.body[0].clone())
            } else {
                None
            }
        },
        None => None,
    }
}

pub fn is_same_or_subclass(current: &str, target: &str, funcs: &Functions) -> (r: bool)
    ensures
        r == same_or_subclass(current@, target@, funcs@),
{
    let mut class: String = current.to_owned();
    let mut steps: usize = funcs.len();
    loop
        invariant
            same_or_subclass(current@, target@, funcs@) == descends(
                class@,
                target@,
                funcs@,
                steps as nat,
            ),
        decreases steps,
    {
        if same(class.as_str(), target) {
            return true;
        }
        if steps == 0 {
            return false;
        }
        match class_parent(class.as_str(), funcs) {
            Some(parent) => {
                class = parent;
            },
            None => {
                return false;
            },
        }
        steps -= 1;
    }
}

pub fn find_field_owner(class_name: &str, field: &str, funcs: &Functions) -> (r: Option<String>)
    ensures
        crate::ast::opt_text(r) == field_owner(class_name@, field@, funcs@),
{
    let mut class: String = class_name.to_owned();
    let mut steps: usize = funcs.len();
    loop
        invariant
            field_owner(class_name@, field@, funcs@) == owner_within(
                class@,
                field@,
                funcs@,
                steps as nat,
            ),
        decreases steps,
    {
        let key = join3(class.as_str(), ".__field__.", field);
        if funcs.holds(key.as_str()) {
            return Some(class);
        }
        if steps == 0 {
            return None;
        }
        match class_parent(class.as_str(), funcs) {
            Some(parent) => {
                class = parent;
            },
            None => {
                return None;
            },
        }
        steps -= 1;
    }
}

// ---------------------------------------------------------------------------
// Visibility
// ---------------------------------------------------------------------------

/// The text that a value holds.
pub open spec fn text_in(v: Option<Val>) -> Option<Str> {
    match v {
        Some(Val::Text(s)) => Some(s),
        _ => None,
    }
}

/// Whether a field may be touched by code that runs with the given variables. A private field is
/// for its own class in its own module, a protected one for the class and its subclasses.
pub open spec fn field_access(
    object_class: Str,
    field: Str,
    vars: Rows<Val>,
    funcs: Rows<Fun>,
    frames: Seq<FrameM>,
) -> Result<(), Str> {
    match field_owner(object_class, field, funcs) {
        None => Ok(()),
        Some(owner) => match get(funcs, field_key(owner, field)) {
            None => Ok(()),
            Some(metadata) => if metadata.visibility == "public"@ {
                Ok(())
            } else {
                let caller = text_in(get(vars, "__zap_owner_class"@));
                let caller_module = text_in(get(vars, "__zap_module"@));
                let owner_module = text_in(
                    lookup(frames, metadata.closure as int, "__zap_module"@),
                );
                let allowed = match caller {
                    Some(class) => if metadata.visibility == "private"@ {
                        class == owner && caller_module == owner_module
                    } else {
                        metadata.visibility == "protected"@ && same_or_subclass(class, owner, funcs)
                    },
                    None => false,
                };
                if allowed {
                    Ok(())
                } else {
                    Err(metadata.visibility + " field is not accessible from this context"@)
                }
            },
        },
    }
}

/// Whether a method may be called by code that runs with the given variables.
pub open spec fn method_access(
    function: Fun,
    dispatch_class: Str,
    vars: Rows<Val>,
    funcs: Rows<Fun>,
) -> Result<(), Str> {
    if function.visibility == "public"@ {
        Ok(())
    } else {
        match text_in(get(vars, "__zap_owner_class"@)) {
            None => Err(function.visibility + " method is not accessible from this context"@),
            Some(caller) => {
                let allowed = if function.visibility == "private"@ {
                    caller == dispatch_class
                } else {
                    same_or_subclass(caller, dispatch_class, funcs)
                };
                if allowed {
                    Ok(())
                } else {
                    Err(function.visibility + " method is not accessible from "@ + caller)
                }
            },
        }
    }
}

fn text_of_value(v: Option<&ZapValue>) -> (r: Option<String>)
    ensures
        crate::ast::opt_text(r) == text_in(
            match v {
                Some(value) => Some(value@),
                None => None,
            },
        ),
{
    match v {
        Some(ZapValue::Text(s)) => Some(s.clone()),
        _ => None,
    }
}

fn same_opt(a: &Option<String>, b: &Option<String>) -> (r: bool)
    ensures
        r == (crate::ast::opt_text(*a) == crate::ast::opt_text(*b)),
{
    match (a, b) {
        (Some(x), Some(y)) => same(x.as_str(), y.as_str()),
        (None, None) => true,
        _ => false,
    }
}

pub fn check_field_visibility(
    object_class: &str,
    field: &str,
    vars: &Table<ZapValue>,
    funcs: &Functions,
    context: &ExecutionContext,
) -> (r: Result<(), String>)
    ensures
        told_unit(r) == field_access(object_class@, field@, vars@, funcs@, context@.frames),
{
    let owner = match find_field_owner(object_class, field, funcs) {
        None => {
            return Ok(());
        },
        Some(owner) => owner,
    };
    let key = join3(owner.as_str(), ".__field__.", field);
    let metadata = match funcs.find(key.as_str()) {
        None => {
            return Ok(());
        },
        Some(metadata) => metadata,
    };
    if same(metadata.visibility.as_str(), "public") {
        return Ok(());
    }
    let caller = text_of_value(vars.find("__zap_owner_class"));
    let caller_module = text_of_value(vars.find("__zap_module"));
    let owner_module = text_of_value(context.lookup(metadata.closure, "__zap_module"));
    let allowed = match &caller {
        Some(class) => if same(metadata.visibility.as_str(), "private") {
            same(class.as_str(), owner.as_str()) && same_opt(&caller_module, &owner_module)
        } else {
            same(metadata.visibility.as_str(), "protected") && is_same_or_subclass(
                class.as_str(),
                owner.as_str(),
                funcs,
            )
        },
        None => false,
    };
    if allowed {
        Ok(())
    } else {
        Err(join2(metadata.visibility.as_str(), " field is not accessible from this context"))
    }
}

pub fn check_method_visibility(
    function: &Function,
    dispatch_class: &str,
    vars: &Table<ZapValue>,
    funcs: &Functions,
) -> (r: Result<(), String>)
    ensures
        told_unit(r) == method_access(function@, dispatch_class@, vars@, funcs@),
{
    if same(function.visibility.as_str(), "public") {
        return Ok(());
    }
    let caller = match text_of_value(vars.find("__zap_owner_class")) {
        None => {
            return Err(
                join2(
                    function.visibility.as_str(),
                    " method is not accessible from this context",
                ),
            );
        },
        Some(caller) => caller,
    };
    let allowed = if same(function.visibility.as_str(), "private") {
        same(caller.as_str(), dispatch_class)
    } else {
        is_same_or_subclass(caller.as_str(), dispatch_class, funcs)
    };
    if allowed {
        Ok(())
    } else {
        Err(
            join3(
                function.visibility.as_str(),
                " method is not accessible from ",
                caller.as_str(),
            ),
        )
    }
}

// ---------------------------------------------------------------------------
// Delegation to the parent constructor
// ---------------------------------------------------------------------------

/// Whether an expression is a call of `super.init`.
pub open spec fn is_super_init(e: ExprM) -> bool {
    match e {
        ExprM::Call { callee, .. } => match *callee {
            ExprM::Member { target, member } => member == "init"@ && *target == ExprM::Name(
                "super"@,
            ),
            _ => false,
        },
        _ => false,
    }
}

/// Whether a statement, or one inside its branches and loops, calls `super.init`.
pub open spec fn stmt_delegates(s: StmtM) -> bool
    decreases s,
{
    match s {
        StmtM::Expression(e) => is_super_init(e),
        StmtM::If { then_branch, else_branch, .. } => delegates(then_branch) || match else_branch {
            Some(branch) => delegates(branch),
            None => false,
        },
        StmtM::While { body, .. } => delegates(body),
        StmtM::For { body, .. } => delegates(body),
        _ => false,
    }
}

pub open spec fn delegates(program: Seq<StmtM>) -> bool
    decreases program,
{
    exists|i: int| 0 <= i < program.len() && stmt_delegates(#[trigger] program[i])
}

/// Whether a constructor calls the constructor of its parent itself.
pub open spec fn constructor_delegates(function: Fun) -> bool {
    (exists|i: int|
        0 <= i < function.body.len() && includes(#[trigger] function.body[i], "super.init("@))
        || match function.ast_body {
        Some(program) => delegates(program),
        None => false,
    }
}

fn expression_is_super_init(e: &Expr) -> (r: bool)
    ensures
        r == is_super_init(e@),
{
    reveal_with_fuel(Expr::model, 3);
    match e {
        Expr::Call { callee, .. } => match &**callee {
            Expr::Member { target, member } => same(member.as_str(), "init") && match &**target {
                Expr::Name(name) => same(name.as_str(), "super"),
                _ => false,
            },
            _ => false,
        },
        _ => false,
    }
}

fn ast_contains_super_init(program: &Program) -> (r: bool)
    ensures
        r == delegates(program@),
    decreases program,
{
    proof {
        lemma_program(program);
    }
    let mut i: usize = 0;
    while i < program.statements.len()
        invariant
            i <= program.statements@.len(),
            program@ == views(program.statements@),
            forall|j: int| 0 <= j < i ==> !stmt_delegates(#[trigger] program@[j]),
        decreases program.statements.len() - i,
    {
        let statement = &program.statements[i];
        assert(decreases_to!(program => program.statements));
        assert(decreases_to!(program.statements@ => program.statements@[i as int]));
        assert(program@[i as int] == statement@);
        let found = match statement {
            Stmt::Expression(e) => expression_is_super_init(e),
            Stmt::If { then_branch, else_branch, .. } => ast_contains_super_init(then_branch)
                || match else_branch {
                Some(branch) => ast_contains_super_init(branch),
                None => false,
            },
            Stmt::While { body, .. } => ast_contains_super_init(body),
            Stmt::For { body, .. } => ast_contains_super_init(body),
            _ => false,
        };
        assert(found == stmt_delegates(program@[i as int]));
        if found {
            return true;
        }
        i += 1;
    }
    false
}

pub fn constructor_delegates_to_parent(function: &Function) -> (r: bool)
    ensures
        r == constructor_delegates(function@),
{
    let mut i: usize = 0;
    while i < function.body.len()
        invariant
            i <= function.body@.len(),
            forall|j: int|
                0 <= j < i ==> !includes(#[trigger] texts(function.body@)[j], "super.init("@),
        decreases function.body.len() - i,
    {
        assert(texts(function.body@)[i as int] == function.body@[i as int]@);
        if contains(function.body[i].as_str(), "super.init(") {
            assert(includes(function@.body[i as int], "super.init("@));
            return true;
        }
        i += 1;
    }
    match &function.ast_body {
        Some(program) => ast_contains_super_init(program),
        None => false,
    }
}

} // verus!
