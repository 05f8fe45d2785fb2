//! Who may touch what of an object: the visibility of fields and methods, the lines of ancestors
//! that it goes by, and how classes, fields and methods come into the table of functions.

use crate::ast::{CallArgM, ExprM, ParamM, StmtM};
use crate::classes::{
    class_key, constructor_delegates, delegates, descends, field_access, field_key, field_owner,
    field_prefix, method_access, method_key, owner_within, parent, parent_key, same_or_subclass,
    stmt_delegates, text_in,
};
use crate::laws::{
    ancestor, law_classes_descend_from_their_ancestors, lemma_ancestor_from, lemma_near_ancestor,
};
use crate::registry::{
    class_marked, class_registered, export_key, field_registered, function_registered, inherited,
    members_registered, method_params, method_registered, own_init_key, without_prefixes, FunctionM,
};
use crate::semantics::{
    call_method, construct_inner, construct_own, construct_parent, construction, eval,
    field_assigned, field_value, init_fields, member_of, own_fields, parent_init, positional,
};
use crate::table::{
    get, lemma_get_put_other, lemma_get_put_same, lemma_put_ordered, ordered, put, Rows,
};
use crate::text::{has_prefix, Str};
use crate::value::{Fun, Val};
use crate::world::{extend_fields, lookup, names_of, new_object, set_field, FrameM, World};
use vstd::prelude::*;

verus! {

// ---------------------------------------------------------------------------
// Lines of ancestors
// ---------------------------------------------------------------------------

/// Whether a class is `target` or has it among its ancestors.
pub open spec fn is_kind_of(class_name: Str, target: Str, funcs: Rows<Fun>) -> bool {
    exists|n: nat| #[trigger] ancestor(class_name, funcs, n) == Some(target)
}

proof fn lemma_descends_back(current: Str, target: Str, funcs: Rows<Fun>, steps: nat) -> (n: nat)
    requires
        descends(current, target, funcs, steps),
    ensures
        ancestor(current, funcs, n) == Some(target),
    decreases steps,
{
    if current == target {
        assert(ancestor(current, funcs, 0) == Some(current));
        0
    } else {
        let above = parent(current, funcs)->0;
        let n = lemma_descends_back(above, target, funcs, (steps - 1) as nat);
        lemma_ancestor_from(current, funcs, n + 1);
        n + 1
    }
}

/// The test for subclasses finds the class itself and its ancestors, and no other class.
pub proof fn law_subclasses_are_found(class_name: Str, target: Str, funcs: Rows<Fun>)
    ensures
        same_or_subclass(class_name, target, funcs) <==> is_kind_of(class_name, target, funcs),
        same_or_subclass(class_name, class_name, funcs),
{
    assert(ancestor(class_name, funcs, 0) == Some(class_name));
    if same_or_subclass(class_name, target, funcs) {
        let n = lemma_descends_back(class_name, target, funcs, funcs.len());
        assert(ancestor(class_name, funcs, n) == Some(target));
    }
    if is_kind_of(class_name, target, funcs) {
        let n = choose|n: nat| #[trigger] ancestor(class_name, funcs, n) == Some(target);
        law_classes_descend_from_their_ancestors(class_name, target, funcs, n);
    }
}

/// Whether a class declares a field itself.
pub open spec fn declares(class_name: Str, field: Str, funcs: Rows<Fun>) -> bool {
    get(funcs, field_key(class_name, field)) is Some
}

/// Whether `owner` is the `n`th class above a class and the nearest one that declares a field.
pub open spec fn nearest(class_name: Str, field: Str, owner: Str, funcs: Rows<Fun>, n: nat) -> bool {
    &&& ancestor(class_name, funcs, n) == Some(owner)
    &&& declares(owner, field, funcs)
    &&& forall|m: nat|
        m < n && (#[trigger] ancestor(class_name, funcs, m)) is Some ==> !declares(
            ancestor(class_name, funcs, m)->0,
            field,
            funcs,
        )
}

/// Whether a field of an object of a class is the one that `owner` declares.
pub open spec fn belongs_to(class_name: Str, field: Str, owner: Str, funcs: Rows<Fun>) -> bool {
    exists|n: nat| #[trigger] nearest(class_name, field, owner, funcs, n)
}

proof fn lemma_owner_within(
    class_name: Str,
    field: Str,
    owner: Str,
    funcs: Rows<Fun>,
    n: nat,
    steps: nat,
)
    requires
        nearest(class_name, field, owner, funcs, n),
        n <= steps,
    ensures
        owner_within(class_name, field, funcs, steps) == Some(owner),
    decreases n,
{
    assert(ancestor(class_name, funcs, 0) == Some(class_name));
    if n > 0 {
        lemma_ancestor_from(class_name, funcs, n);
        let above = parent(class_name, funcs)->0;
        assert forall|m: nat|
            m < n - 1 && (#[trigger] ancestor(above, funcs, m)) is Some implies !declares(
            ancestor(above, funcs, m)->0,
            field,
            funcs,
        ) by {
            lemma_ancestor_from(class_name, funcs, m + 1);
            assert(ancestor(class_name, funcs, m + 1) is Some);
        }
        assert(nearest(above, field, owner, funcs, (n - 1) as nat));
        lemma_owner_within(above, field, owner, funcs, (n - 1) as nat, (steps - 1) as nat);
    }
}

proof fn lemma_owner_declares(class_name: Str, field: Str, funcs: Rows<Fun>, steps: nat) -> (n: nat)
    requires
        owner_within(class_name, field, funcs, steps) is Some,
    ensures
        ancestor(class_name, funcs, n) == owner_within(class_name, field, funcs, steps),
        declares(owner_within(class_name, field, funcs, steps)->0, field, funcs),
    decreases steps,
{
    if declares(class_name, field, funcs) {
        assert(ancestor(class_name, funcs, 0) == Some(class_name));
        0
    } else {
        let above = parent(class_name, funcs)->0;
        let n = lemma_owner_declares(above, field, funcs, (steps - 1) as nat);
        lemma_ancestor_from(class_name, funcs, n + 1);
        n + 1
    }
}

/// A field belongs to the nearest class, from the object's own class upwards, that declares it; a
/// field that none of them declares belongs to no class.
pub proof fn law_fields_belong_to_the_nearest_class(
    class_name: Str,
    field: Str,
    owner: Str,
    funcs: Rows<Fun>,
)
    ensures
        belongs_to(class_name, field, owner, funcs) ==> field_owner(class_name, field, funcs)
            == Some(owner),
        (forall|n: nat|
            (#[trigger] ancestor(class_name, funcs, n)) is Some ==> !declares(
                ancestor(class_name, funcs, n)->0,
                field,
                funcs,
            )) ==> field_owner(class_name, field, funcs) is None,
{
    if belongs_to(class_name, field, owner, funcs) {
        let n = choose|n: nat| #[trigger] nearest(class_name, field, owner, funcs, n);
        let k = lemma_near_ancestor(class_name, owner, funcs, n);
        assert(n <= k);
        lemma_owner_within(class_name, field, owner, funcs, n, funcs.len());
    }
    if field_owner(class_name, field, funcs) is Some {
        let n = lemma_owner_declares(class_name, field, funcs, funcs.len());
        assert(ancestor(class_name, funcs, n) is Some);
    }
}

// ---------------------------------------------------------------------------
// Fields
// ---------------------------------------------------------------------------

/// The class that code belongs to, as its variables tell.
pub open spec fn runs_in(vars: Rows<Val>, class_name: Str) -> bool {
    get(vars, "__zap_owner_class"@) == Some(Val::Text(class_name))
}

proof fn lemma_visibilities_differ()
    ensures
        "public"@ != "private"@,
        "public"@ != "protected"@,
        "private"@ != "protected"@,
{
    reveal_strlit("public");
    reveal_strlit("private");
    reveal_strlit("protected");
    assert("public"@.len() == 6);
    assert("private"@.len() == 7);
    assert("protected"@.len() == 9);
}

/// A public field, and one that no class declares, is open to all code.
pub proof fn law_public_fields_are_open(
    class_name: Str,
    field: Str,
    owner: Str,
    vars: Rows<Val>,
    funcs: Rows<Fun>,
    frames: Seq<FrameM>,
)
    ensures
        belongs_to(class_name, field, owner, funcs) && get(
            funcs,
            field_key(owner, field),
        )->0.visibility == "public"@ ==> field_access(class_name, field, vars, funcs, frames) is Ok,
        (forall|n: nat|
            (#[trigger] ancestor(class_name, funcs, n)) is Some ==> !declares(
                ancestor(class_name, funcs, n)->0,
                field,
                funcs,
            )) ==> field_access(class_name, field, vars, funcs, frames) is Ok,
{
    law_fields_belong_to_the_nearest_class(class_name, field, owner, funcs);
}

/// A protected field is open to the code of the class that declares it and to the code of the
/// classes below that class, and to no other code.
pub proof fn law_protected_fields_are_for_subclasses(
    class_name: Str,
    field: Str,
    owner: Str,
    caller: Str,
    vars: Rows<Val>,
    funcs: Rows<Fun>,
    frames: Seq<FrameM>,
)
    requires
        belongs_to(class_name, field, owner, funcs),
        get(funcs, field_key(owner, field))->0.visibility == "protected"@,
        runs_in(vars, caller),
    ensures
        field_access(class_name, field, vars, funcs, frames) is Ok <==> is_kind_of(
            caller,
            owner,
            funcs,
        ),
        caller == owner ==> field_access(class_name, field, vars, funcs, frames) is Ok,
{
    law_fields_belong_to_the_nearest_class(class_name, field, owner, funcs);
    law_subclasses_are_found(caller, owner, funcs);
    lemma_visibilities_differ();
    let n = choose|n: nat| #[trigger] nearest(class_name, field, owner, funcs, n);
    assert(declares(owner, field, funcs));
}

/// A private field is open to the code of the class that declares it, in the module that declares
/// it, and to no other code.
pub proof fn law_private_fields_are_for_their_class(
    class_name: Str,
    field: Str,
    owner: Str,
    caller: Str,
    vars: Rows<Val>,
    funcs: Rows<Fun>,
    frames: Seq<FrameM>,
)
    requires
        belongs_to(class_name, field, owner, funcs),
        get(funcs, field_key(owner, field))->0.visibility == "private"@,
        runs_in(vars, caller),
    ensures
        field_access(class_name, field, vars, funcs, frames) is Ok <==> caller == owner && text_in(
            get(vars, "__zap_module"@),
        ) == text_in(
            lookup(
                frames,
                get(funcs, field_key(owner, field))->0.closure as int,
                "__zap_module"@,
            ),
        ),
{
    law_fields_belong_to_the_nearest_class(class_name, field, owner, funcs);
    lemma_visibilities_differ();
    let n = choose|n: nat| #[trigger] nearest(class_name, field, owner, funcs, n);
    assert(declares(owner, field, funcs));
}

/// Code outside every class sees public fields alone.
pub proof fn law_code_outside_classes_sees_public_fields(
    class_name: Str,
    field: Str,
    owner: Str,
    vars: Rows<Val>,
    funcs: Rows<Fun>,
    frames: Seq<FrameM>,
)
    requires
        belongs_to(class_name, field, owner, funcs),
        get(vars, "__zap_owner_class"@) is None,
    ensures
        field_access(class_name, field, vars, funcs, frames) is Ok <==> get(
            funcs,
            field_key(owner, field),
        )->0.visibility == "public"@,
{
    law_fields_belong_to_the_nearest_class(class_name, field, owner, funcs);
    let n = choose|n: nat| #[trigger] nearest(class_name, field, owner, funcs, n);
    assert(declares(owner, field, funcs));
}

/// What may not be touched is neither read nor written. What may be touched is read as the object
/// has it, and a write changes that field of that object alone.
pub proof fn law_objects_guard_their_fields(
    class_name: Str,
    id: usize,
    name: Str,
    field: Str,
    other: Str,
    value: Val,
    vars: Rows<Val>,
    funcs: Rows<Fun>,
    w: World,
)
    requires
        get(vars, name) == Some(Val::Object { class_name, id }),
        id < w.cells.len(),
        !w.cells[id as int].held,
        ordered(w.cells[id as int].fields),
    ensures
        ({
            let access = field_access(class_name, field, vars, funcs, w.frames);
            let read = member_of(Val::Object { class_name, id }, field, vars, funcs, w);
            let (written, after) = field_assigned(name, field, value, vars, funcs, w);
            &&& access is Err ==> read is Err && written is Err && after == w
            &&& access is Ok ==> {
                &&& read is Ok <==> get(w.cells[id as int].fields, field) is Some
                &&& read is Ok ==> read->Ok_0 == get(w.cells[id as int].fields, field)->0
                &&& written is Ok
                &&& get(after.cells[id as int].fields, field) == Some(value)
                &&& other != field ==> get(after.cells[id as int].fields, other) == get(
                    w.cells[id as int].fields,
                    other,
                )
                &&& forall|k: int|
                    0 <= k < w.cells.len() && k != id ==> after.cells[k] == #[trigger] w.cells[k]
                &&& after.cells.len() == w.cells.len()
                &&& after.frames == w.frames
            }
        }),
{
    let fields = w.cells[id as int].fields;
    lemma_get_put_same(fields, field, value);
    if other != field {
        lemma_get_put_other(fields, field, value, other);
    }
}

// ---------------------------------------------------------------------------
// Methods
// ---------------------------------------------------------------------------

/// A public method is open to all code, a private one to the code of its class, and any other one
/// to the code of its class and the classes below it.
pub proof fn law_methods_are_guarded(
    f: Fun,
    class_name: Str,
    caller: Str,
    vars: Rows<Val>,
    funcs: Rows<Fun>,
)
    ensures
        f.visibility == "public"@ ==> method_access(f, class_name, vars, funcs) is Ok,
        runs_in(vars, caller) && f.visibility == "private"@ ==> (method_access(
            f,
            class_name,
            vars,
            funcs,
        ) is Ok <==> caller == class_name),
        runs_in(vars, caller) && f.visibility == "protected"@ ==> (method_access(
            f,
            class_name,
            vars,
            funcs,
        ) is Ok <==> is_kind_of(caller, class_name, funcs)),
        get(vars, "__zap_owner_class"@) is None ==> (method_access(
            f,
            class_name,
            vars,
            funcs,
        ) is Ok <==> f.visibility == "public"@),
{
    lemma_visibilities_differ();
    law_subclasses_are_found(caller, class_name, funcs);
}

// ---------------------------------------------------------------------------
// Declarations
// ---------------------------------------------------------------------------

/// A function that has been registered is found under its name, with its parameters, its body and
/// its marks, and closes over a new frame inside the frame of its declaration. No other name is
/// touched, but for the mark of an export.
pub proof fn law_registered_functions_are_found(
    d: FunctionM,
    frame: usize,
    funcs: Rows<Fun>,
    w: World,
    other: Str,
)
    requires
        ordered(funcs),
        function_registered(d, frame, funcs, w).result is Ok,
        d.name != export_key(d.name),
    ensures
        ({
            let done = function_registered(d, frame, funcs, w);
            let found = get(done.funcs, d.name);
            &&& found is Some
            &&& found->0.params == d.params
            &&& found->0.ast_body == Some(d.body)
            &&& found->0.return_annotation == d.return_type
            &&& found->0.type_params == d.type_params
            &&& found->0.visibility == d.visibility
            &&& found->0.is_async == d.is_async
            &&& found->0.closure == w.frames.len() as usize
            &&& done.world.frames.len() == w.frames.len() + 1
            &&& done.world.frames.last().parent == Some(frame)
            &&& get(done.funcs, export_key(d.name)) == (if d.exported {
                found
            } else {
                get(funcs, export_key(d.name))
            })
            &&& other != d.name && other != export_key(d.name) ==> get(done.funcs, other) == get(
                funcs,
                other,
            )
        }),
{
    let done = function_registered(d, frame, funcs, w);
    let f = crate::registry::function_record(d, w.frames.len() as usize);
    lemma_get_put_same(funcs, d.name, f);
    lemma_put_ordered(funcs, d.name, f);
    lemma_get_put_other(funcs, d.name, f, export_key(d.name));
    if other != d.name {
        lemma_get_put_other(funcs, d.name, f, other);
    }
    let more = put(funcs, d.name, f);
    lemma_get_put_same(more, export_key(d.name), f);
    lemma_get_put_other(more, export_key(d.name), f, d.name);
    if other != export_key(d.name) {
        lemma_get_put_other(more, export_key(d.name), f, other);
    }
}

/// A field that has been registered belongs to its class, with the visibility and the first value
/// of its declaration.
pub proof fn law_registered_fields_are_found(
    class_name: Str,
    field: Str,
    annotation: Option<Str>,
    value: ExprM,
    visibility: Str,
    frame: usize,
    funcs: Rows<Fun>,
    w: World,
)
    requires
        field_registered(
            class_name,
            field,
            annotation,
            value,
            visibility,
            frame,
            funcs,
            w,
        ).result is Ok,
    ensures
        ({
            let done = field_registered(
                class_name,
                field,
                annotation,
                value,
                visibility,
                frame,
                funcs,
                w,
            );
            let found = get(done.funcs, field_key(class_name, field));
            &&& declares(class_name, field, done.funcs)
            &&& field_owner(class_name, field, done.funcs) == Some(class_name)
            &&& found->0.visibility == visibility
            &&& found->0.ast_body == Some(seq![StmtM::Return(Some(value))])
        }),
{
    let f = Fun {
        visibility,
        type_params: Seq::empty(),
        params: Seq::empty(),
        return_annotation: annotation,
        is_async: false,
        body: Seq::empty(),
        ast_body: Some(seq![StmtM::Return(Some(value))]),
        closure: w.frames.len() as usize,
    };
    lemma_get_put_same(funcs, field_key(class_name, field), f);
}

/// A method that has been registered is found under its class, with the visibility and the body of
/// its declaration. Its code runs in its class, and its first parameter is the receiver.
pub proof fn law_registered_methods_are_found(
    class_name: Str,
    method: Str,
    params: Seq<ParamM>,
    return_type: Option<Str>,
    body: Seq<StmtM>,
    visibility: Str,
    is_async: bool,
    frame: usize,
    funcs: Rows<Fun>,
    w: World,
)
    requires
        method_registered(
            class_name,
            method,
            params,
            return_type,
            body,
            visibility,
            is_async,
            frame,
            funcs,
            w,
        ).result is Ok,
    ensures
        ({
            let done = method_registered(
                class_name,
                method,
                params,
                return_type,
                body,
                visibility,
                is_async,
                frame,
                funcs,
                w,
            );
            let found = get(done.funcs, method_key(class_name, method));
            &&& found is Some
            &&& found->0.visibility == visibility
            &&& found->0.ast_body == Some(body)
            &&& found->0.is_async == is_async
            &&& found->0.return_annotation == return_type
            &&& found->0.params.len() > 0 && found->0.params[0].name == "self"@
            &&& params.len() > 0 && params[0].name == "self"@ ==> found->0.params == params
            &&& !(params.len() > 0 && params[0].name == "self"@) ==> found->0.params.skip(1)
                == params
            &&& done.world.frames.len() <= usize::MAX ==> lookup(
                done.world.frames,
                found->0.closure as int,
                "__zap_owner_class"@,
            ) == Some(Val::Text(class_name))
        }),
{
    assert((seq![crate::registry::self_param()] + params).skip(1) =~= params);
    let done = method_registered(
        class_name,
        method,
        params,
        return_type,
        body,
        visibility,
        is_async,
        frame,
        funcs,
        w,
    );
    let marked = if method == "init"@ {
        crate::registry::init_marked(class_name, frame, funcs, w)
    } else {
        crate::registry::Registered { result: Ok(()), funcs, world: w }
    };
    let closure = marked.world.frames.len() as usize;
    let f = Fun {
        visibility,
        type_params: Seq::empty(),
        params: method_params(params),
        return_annotation: return_type,
        is_async,
        body: Seq::empty(),
        ast_body: Some(body),
        closure,
    };
    lemma_get_put_same(marked.funcs, method_key(class_name, method), f);
    if done.world.frames.len() <= usize::MAX {
        let (id, made) = crate::world::new_frame(marked.world, Seq::empty(), Some(frame), None);
        lemma_get_put_same(
            names_of(made, closure as int),
            "__zap_owner_class"@,
            Val::Text(class_name),
        );
        assert(crate::world::holder(done.world.frames, closure as int, "__zap_owner_class"@) == Some(
            closure as int,
        ));
    }
}

/// A class that has been entered is known, its parent is the class that it was declared with, and
/// a parent that is not known is refused.
pub proof fn law_classes_know_their_parents(
    name: Str,
    base: Option<Str>,
    frame: usize,
    funcs: Rows<Fun>,
    w: World,
)
    requires
        ordered(funcs),
    ensures
        ({
            let done = class_marked(name, base, frame, funcs, w);
            &&& get(done.funcs, class_key(name)) is Some
            &&& base is None ==> done.result is Ok && parent(name, done.funcs) == parent(name, funcs)
            &&& base is Some ==> (done.result is Ok <==> base->0 == name || get(
                funcs,
                class_key(base->0),
            ) is Some)
            &&& base is Some && done.result is Ok ==> parent(name, done.funcs) == base
        }),
{
    lemma_class_keys_differ(name, name);
    let m = crate::registry::mark(Seq::empty(), w.frames.len() as usize);
    lemma_get_put_same(funcs, class_key(name), m);
    lemma_put_ordered(funcs, class_key(name), m);
    lemma_get_put_other(funcs, class_key(name), m, parent_key(name));
    let known = put(funcs, class_key(name), m);
    if let Some(above) = base {
        if above != name {
            lemma_class_keys_same(above, name);
            lemma_get_put_other(funcs, class_key(name), m, class_key(above));
        }
        let (own, w1) = crate::world::new_frame(w, Seq::empty(), Some(frame), None);
        let (link, w2) = crate::world::new_frame(w1, Seq::empty(), Some(frame), None);
        let l = crate::registry::mark(seq![above], link);
        lemma_get_put_same(known, parent_key(name), l);
        lemma_get_put_other(known, parent_key(name), l, class_key(name));
    }
}

proof fn lemma_class_keys_differ(a: Str, b: Str)
    ensures
        class_key(a) != parent_key(b),
{
    reveal_strlit(".__class__");
    reveal_strlit(".__parent__");
    let c = class_key(a);
    let p = parent_key(b);
    if c == p {
        assert(c[c.len() - 3] == 's');
        assert(p[p.len() - 3] == 't');
    }
}

proof fn lemma_class_keys_same(a: Str, b: Str)
    ensures
        class_key(a) == class_key(b) ==> a == b,
{
    assert(class_key(a).take(a.len() as int) =~= a);
    assert(class_key(b).take(b.len() as int) =~= b);
    assert(class_key(a).len() == a.len() + ".__class__"@.len());
    assert(class_key(b).len() == b.len() + ".__class__"@.len());
}

/// A name behind a prefix is the name, where the name does not begin with the prefix again.
pub proof fn law_members_are_named_without_their_class(prefix: Str, name: Str)
    requires
        prefix.len() > 0,
        !has_prefix(name, prefix),
    ensures
        without_prefixes(prefix + name, prefix) == name,
{
    assert((prefix + name).skip(prefix.len() as int) =~= name);
    assert((prefix + name).take(prefix.len() as int) =~= prefix);
    assert(has_prefix(prefix + name, prefix));
    assert(without_prefixes(name, prefix) == name);
}

/// What a class lacks and its parent has, it inherits: the first record of the parent under the
/// name. Fields are not handed on to a class in this way.
pub proof fn law_members_are_inherited(
    class_name: Str,
    prefix: Str,
    records: Rows<Fun>,
    i: nat,
    j: int,
    funcs: Rows<Fun>,
)
    requires
        ordered(funcs),
        i <= j < records.len(),
        has_prefix(records[j].0, prefix),
        !has_prefix(without_prefixes(records[j].0, prefix), "__field__."@),
        get(funcs, method_key(class_name, without_prefixes(records[j].0, prefix))) is None,
        forall|k: int|
            i <= k < j && has_prefix((#[trigger] records[k]).0, prefix) ==> without_prefixes(
                records[k].0,
                prefix,
            ) != without_prefixes(records[j].0, prefix),
    ensures
        get(
            inherited(class_name, prefix, records, i, false, funcs),
            method_key(class_name, without_prefixes(records[j].0, prefix)),
        ) == Some(records[j].1),
    decreases records.len() - i,
{
    let key = records[i as int].0;
    let name = without_prefixes(key, prefix);
    let own = method_key(class_name, name);
    let wanted = method_key(class_name, without_prefixes(records[j].0, prefix));
    let taken = has_prefix(key, prefix) && !has_prefix(name, "__field__."@) && get(funcs, own)
        is None;
    let next = if taken {
        put(funcs, own, records[i as int].1)
    } else {
        funcs
    };
    lemma_put_ordered(funcs, own, records[i as int].1);
    lemma_get_put_same(funcs, own, records[i as int].1);
    if i == j {
        crate::laws::law_own_members_win(class_name, prefix, records, i + 1, false, next, wanted);
    } else {
        if has_prefix(key, prefix) {
            lemma_method_keys(class_name, name, without_prefixes(records[j].0, prefix));
            lemma_get_put_other(funcs, own, records[i as int].1, wanted);
        }
        law_members_are_inherited(class_name, prefix, records, i + 1, j, next);
    }
}

proof fn lemma_method_keys(class_name: Str, a: Str, b: Str)
    ensures
        method_key(class_name, a) == method_key(class_name, b) ==> a == b,
{
    let n = class_name.len() + "."@.len();
    assert(method_key(class_name, a).skip(n as int) =~= a);
    assert(method_key(class_name, b).skip(n as int) =~= b);
}

// ---------------------------------------------------------------------------
// Construction
// ---------------------------------------------------------------------------

/// A construction that ends well gives an object of the class that was asked for, one that has not
/// been there before. A class that is not known, and a first argument that is no text, is refused.
pub proof fn law_objects_are_new(
    args: Seq<Val>,
    vars: Rows<Val>,
    funcs: Rows<Fun>,
    w: World,
    fuel: nat,
)
    ensures
        ({
            let (r, after) = construct_inner(args, vars, funcs, w, fuel);
            &&& r is Ok ==> {
                &&& args.len() > 0 && args[0] is Text
                &&& get(funcs, class_key(args[0]->Text_0)) is Some
                &&& r->Ok_0 == (Val::Object {
                    class_name: args[0]->Text_0,
                    id: w.cells.len() as usize,
                })
            }
        }),
{
}

/// An object gets the fields of the classes above its class before those of its class.
pub proof fn law_fields_of_ancestors_come_first(
    class_name: Str,
    object: Val,
    steps: nat,
    vars: Rows<Val>,
    funcs: Rows<Fun>,
    w: World,
    fuel: nat,
)
    requires
        object is Object,
    ensures
        parent(class_name, funcs) is None ==> init_fields(
            class_name,
            object,
            steps,
            vars,
            funcs,
            w,
            fuel,
        ) == own_fields(class_name, object, 0, vars, funcs, w, fuel),
        parent(class_name, funcs) is Some && steps == 0 ==> init_fields(
            class_name,
            object,
            steps,
            vars,
            funcs,
            w,
            fuel,
        ).0 is Err,
        parent(class_name, funcs) is Some && steps > 0 ==> {
            let (r, w1) = init_fields(
                parent(class_name, funcs)->0,
                object,
                (steps - 1) as nat,
                vars,
                funcs,
                w,
                fuel,
            );
            let whole = init_fields(class_name, object, steps, vars, funcs, w, fuel);
            &&& r is Err ==> whole == (r, w1)
            &&& r is Ok ==> whole == own_fields(class_name, object, 0, vars, funcs, w1, fuel)
        },
{
}

/// Each field that a class declares is set to the value of its expression, which is evaluated with
/// the object as `self` and as code of the class; a record that declares no field of the class is
/// passed over.
pub proof fn law_fields_get_their_first_value(
    class_name: Str,
    id: usize,
    i: nat,
    field: Str,
    vars: Rows<Val>,
    funcs: Rows<Fun>,
    w: World,
    fuel: nat,
)
    requires
        i < funcs.len(),
    ensures
        ({
            let object = Val::Object { class_name, id };
            let local = put(
                put(vars, "self"@, object),
                "__zap_owner_class"@,
                Val::Text(class_name),
            );
            let whole = own_fields(class_name, object, i, vars, funcs, w, fuel);
            &&& runs_in(local, class_name)
            &&& !has_prefix(funcs[i as int].0, field_prefix(class_name)) ==> whole == own_fields(
                class_name,
                object,
                i + 1,
                vars,
                funcs,
                w,
                fuel,
            )
            &&& funcs[i as int].0 == field_key(class_name, field) && field_value(
                funcs[i as int].1,
            ) is Some ==> {
                let (r, w1) = eval(field_value(funcs[i as int].1)->0, local, funcs, w, fuel);
                &&& r is Err ==> whole.0 == Err::<(), Str>(r->Err_0)
                &&& r is Ok ==> {
                    let (s, w2) = set_field(w1, id, field, r->Ok_0);
                    &&& s is Err ==> whole.0 is Err
                    &&& s is Ok ==> whole == own_fields(
                        class_name,
                        object,
                        i + 1,
                        vars,
                        funcs,
                        w2,
                        fuel,
                    )
                }
            }
        }),
{
    let object = Val::Object { class_name, id };
    lemma_get_put_same(put(vars, "self"@, object), "__zap_owner_class"@, Val::Text(class_name));
    let prefix = field_prefix(class_name);
    let key = field_key(class_name, field);
    assert(key.subrange(0, prefix.len() as int) =~= prefix);
    assert(key.skip(prefix.len() as int) =~= field);
}

/// The constructor of the parent runs before a class's own one, unless that one calls it itself.
pub proof fn law_parents_are_constructed_first(class_name: Str, above: Str, f: Fun, funcs: Rows<Fun>)
    ensures
        parent_init(class_name, funcs) == Some((above, f)) <==> {
            &&& get(funcs, method_key(class_name, "init"@)) is Some
            &&& !constructor_delegates(get(funcs, method_key(class_name, "init"@))->0)
            &&& get(funcs, own_init_key(class_name)) is Some
            &&& parent(class_name, funcs) == Some(above)
            &&& get(funcs, method_key(above, "init"@)) == Some(f)
        },
{
}

/// A constructor is called with the object and the arguments behind the class name; an object of a
/// class without one is ready as it is.
pub proof fn law_constructors_are_called(
    class_name: Str,
    object: Val,
    rest: Seq<Val>,
    vars: Rows<Val>,
    funcs: Rows<Fun>,
    w: World,
    fuel: nat,
)
    ensures
        ({
            let init = get(funcs, method_key(class_name, "init"@));
            let whole = construct_own(class_name, object, rest, vars, funcs, w, fuel);
            &&& whole.0 is Ok ==> whole.0 == Ok::<Val, Str>(object)
            &&& init is Some && method_access(init->0, class_name, vars, funcs) is Err
                ==> whole.0 is Err && whole.1 == w
            &&& init is Some && call_method(
                init->0,
                positional(rest),
                object,
                funcs,
                w,
                fuel,
            ).0 is Err ==> whole.0 is Err
        }),
{
}

/// A class takes the marks, its own members, and behind them what it inherits from the class above
/// it; fields are found there through the line of ancestors.
pub proof fn law_classes_inherit_behind_their_own_members(
    name: Str,
    above: Str,
    body: Seq<StmtM>,
    frame: usize,
    funcs: Rows<Fun>,
    w: World,
)
    requires
        class_registered(name, Some(above), body, frame, funcs, w).result is Ok,
    ensures
        ({
            let marked = class_marked(name, Some(above), frame, funcs, w);
            let own = members_registered(name, body, 0, frame, marked.funcs, marked.world);
            let done = class_registered(name, Some(above), body, frame, funcs, w);
            &&& marked.result is Ok && own.result is Ok
            &&& done.funcs == inherited(name, above + "."@, own.funcs, 0, false, own.funcs)
            &&& done.world == own.world
        }),
{
}

/// Each member of a class is registered in its turn: a field with its value, a method with its
/// body; other statements of a class are no members.
pub proof fn law_members_are_registered_in_order(
    class_name: Str,
    body: Seq<StmtM>,
    i: nat,
    frame: usize,
    funcs: Rows<Fun>,
    w: World,
)
    requires
        i < body.len(),
    ensures
        ({
            let whole = members_registered(class_name, body, i, frame, funcs, w);
            &&& body[i as int] matches StmtM::Field { name, annotation, value, visibility } ==> {
                let step = field_registered(
                    class_name,
                    name,
                    annotation,
                    value,
                    visibility,
                    frame,
                    funcs,
                    w,
                );
                &&& step.result is Err ==> whole == step
                &&& step.result is Ok ==> whole == members_registered(
                    class_name,
                    body,
                    i + 1,
                    frame,
                    step.funcs,
                    step.world,
                )
            }
            &&& !(body[i as int] is Field) && !(body[i as int] is Function) ==> whole
                == members_registered(class_name, body, i + 1, frame, funcs, w)
        }),
{
}

/// A constructor calls that of its parent itself if one of its statements, or one inside its
/// branches and loops, is a call of `super.init`.
pub proof fn law_delegating_constructors(args: Seq<CallArgM>, test: ExprM, program: Seq<StmtM>, i: int)
    requires
        0 <= i < program.len(),
    ensures
        ({
            let call = ExprM::Call {
                callee: Box::new(
                    ExprM::Member {
                        target: Box::new(ExprM::Name("super"@)),
                        member: "init"@,
                    },
                ),
                args,
            };
            &&& program[i] == StmtM::Expression(call) ==> delegates(program)
            &&& delegates(program) ==> delegates(
                seq![StmtM::While { condition: test, body: program }],
            )
            &&& delegates(program) ==> delegates(
                seq![StmtM::If { condition: test, then_branch: program, else_branch: None }],
            )
            &&& delegates(program) ==> delegates(
                seq![
                    StmtM::If {
                        condition: test,
                        then_branch: Seq::empty(),
                        else_branch: Some(program),
                    },
                ],
            )
            &&& !delegates(seq![StmtM::Break])
        }),
{
    let call = ExprM::Call {
        callee: Box::new(
            ExprM::Member { target: Box::new(ExprM::Name("super"@)), member: "init"@ },
        ),
        args,
    };
    if program[i] == StmtM::Expression(call) {
        assert(stmt_delegates(program[i]));
        lemma_delegates(program, i);
    }
    if delegates(program) {
        let a = seq![StmtM::While { condition: test, body: program }];
        assert(stmt_delegates(a[0]));
        lemma_delegates(a, 0);
        let b = seq![StmtM::If { condition: test, then_branch: program, else_branch: None }];
        assert(stmt_delegates(b[0]));
        lemma_delegates(b, 0);
        let c = seq![
            StmtM::If {
                condition: test,
                then_branch: Seq::empty(),
                else_branch: Some(program),
            },
        ];
        assert(stmt_delegates(c[0]));
        lemma_delegates(c, 0);
    }
    let d = seq![StmtM::Break];
    if delegates(d) {
        let k = choose|k: int| 0 <= k < d.len() && stmt_delegates(#[trigger] d[k]);
        assert(d[k] == StmtM::Break);
    }
}

proof fn lemma_delegates(program: Seq<StmtM>, i: int)
    requires
        0 <= i < program.len(),
        stmt_delegates(program[i]),
    ensures
        delegates(program),
{
}

/// The parent's constructor runs first, with the object and the same arguments; where it fails, the
/// construction fails.
pub proof fn law_parents_constructors_run_first(
    class_name: Str,
    above: Str,
    f: Fun,
    object: Val,
    rest: Seq<Val>,
    vars: Rows<Val>,
    funcs: Rows<Fun>,
    w: World,
    fuel: nat,
)
    requires
        parent_init(class_name, funcs) == Some((above, f)),
        method_access(f, above, vars, funcs) is Ok,
    ensures
        ({
            let (r, w1) = call_method(f, positional(rest), object, funcs, w, fuel);
            let whole = construct_parent(class_name, object, rest, vars, funcs, w, fuel);
            &&& r is Err ==> whole.0 is Err
            &&& r is Ok ==> whole == construct_own(class_name, object, rest, vars, funcs, w1, fuel)
        }),
{
}

/// A construction makes an object, gives it the first values of its fields, then the fields of the
/// map in front of its arguments, and then runs the constructors.
pub proof fn law_constructions_fill_their_objects(
    class_name: Str,
    args: Seq<Val>,
    vars: Rows<Val>,
    funcs: Rows<Fun>,
    w: World,
    fuel: nat,
)
    requires
        args.len() > 0,
        args[0] == Val::Text(class_name),
        get(funcs, class_key(class_name)) is Some,
    ensures
        ({
            let (fields, rest) = construction(args, 1, Seq::empty(), Seq::empty());
            let (object, w1) = new_object(w, class_name);
            let (a, w2) = init_fields(class_name, object, funcs.len(), vars, funcs, w1, fuel);
            let (b, w3) = extend_fields(w2, object->id, fields);
            let whole = construct_inner(args, vars, funcs, w, fuel);
            &&& a is Err ==> whole.0 is Err
            &&& a is Ok && b is Err ==> whole.0 is Err
            &&& a is Ok && b is Ok ==> whole == construct_parent(
                class_name,
                object,
                rest,
                vars,
                funcs,
                w3,
                fuel,
            )
        }),
{
}

/// A function, a field and a method close over a new frame inside the frame of their declaration,
/// so that they see its variables.
pub proof fn law_declarations_see_their_surroundings(
    class_name: Str,
    method: Str,
    params: Seq<ParamM>,
    return_type: Option<Str>,
    body: Seq<StmtM>,
    visibility: Str,
    is_async: bool,
    frame: usize,
    funcs: Rows<Fun>,
    w: World,
)
    requires
        method != "init"@,
        w.frames.len() <= usize::MAX,
    ensures
        ({
            let done = method_registered(
                class_name,
                method,
                params,
                return_type,
                body,
                visibility,
                is_async,
                frame,
                funcs,
                w,
            );
            &&& done.result is Ok ==> get(
                done.funcs,
                method_key(class_name, method),
            )->0.closure == w.frames.len()
            &&& done.world.frames.len() == w.frames.len() + 1
            &&& done.world.frames[w.frames.len() as int].parent == Some(frame)
        }),
{
    let done = method_registered(
        class_name,
        method,
        params,
        return_type,
        body,
        visibility,
        is_async,
        frame,
        funcs,
        w,
    );
    let f = Fun {
        visibility,
        type_params: Seq::empty(),
        params: method_params(params),
        return_annotation: return_type,
        is_async,
        body: Seq::empty(),
        ast_body: Some(body),
        closure: w.frames.len() as usize,
    };
    lemma_get_put_same(funcs, method_key(class_name, method), f);
}

} // verus!
