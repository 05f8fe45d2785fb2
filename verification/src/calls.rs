//! How calls go: which arguments reach which parameters, what is missing or too much, which
//! function a name calls, and what a call returns.

use crate::annotations::checked;
use crate::ast::{CallArgM, ExprM, ParamM};
use crate::classes::method_key;
use crate::laws::law_assignments_are_seen;
use crate::semantics::{
    argument_checked, argument_values, arranged, bind, bound_local, call_frame, call_function,
    call_member, call_method, call_named, call_names, called_builtin, caller_params, construction,
    dispatched, eval, eval_args, eval_inner, eval_items, eval_pairs, evaluated, fitting,
    function_limit, is_parameter, member_of, method_limit, receiver, required, run_body,
    super_class, synchronized, unknown_argument, without_self, ArgM, FlowM, Ran,
};
use crate::table::{
    get, lemma_get_at, lemma_get_found, lemma_get_put_other, lemma_get_put_same, lemma_get_without,
    lemma_put_ordered, lemma_without_ordered, ordered, put, slot, without, Rows,
};
use crate::text::Str;
use crate::value::{Fun, Val};
use crate::world::{assign_keys, hold_values, let_go, lookup, row_values, World};
use vstd::prelude::*;

verus! {

// ---------------------------------------------------------------------------
// Numbers of arguments
// ---------------------------------------------------------------------------

proof fn lemma_required_shift(a: Seq<ParamM>, b: Seq<ParamM>, i: nat)
    ensures
        required(a + b, a.len() + i) == required(b, i),
    decreases b.len() - i,
{
    if i < b.len() {
        assert((a + b)[(a.len() + i) as int] == b[i as int]);
        lemma_required_shift(a, b, i + 1);
    }
}

proof fn lemma_required_front(a: Seq<ParamM>, b: Seq<ParamM>, i: nat)
    requires
        i <= a.len(),
    ensures
        required(a + b, i) == required(a, i) + required(b, 0),
    decreases a.len() - i,
{
    if i < a.len() {
        assert((a + b)[i as int] == a[i as int]);
        lemma_required_front(a, b, i + 1);
    } else {
        lemma_required_shift(a, b, 0);
    }
}

/// The parameters that have to be given are those without a default: none of no parameters, one
/// of a parameter without a default, none of one with it, and those of two rows together.
pub proof fn law_parameters_without_default_are_required(a: Seq<ParamM>, b: Seq<ParamM>, p: ParamM)
    ensures
        required(Seq::empty(), 0) == 0,
        required(seq![p], 0) == (if p.default is None { 1nat } else { 0nat }),
        required(a + b, 0) == required(a, 0) + required(b, 0),
{
    reveal_with_fuel(required, 2);
    lemma_required_front(a, b, 0);
}

/// A call with too few or too many arguments fails and does nothing.
pub proof fn law_calls_count_their_arguments(
    f: Fun,
    args: Seq<ArgM>,
    funcs: Rows<Fun>,
    w: World,
    fuel: nat,
)
    requires
        args.len() < required(f.params, 0) || args.len() > f.params.len(),
    ensures
        call_function(f, args, funcs, w, fuel).0 is Err,
        call_function(f, args, funcs, w, fuel).1 == w,
{
}

// ---------------------------------------------------------------------------
// Arguments and parameters
// ---------------------------------------------------------------------------

/// Whether no two parameters have the same name.
pub open spec fn distinct(params: Seq<ParamM>) -> bool {
    forall|i: int, j: int|
        0 <= i < j < params.len() ==> (#[trigger] params[i]).name != (#[trigger] params[j]).name
}

/// The name of the parameter that an argument is for: its own name, or that of the parameter at
/// its place.
pub open spec fn meant(args: Seq<ArgM>, params: Seq<ParamM>, k: int) -> Str {
    match args[k].name {
        Some(name) => name,
        None => params[k].name,
    }
}

/// Whether the names that are bound are those of the first `n` parameters alone.
pub open spec fn only_first(done: Rows<Val>, params: Seq<ParamM>, n: nat) -> bool {
    forall|name: Str| #[trigger]
        get(done, name) is Some ==> exists|j: int|
            0 <= j < n && j < params.len() && (#[trigger] params[j]).name == name
}

proof fn lemma_arranged(
    args: Seq<ArgM>,
    params: Seq<ParamM>,
    i: nat,
    next: nat,
    done: Rows<Val>,
    saw_named: bool,
    limit: Str,
    k: int,
)
    requires
        distinct(params),
        ordered(done),
        !saw_named ==> next == i && only_first(done, params, next),
        arranged(args, params, i, next, done, saw_named, limit) is Ok,
    ensures
        ({
            let given = arranged(args, params, i, next, done, saw_named, limit)->Ok_0;
            &&& ordered(given)
            &&& forall|name: Str| #[trigger]
                get(done, name) is Some ==> get(given, name) == get(done, name)
            &&& forall|name: Str| #[trigger]
                get(given, name) is Some ==> get(done, name) is Some || exists|j: int|
                    i <= j < args.len() && #[trigger] meant(args, params, j) == name
            &&& i <= k < args.len() ==> {
                &&& get(given, meant(args, params, k)) == Some(args[k].value)
                &&& args[k].name is Some ==> get(done, args[k].name->0) is None
                &&& args[k].name is None ==> !saw_named && k < params.len()
            }
        }),
    decreases args.len() - i,
{
    if i < args.len() {
        let arg = args[i as int];
        let key = match arg.name {
            Some(name) => name,
            None => params[next as int].name,
        };
        let more = put(done, key, arg.value);
        lemma_put_ordered(done, key, arg.value);
        lemma_get_put_same(done, key, arg.value);
        assert(get(done, key) is None);
        assert(key == meant(args, params, i as int));
        assert forall|name: Str| name != key implies #[trigger] get(more, name) == get(
            done,
            name,
        ) by {
            lemma_get_put_other(done, key, arg.value, name);
        }
        let named = saw_named || arg.name is Some;
        let after = if arg.name is Some {
            next
        } else {
            next + 1
        };
        if !named {
            assert(only_first(more, params, after)) by {
                assert forall|name: Str| #[trigger] get(more, name) is Some implies exists|j: int|
                    0 <= j < after && j < params.len() && (#[trigger] params[j]).name == name by {
                    if name == key {
                        assert(params[next as int].name == name);
                    } else {
                        assert(get(done, name) is Some);
                        let j = choose|j: int|
                            0 <= j < next && j < params.len() && (#[trigger] params[j]).name
                                == name;
                        assert(params[j].name == name);
                    }
                }
            }
        }
        lemma_arranged(args, params, i + 1, after, more, named, limit, k);
        let given = arranged(args, params, i, next, done, saw_named, limit)->Ok_0;
        assert(get(more, key) is Some);
        assert forall|name: Str| #[trigger] get(done, name) is Some implies get(given, name) == get(
            done,
            name,
        ) by {
            assert(name != key);
            assert(get(more, name) is Some);
        }
        assert forall|name: Str| #[trigger] get(given, name) is Some implies get(done, name) is Some
            || exists|j: int|
            i <= j < args.len() && #[trigger] meant(args, params, j) == name by {
            if name == key {
                assert(meant(args, params, i as int) == name);
            } else if get(more, name) is None {
                let j = choose|j: int|
                    i + 1 <= j < args.len() && #[trigger] meant(args, params, j) == name;
                assert(meant(args, params, j) == name);
            }
        }
        if i < k < args.len() && args[k].name is Some {
            assert(get(more, args[k].name->0) is None);
            assert(args[k].name->0 != key);
        }
    }
}

proof fn lemma_nothing_bound(params: Seq<ParamM>)
    ensures
        only_first(Seq::empty(), params, 0),
        ordered(Seq::<(Str, Val)>::empty()),
{
    let none: Rows<Val> = Seq::empty();
    assert forall|name: Str| #[trigger] get(none, name) is Some implies false by {
        lemma_get_found(none, name);
    }
}

proof fn lemma_all_known(given: Rows<Val>, params: Seq<ParamM>, i: nat)
    ensures
        unknown_argument(given, params, i) is None <==> forall|k: int|
            i <= k < given.len() ==> is_parameter(params, (#[trigger] given[k]).0),
    decreases given.len() - i,
{
    if i < given.len() {
        lemma_all_known(given, params, i + 1);
    }
}

/// Arguments that fit reach their parameters: one with a name the parameter of that name, one
/// without a name the parameter at its place. Nothing else is given to any parameter.
pub proof fn law_arguments_reach_their_parameters(
    args: Seq<ArgM>,
    params: Seq<ParamM>,
    limit: Str,
    k: int,
    name: Str,
)
    requires
        distinct(params),
        fitting(args, params, limit) is Ok,
    ensures
        ({
            let given = fitting(args, params, limit)->Ok_0;
            &&& ordered(given)
            &&& 0 <= k < args.len() ==> get(given, meant(args, params, k)) == Some(args[k].value)
            &&& get(given, name) is Some ==> exists|j: int|
                0 <= j < args.len() && #[trigger] meant(args, params, j) == name
        }),
{
    lemma_nothing_bound(params);
    let none: Rows<Val> = Seq::empty();
    lemma_get_found(none, name);
    lemma_arranged(args, params, 0, 0, none, false, limit, k);
}

proof fn lemma_named_after(
    args: Seq<ArgM>,
    params: Seq<ParamM>,
    i: nat,
    next: nat,
    done: Rows<Val>,
    saw_named: bool,
    limit: Str,
    k: int,
    l: int,
)
    requires
        distinct(params),
        ordered(done),
        !saw_named ==> next == i && only_first(done, params, next),
        arranged(args, params, i, next, done, saw_named, limit) is Ok,
        i <= k < l < args.len(),
        args[k].name is Some,
    ensures
        args[l].name is Some,
        args[l].name != args[k].name,
    decreases args.len() - i,
{
    let arg = args[i as int];
    let key = match arg.name {
        Some(name) => name,
        None => params[next as int].name,
    };
    let more = put(done, key, arg.value);
    lemma_put_ordered(done, key, arg.value);
    lemma_get_put_same(done, key, arg.value);
    let named = saw_named || arg.name is Some;
    let after = if arg.name is Some {
        next
    } else {
        next + 1
    };
    if !named {
        assert(only_first(more, params, after)) by {
            assert forall|name: Str| #[trigger] get(more, name) is Some implies exists|j: int|
                0 <= j < after && j < params.len() && (#[trigger] params[j]).name == name by {
                if name == key {
                    assert(params[next as int].name == name);
                } else {
                    lemma_get_put_other(done, key, arg.value, name);
                    assert(get(done, name) is Some);
                    let j = choose|j: int|
                        0 <= j < next && j < params.len() && (#[trigger] params[j]).name == name;
                    assert(params[j].name == name);
                }
            }
        }
    }
    if i == k {
        lemma_arranged(args, params, i + 1, after, more, named, limit, l);
    } else {
        lemma_named_after(args, params, i + 1, after, more, named, limit, k, l);
    }
}

/// Arguments that fit are well formed: no name is given twice, none without a name comes behind
/// one with a name, and each is meant for a parameter.
pub proof fn law_wrong_arguments_do_not_fit(
    args: Seq<ArgM>,
    params: Seq<ParamM>,
    limit: Str,
    k: int,
    l: int,
)
    requires
        distinct(params),
        fitting(args, params, limit) is Ok,
        0 <= k < args.len(),
    ensures
        args[k].name is Some ==> is_parameter(params, args[k].name->0),
        args[k].name is None ==> k < params.len(),
        k < l < args.len() && args[k].name is Some ==> args[l].name is Some && args[l].name
            != args[k].name,
{
    lemma_nothing_bound(params);
    let none: Rows<Val> = Seq::empty();
    lemma_arranged(args, params, 0, 0, none, false, limit, k);
    let given = fitting(args, params, limit)->Ok_0;
    lemma_get_found(given, meant(args, params, k));
    lemma_all_known(given, params, 0);
    assert(given[slot(given, meant(args, params, k))].0 == meant(args, params, k));
    if k < l < args.len() && args[k].name is Some {
        lemma_named_after(args, params, 0, 0, none, false, limit, k, l);
    }
}

/// Whether the first `p` arguments have no name and the others have names, which differ.
pub open spec fn well_given(args: Seq<ArgM>, p: int) -> bool {
    &&& 0 <= p <= args.len()
    &&& forall|k: int| 0 <= k < args.len() ==> ((#[trigger] args[k]).name is None <==> k < p)
    &&& forall|k: int, l: int|
        p <= k < l < args.len() ==> (#[trigger] args[k]).name != (#[trigger] args[l]).name
}

proof fn lemma_arranged_well(
    args: Seq<ArgM>,
    params: Seq<ParamM>,
    p: int,
    i: nat,
    next: nat,
    done: Rows<Val>,
    limit: Str,
)
    requires
        well_given(args, p),
        p <= params.len(),
        ordered(done),
        i <= p ==> next == i,
        forall|k: int|
            i <= k < args.len() && k >= p ==> get(done, (#[trigger] args[k]).name->0) is None,
        forall|k: int, j: int|
            p <= k < args.len() && 0 <= j < p ==> (#[trigger] args[k]).name->0
                != (#[trigger] params[j]).name,
    ensures
        arranged(args, params, i, next, done, i > p, limit) is Ok,
    decreases args.len() - i,
{
    if i < args.len() {
        let arg = args[i as int];
        let key = match arg.name {
            Some(name) => name,
            None => params[next as int].name,
        };
        let more = put(done, key, arg.value);
        lemma_put_ordered(done, key, arg.value);
        assert forall|k: int| i + 1 <= k < args.len() && k >= p implies get(
            more,
            (#[trigger] args[k]).name->0,
        ) is None by {
            assert(args[k].name is Some);
            if i >= p {
                assert(args[i as int].name != args[k].name);
                assert(args[i as int].name is Some);
            } else {
                assert(args[k].name->0 != params[i as int].name);
            }
            lemma_get_put_other(done, key, arg.value, args[k].name->0);
        }
        let after = if arg.name is Some {
            next
        } else {
            next + 1
        };
        lemma_arranged_well(args, params, p, i + 1, after, more, limit);
        if i == p {
            lemma_saw_named(args, params, i + 1, after, more, limit);
        }
    }
}

proof fn lemma_saw_named(
    args: Seq<ArgM>,
    params: Seq<ParamM>,
    i: nat,
    next: nat,
    done: Rows<Val>,
    limit: Str,
)
    ensures
        arranged(args, params, i, next, done, true, limit) is Ok ==> arranged(
            args,
            params,
            i,
            next,
            done,
            false,
            limit,
        ) is Ok,
    decreases args.len() - i,
{
    if i < args.len() && args[i as int].name is Some {
        lemma_saw_named(
            args,
            params,
            i + 1,
            next,
            put(done, args[i as int].name->0, args[i as int].value),
            limit,
        );
    }
}

/// Well formed arguments fit: first those without a name, no more than there are parameters, then
/// those with names of other parameters.
pub proof fn law_well_given_arguments_fit(
    args: Seq<ArgM>,
    params: Seq<ParamM>,
    p: int,
    limit: Str,
)
    requires
        distinct(params),
        well_given(args, p),
        p <= params.len(),
        forall|k: int| p <= k < args.len() ==> is_parameter(params, (#[trigger] args[k]).name->0),
        forall|k: int, j: int|
            p <= k < args.len() && 0 <= j < p ==> (#[trigger] args[k]).name->0
                != (#[trigger] params[j]).name,
    ensures
        fitting(args, params, limit) is Ok,
{
    lemma_nothing_bound(params);
    let none: Rows<Val> = Seq::empty();
    assert forall|k: int| 0 <= k < args.len() && k >= p implies get(
        none,
        (#[trigger] args[k]).name->0,
    ) is None by {
        lemma_get_found(none, args[k].name->0);
    }
    lemma_arranged_well(args, params, p, 0, 0, none, limit);
    lemma_arranged(args, params, 0, 0, none, false, limit, 0);
    let given = arranged(args, params, 0, 0, none, false, limit)->Ok_0;
    assert forall|k: int| 0 <= k < given.len() implies is_parameter(
        params,
        (#[trigger] given[k]).0,
    ) by {
        lemma_get_at(given, k);
        lemma_get_found(none, given[k].0);
        let j = choose|j: int|
            0 <= j < args.len() && #[trigger] meant(args, params, j) == given[k].0;
        if args[j].name is None {
            assert(params[j].name == given[k].0);
        } else {
            assert(is_parameter(params, args[j].name->0));
        }
    }
    lemma_all_known(given, params, 0);
}

// ---------------------------------------------------------------------------
// Binding
// ---------------------------------------------------------------------------

/// What a parameter is bound to, if anything is.
spec fn bound_value(
    param: ParamM,
    given: Rows<Val>,
    local: Rows<Val>,
    funcs: Rows<Fun>,
    w: World,
    fuel: nat,
) -> (Val, World) {
    match get(given, param.name) {
        Some(value) => (value, w),
        None => {
            let (r, inner) = evaluated(
                param.default->0,
                local,
                funcs,
                hold_values(w, row_values(given)),
                fuel,
            );
            (r->Ok_0, let_go(inner))
        },
    }
}

proof fn lemma_bind_step(
    params: Seq<ParamM>,
    i: nat,
    given: Rows<Val>,
    local: Rows<Val>,
    bindings: Rows<Str>,
    type_params: Seq<Str>,
    frame: Option<usize>,
    funcs: Rows<Fun>,
    w: World,
    fuel: nat,
) -> (next: (Rows<Str>, World))
    requires
        i < params.len(),
        bind(params, i, given, local, bindings, type_params, frame, funcs, w, fuel).0 is Ok,
    ensures
        get(given, params[i as int].name) is None ==> params[i as int].default is Some,
        bind(params, i, given, local, bindings, type_params, frame, funcs, w, fuel) == bind(
            params,
            i + 1,
            without(given, params[i as int].name),
            put(
                local,
                params[i as int].name,
                bound_value(params[i as int], given, local, funcs, w, fuel).0,
            ),
            next.0,
            type_params,
            frame,
            funcs,
            next.1,
            fuel,
        ),
{
    let param = params[i as int];
    let (value, w1) = bound_value(param, given, local, funcs, w, fuel);
    (
        argument_checked(param, value, type_params, bindings)->Ok_0,
        bound_local(w1, frame, param.name, value),
    )
}

proof fn lemma_kept(
    params: Seq<ParamM>,
    i: nat,
    given: Rows<Val>,
    local: Rows<Val>,
    bindings: Rows<Str>,
    type_params: Seq<Str>,
    frame: Option<usize>,
    funcs: Rows<Fun>,
    w: World,
    fuel: nat,
    name: Str,
)
    requires
        ordered(local),
        bind(params, i, given, local, bindings, type_params, frame, funcs, w, fuel).0 is Ok,
        forall|j: int| i <= j < params.len() ==> (#[trigger] params[j]).name != name,
    ensures
        get(
            bind(
                params,
                i,
                given,
                local,
                bindings,
                type_params,
                frame,
                funcs,
                w,
                fuel,
            ).0->Ok_0.0,
            name,
        ) == get(local, name),
    decreases params.len() - i,
{
    if i < params.len() {
        let param = params[i as int];
        let next = lemma_bind_step(
            params,
            i,
            given,
            local,
            bindings,
            type_params,
            frame,
            funcs,
            w,
            fuel,
        );
        let value = bound_value(param, given, local, funcs, w, fuel).0;
        lemma_put_ordered(local, param.name, value);
        lemma_get_put_other(local, param.name, value, name);
        lemma_kept(
            params,
            i + 1,
            without(given, param.name),
            put(local, param.name, value),
            next.0,
            type_params,
            frame,
            funcs,
            next.1,
            fuel,
            name,
        );
    }
}

proof fn lemma_bound(
    params: Seq<ParamM>,
    i: nat,
    given: Rows<Val>,
    local: Rows<Val>,
    bindings: Rows<Str>,
    type_params: Seq<Str>,
    frame: Option<usize>,
    funcs: Rows<Fun>,
    w: World,
    fuel: nat,
    k: int,
)
    requires
        distinct(params),
        ordered(given),
        ordered(local),
        bind(params, i, given, local, bindings, type_params, frame, funcs, w, fuel).0 is Ok,
        i <= k < params.len(),
    ensures
        ({
            let names = bind(
                params,
                i,
                given,
                local,
                bindings,
                type_params,
                frame,
                funcs,
                w,
                fuel,
            ).0->Ok_0.0;
            &&& get(names, params[k].name) is Some
            &&& get(given, params[k].name) is Some ==> get(names, params[k].name) == get(
                given,
                params[k].name,
            )
            &&& get(given, params[k].name) is None ==> params[k].default is Some
        }),
    decreases params.len() - i,
{
    let param = params[i as int];
    let next = lemma_bind_step(
        params,
        i,
        given,
        local,
        bindings,
        type_params,
        frame,
        funcs,
        w,
        fuel,
    );
    let value = bound_value(param, given, local, funcs, w, fuel).0;
    lemma_put_ordered(local, param.name, value);
    lemma_get_put_same(local, param.name, value);
    lemma_without_ordered(given, param.name);
    if i == k {
        lemma_kept(
            params,
            i + 1,
            without(given, param.name),
            put(local, param.name, value),
            next.0,
            type_params,
            frame,
            funcs,
            next.1,
            fuel,
            param.name,
        );
    } else {
        lemma_get_without(given, param.name, params[k].name);
        lemma_bound(
            params,
            i + 1,
            without(given, param.name),
            put(local, param.name, value),
            next.0,
            type_params,
            frame,
            funcs,
            next.1,
            fuel,
            k,
        );
    }
}

/// A parameter has the value that was given for it; one that was not given has a default. What a
/// call sees beside its parameters stays as it was.
pub proof fn law_parameters_have_their_arguments(
    params: Seq<ParamM>,
    given: Rows<Val>,
    local: Rows<Val>,
    type_params: Seq<Str>,
    frame: Option<usize>,
    funcs: Rows<Fun>,
    w: World,
    fuel: nat,
    k: int,
    name: Str,
)
    requires
        distinct(params),
        ordered(given),
        ordered(local),
        bind(
            params,
            0,
            given,
            local,
            Seq::empty(),
            type_params,
            frame,
            funcs,
            w,
            fuel,
        ).0 is Ok,
    ensures
        ({
            let names = bind(
                params,
                0,
                given,
                local,
                Seq::empty(),
                type_params,
                frame,
                funcs,
                w,
                fuel,
            ).0->Ok_0.0;
            &&& 0 <= k < params.len() ==> {
                &&& get(names, params[k].name) is Some
                &&& get(given, params[k].name) is Some ==> get(names, params[k].name) == get(
                    given,
                    params[k].name,
                )
                &&& get(given, params[k].name) is None ==> params[k].default is Some
            }
            &&& !is_parameter(params, name) ==> get(names, name) == get(local, name)
        }),
{
    if 0 <= k < params.len() {
        lemma_bound(
            params,
            0,
            given,
            local,
            Seq::empty(),
            type_params,
            frame,
            funcs,
            w,
            fuel,
            k,
        );
    }
    if !is_parameter(params, name) {
        lemma_kept(
            params,
            0,
            given,
            local,
            Seq::empty(),
            type_params,
            frame,
            funcs,
            w,
            fuel,
            name,
        );
    }
}

/// A default is evaluated where its parameter is not given, with the parameters before it.
pub proof fn law_defaults_are_evaluated(
    param: ParamM,
    given: Rows<Val>,
    local: Rows<Val>,
    funcs: Rows<Fun>,
    w: World,
    fuel: nat,
)
    requires
        get(given, param.name) is None,
        param.annotation is None,
    ensures
        ({
            let bound = bind(
                seq![param],
                0,
                given,
                local,
                Seq::empty(),
                Seq::empty(),
                None,
                funcs,
                w,
                fuel,
            ).0;
            &&& param.default is None ==> bound is Err
            &&& param.default is Some ==> {
                let (r, after) = evaluated(
                    param.default->0,
                    local,
                    funcs,
                    hold_values(w, row_values(given)),
                    fuel,
                );
                &&& r is Err ==> bound is Err
                &&& r is Ok ==> bound is Ok && get(bound->Ok_0.0, param.name) == Some(r->Ok_0)
            }
        }),
{
    let (r, after) = evaluated(
        param.default->0,
        local,
        funcs,
        hold_values(w, row_values(given)),
        fuel,
    );
    if param.default is Some && r is Ok {
        lemma_get_put_same(local, param.name, r->Ok_0);
        let names = put(local, param.name, r->Ok_0);
        assert(bind(
            seq![param],
            1,
            without(given, param.name),
            names,
            Seq::empty(),
            Seq::empty(),
            None,
            funcs,
            let_go(after),
            fuel,
        ).0 == Ok::<(Rows<Val>, Rows<Str>), Str>((names, Seq::empty())));
    }
}

// ---------------------------------------------------------------------------
// What is called and what comes back
// ---------------------------------------------------------------------------

/// A function that is not asynchronous returns what its body returns, and nothing where the body
/// ends without a `return`.
pub proof fn law_functions_return_what_their_body_returns(
    f: Fun,
    args: Seq<ArgM>,
    funcs: Rows<Fun>,
    w: World,
    fuel: nat,
)
    requires
        !f.is_async,
        call_function(f, args, funcs, w, fuel).0 is Ok,
    ensures
        exists|names: Rows<Val>, inside: World|
            {
                let flow = (#[trigger] run_body(
                    f,
                    names,
                    funcs,
                    inside,
                    call_frame(f, w).0,
                    fuel,
                )).flow;
                ||| flow == Ok::<FlowM, Str>(
                    FlowM::Return(call_function(f, args, funcs, w, fuel).0->Ok_0),
                )
                ||| flow == Ok::<FlowM, Str>(FlowM::Continue) && call_function(
                    f,
                    args,
                    funcs,
                    w,
                    fuel,
                ).0->Ok_0 == Val::Nil
            },
{
    let (frame, w1) = call_frame(f, w);
    let local = crate::semantics::call_names(f, frame, w1);
    let given = fitting(args, f.params, function_limit(f.params))->Ok_0;
    let (r, w2) = bind(
        f.params,
        0,
        given,
        local,
        Seq::empty(),
        f.type_params,
        frame,
        funcs,
        w1,
        fuel,
    );
    let names = r->Ok_0.0;
    let ran = run_body(f, names, funcs, w2, call_frame(f, w).0, fuel);
    assert(ran.flow is Ok);
}

/// A name calls the function of that name, or else the function that the variable of that name
/// holds, or else a function of the language. `new` constructs an object, whatever else has that
/// name.
pub proof fn law_names_call_functions(
    name: Str,
    values: Seq<ArgM>,
    vars: Rows<Val>,
    funcs: Rows<Fun>,
    w: World,
    fuel: nat,
)
    requires
        name != "new"@,
    ensures
        get(funcs, name) is Some ==> call_named(name, values, vars, funcs, w, fuel)
            == call_function(get(funcs, name)->0, values, funcs, w, fuel),
        get(funcs, name) is None && get(vars, name) is Some && get(vars, name)->0 is Callable
            ==> call_named(name, values, vars, funcs, w, fuel) == call_function(
            get(vars, name)->0->Callable_0,
            values,
            funcs,
            w,
            fuel,
        ),
        get(funcs, name) is None && !(get(vars, name) is Some && get(vars, name)->0 is Callable)
            && name != "web_serve"@ && (forall|i: int|
            0 <= i < values.len() ==> (#[trigger] values[i]).name is None) ==> call_named(
            name,
            values,
            vars,
            funcs,
            w,
            fuel,
        ) == called_builtin(name, argument_values(values), w),
        get(funcs, name) is None && !(get(vars, name) is Some && get(vars, name)->0 is Callable)
            && (exists|i: int| 0 <= i < values.len() && (#[trigger] values[i]).name is Some)
            ==> call_named(name, values, vars, funcs, w, fuel).0 is Err,
{
}

/// A method is that of the receiver's class, and the receiver is handed to it. A method that the
/// class does not have is an error, and so is a call on what is no object.
pub proof fn law_methods_are_those_of_the_class(
    target: ExprM,
    member: Str,
    values: Seq<ArgM>,
    vars: Rows<Val>,
    funcs: Rows<Fun>,
    w: World,
    fuel: nat,
)
    requires
        target != ExprM::Name("super"@),
    ensures
        ({
            let (r, inner) = eval(
                target,
                vars,
                funcs,
                hold_values(w, argument_values(values)),
                fuel,
            );
            let called = call_member(target, member, values, vars, funcs, w, fuel);
            &&& r is Err ==> called.0 == r
            &&& r is Ok && !(r->Ok_0 is Object) ==> called.0 is Err
            &&& r is Ok && r->Ok_0 is Object ==> {
                let method = get(funcs, method_key(r->Ok_0->class_name, member));
                &&& method is None ==> called.0 is Err
                &&& method is Some && crate::classes::method_access(
                    method->0,
                    r->Ok_0->class_name,
                    vars,
                    funcs,
                ) is Err ==> called.0 is Err && called.1 == let_go(inner)
                &&& method is Some && crate::classes::method_access(
                    method->0,
                    r->Ok_0->class_name,
                    vars,
                    funcs,
                ) is Ok ==> called == call_method(
                    method->0,
                    values,
                    r->Ok_0,
                    funcs,
                    let_go(inner),
                    fuel,
                )
            }
        }),
{
}

/// `super` stands for the class above the one that owns the code, with the same receiver.
pub proof fn law_super_keeps_the_receiver(
    class_name: Str,
    vars: Rows<Val>,
    funcs: Rows<Fun>,
    w: World,
    fuel: nat,
)
    requires
        get(vars, "super"@) == Some(Val::Text(class_name)),
        get(vars, "self"@) is Some,
    ensures
        receiver(ExprM::Name("super"@), vars, funcs, w, fuel) == (
            Ok::<(Str, Val), Str>((class_name, get(vars, "self"@)->0)),
            w,
        ),
{
}

proof fn lemma_items(
    items: Seq<ExprM>,
    i: nat,
    done: Seq<Val>,
    vars: Rows<Val>,
    funcs: Rows<Fun>,
    w: World,
    fuel: nat,
    k: int,
)
    requires
        i == done.len(),
        i <= items.len(),
        eval_items(items, i, done, vars, funcs, w, fuel).0 is Ok,
    ensures
        ({
            let values = eval_items(items, i, done, vars, funcs, w, fuel).0->Ok_0;
            &&& values.len() == items.len()
            &&& values.take(i as int) == done
            &&& i <= k < items.len() ==> exists|inside: World|
                (#[trigger] eval(items[k], vars, funcs, inside, fuel)).0 == Ok::<Val, Str>(
                    values[k],
                )
        }),
    decreases items.len() - i,
{
    if i < items.len() {
        let (r, inner) = eval(items[i as int], vars, funcs, hold_values(w, done), fuel);
        let next = done.push(r->Ok_0);
        lemma_items(items, i + 1, next, vars, funcs, let_go(inner), fuel, k);
        let values = eval_items(items, i, done, vars, funcs, w, fuel).0->Ok_0;
        assert(values.take(i as int) =~= values.take(i as int + 1).take(i as int));
        assert(next.take(i as int) =~= done);
        assert(values[i as int] == values.take(i as int + 1)[i as int]);
    } else {
        assert(done.take(i as int) =~= done);
    }
}

/// A list has the value of each of its expressions, in their order.
pub proof fn law_lists_hold_their_items(
    items: Seq<ExprM>,
    vars: Rows<Val>,
    funcs: Rows<Fun>,
    w: World,
    fuel: nat,
    k: int,
)
    requires
        eval_items(items, 0, Seq::empty(), vars, funcs, w, fuel).0 is Ok,
    ensures
        ({
            let values = eval_items(items, 0, Seq::empty(), vars, funcs, w, fuel).0->Ok_0;
            &&& values.len() == items.len()
            &&& 0 <= k < items.len() ==> exists|inside: World|
                (#[trigger] eval(items[k], vars, funcs, inside, fuel)).0 == Ok::<Val, Str>(
                    values[k],
                )
        }),
{
    lemma_items(items, 0, Seq::empty(), vars, funcs, w, fuel, k);
}

proof fn lemma_args(
    args: Seq<CallArgM>,
    i: nat,
    done: Seq<ArgM>,
    vars: Rows<Val>,
    funcs: Rows<Fun>,
    w: World,
    fuel: nat,
    k: int,
)
    requires
        i == done.len(),
        i <= args.len(),
        eval_args(args, i, done, vars, funcs, w, fuel).0 is Ok,
    ensures
        ({
            let values = eval_args(args, i, done, vars, funcs, w, fuel).0->Ok_0;
            &&& values.len() == args.len()
            &&& values.take(i as int) == done
            &&& i <= k < args.len() ==> values[k].name == args[k].name && exists|inside: World|
                (#[trigger] eval(args[k].value, vars, funcs, inside, fuel)).0 == Ok::<Val, Str>(
                    values[k].value,
                )
        }),
    decreases args.len() - i,
{
    if i < args.len() {
        let (r, inner) = eval(
            args[i as int].value,
            vars,
            funcs,
            hold_values(w, argument_values(done)),
            fuel,
        );
        let next = done.push(ArgM { name: args[i as int].name, value: r->Ok_0 });
        lemma_args(args, i + 1, next, vars, funcs, let_go(inner), fuel, k);
        let values = eval_args(args, i, done, vars, funcs, w, fuel).0->Ok_0;
        assert(values.take(i as int) =~= values.take(i as int + 1).take(i as int));
        assert(next.take(i as int) =~= done);
        assert(values[i as int] == values.take(i as int + 1)[i as int]);
    } else {
        assert(done.take(i as int) =~= done);
    }
}

/// A call hands over the value of each argument, in their order and with their names.
pub proof fn law_calls_hand_over_their_arguments(
    args: Seq<CallArgM>,
    vars: Rows<Val>,
    funcs: Rows<Fun>,
    w: World,
    fuel: nat,
    k: int,
)
    requires
        eval_args(args, 0, Seq::empty(), vars, funcs, w, fuel).0 is Ok,
    ensures
        ({
            let values = eval_args(args, 0, Seq::empty(), vars, funcs, w, fuel).0->Ok_0;
            &&& values.len() == args.len()
            &&& 0 <= k < args.len() ==> values[k].name == args[k].name && exists|inside: World|
                (#[trigger] eval(args[k].value, vars, funcs, inside, fuel)).0 == Ok::<Val, Str>(
                    values[k].value,
                )
        }),
{
    lemma_args(args, 0, Seq::empty(), vars, funcs, w, fuel, k);
}

// ---------------------------------------------------------------------------
// Arguments of constructions
// ---------------------------------------------------------------------------

proof fn lemma_construction(args: Seq<Val>, i: nat, fields: Rows<Val>, rest: Seq<Val>)
    requires
        i <= args.len(),
        rest.len() > 0,
    ensures
        construction(args, i, fields, rest) == (fields, rest + args.skip(i as int)),
    decreases args.len() - i,
{
    if i < args.len() {
        lemma_construction(args, i + 1, fields, rest.push(args[i as int]));
        assert(rest.push(args[i as int]) + args.skip(i as int + 1) =~= rest + args.skip(i as int));
    } else {
        assert(rest + args.skip(i as int) =~= rest);
    }
}

/// What stands behind the class name of a construction goes to the constructor, in its order, from
/// the first value on that is no map; a map in front gives the fields.
pub proof fn law_constructors_get_the_rest(class_name: Val, fields: Rows<Val>, rest: Seq<Val>)
    requires
        rest.len() > 0,
        !(rest[0] is Dict),
    ensures
        construction(seq![class_name] + rest, 1, Seq::empty(), Seq::empty()) == (
            Seq::<(Str, Val)>::empty(),
            rest,
        ),
        construction(
            seq![class_name, Val::Dict(fields)] + rest,
            1,
            Seq::empty(),
            Seq::empty(),
        ) == (fields, rest),
        construction(seq![class_name, Val::Dict(fields)], 1, Seq::empty(), Seq::empty()) == (
            fields,
            Seq::<Val>::empty(),
        ),
        construction(seq![class_name], 1, Seq::empty(), Seq::empty()) == (
            Seq::<(Str, Val)>::empty(),
            Seq::<Val>::empty(),
        ),
{
    let none: Rows<Val> = Seq::empty();
    let first = Seq::<Val>::empty().push(rest[0]);
    let a = seq![class_name] + rest;
    assert(a[1] == rest[0]);
    lemma_construction(a, 2, none, first);
    assert(first + a.skip(2) =~= rest);
    let b = seq![class_name, Val::Dict(fields)] + rest;
    assert(b[1] == Val::Dict(fields));
    assert(b[2] == rest[0]);
    lemma_construction(b, 3, fields, first);
    assert(first + b.skip(3) =~= rest);
    reveal_with_fuel(construction, 3);
}

// ---------------------------------------------------------------------------
// Maps, callees and receivers
// ---------------------------------------------------------------------------

/// The entries of a map are evaluated in their order, each key before its value; a key that is no
/// text is an error, and a later entry replaces an earlier one with its key.
pub proof fn law_maps_hold_their_entries(
    pairs: Seq<(ExprM, ExprM)>,
    i: nat,
    done: Rows<Val>,
    vars: Rows<Val>,
    funcs: Rows<Fun>,
    w: World,
    fuel: nat,
)
    ensures
        i >= pairs.len() ==> eval_pairs(pairs, i, done, vars, funcs, w, fuel) == (
            Ok::<Rows<Val>, Str>(done),
            w,
        ),
        i < pairs.len() ==> ({
            let whole = eval_pairs(pairs, i, done, vars, funcs, w, fuel);
            let (k, first) = eval(
                pairs[i as int].0,
                vars,
                funcs,
                hold_values(w, row_values(done)),
                fuel,
            );
            let (r, second) = eval(
                pairs[i as int].1,
                vars,
                funcs,
                hold_values(let_go(first), row_values(done)),
                fuel,
            );
            &&& k is Err ==> whole.0 is Err
            &&& k is Ok && !(k->Ok_0 is Text) ==> whole.0 is Err
            &&& k is Ok && k->Ok_0 is Text && r is Err ==> whole.0 is Err
            &&& k is Ok && k->Ok_0 is Text && r is Ok ==> {
                &&& whole == eval_pairs(
                    pairs,
                    i + 1,
                    put(done, k->Ok_0->Text_0, r->Ok_0),
                    vars,
                    funcs,
                    let_go(second),
                    fuel,
                )
                &&& get(put(done, k->Ok_0->Text_0, r->Ok_0), k->Ok_0->Text_0) == Some(r->Ok_0)
            }
        }),
{
    if i < pairs.len() {
        let (k, first) = eval(
            pairs[i as int].0,
            vars,
            funcs,
            hold_values(w, row_values(done)),
            fuel,
        );
        let r = eval(
            pairs[i as int].1,
            vars,
            funcs,
            hold_values(let_go(first), row_values(done)),
            fuel,
        ).0;
        if k is Ok && k->Ok_0 is Text && r is Ok {
            lemma_get_put_same(done, k->Ok_0->Text_0, r->Ok_0);
        }
    }
}

/// A name in front of a call calls by that name, a member calls a method, and any other expression
/// is evaluated and has to give a function.
pub proof fn law_calls_go_by_their_callee(
    callee: ExprM,
    values: Seq<ArgM>,
    vars: Rows<Val>,
    funcs: Rows<Fun>,
    w: World,
    fuel: nat,
)
    ensures
        callee matches ExprM::Name(name) ==> dispatched(callee, values, vars, funcs, w, fuel)
            == call_named(name, values, vars, funcs, w, fuel),
        callee matches ExprM::Member { target, member } ==> dispatched(
            callee,
            values,
            vars,
            funcs,
            w,
            fuel,
        ) == call_member(*target, member, values, vars, funcs, w, fuel),
        !(callee is Name) && !(callee is Member) ==> {
            let (c, inner) = eval(
                callee,
                vars,
                funcs,
                hold_values(w, argument_values(values)),
                fuel,
            );
            let called = dispatched(callee, values, vars, funcs, w, fuel);
            &&& c is Err ==> called.0 == c
            &&& c is Ok && !(c->Ok_0 is Callable) ==> called.0 is Err
            &&& c is Ok && c->Ok_0 is Callable ==> called.0 == call_function(
                c->Ok_0->Callable_0,
                values,
                funcs,
                hold_values(let_go(inner), seq![c->Ok_0]),
                fuel,
            ).0
        },
{
}

/// The body of a method sees its receiver as `self`, and what it returns is the result of the call.
pub proof fn law_methods_see_their_receiver(
    f: Fun,
    args: Seq<ArgM>,
    self_value: Val,
    funcs: Rows<Fun>,
    w: World,
    fuel: nat,
)
    requires
        !f.is_async,
        call_method(f, args, self_value, funcs, w, fuel).0 is Ok,
        ordered(call_names(f, call_frame(f, w).0, call_frame(f, w).1)),
        !is_parameter(caller_params(f.params), "self"@),
    ensures
        exists|names: Rows<Val>, inside: World|
            {
                let flow = (#[trigger] run_body(
                    f,
                    names,
                    funcs,
                    inside,
                    call_frame(f, w).0,
                    fuel,
                )).flow;
                let result = call_method(f, args, self_value, funcs, w, fuel).0->Ok_0;
                &&& get(names, "self"@) == Some(self_value)
                &&& flow == Ok::<FlowM, Str>(FlowM::Return(result)) || (flow == Ok::<FlowM, Str>(
                    FlowM::Continue,
                ) && result == Val::Nil)
            },
{
    reveal_strlit("self");
    reveal_strlit("super");
    assert("self"@.len() == 4 && "super"@.len() == 5);
    let params = caller_params(f.params);
    let (frame, w1) = call_frame(f, w);
    let first = call_names(f, frame, w1);
    let names = put(first, "self"@, self_value);
    lemma_put_ordered(first, "self"@, self_value);
    lemma_get_put_same(first, "self"@, self_value);
    let w2 = bound_local(w1, frame, "self"@, self_value);
    let above = super_class(names, funcs);
    let local = match above {
        Some(class_name) => put(names, "super"@, Val::Text(class_name)),
        None => names,
    };
    if let Some(class_name) = above {
        lemma_put_ordered(names, "super"@, Val::Text(class_name));
        lemma_get_put_other(names, "super"@, Val::Text(class_name), "self"@);
    }
    let w3 = match above {
        Some(class_name) => bound_local(w2, frame, "super"@, Val::Text(class_name)),
        None => w2,
    };
    let given = fitting(args, params, method_limit(params))->Ok_0;
    let (r, w4) = bind(
        params,
        0,
        given,
        local,
        Seq::empty(),
        Seq::empty(),
        frame,
        funcs,
        w3,
        fuel,
    );
    lemma_kept(
        params,
        0,
        given,
        local,
        Seq::empty(),
        Seq::empty(),
        frame,
        funcs,
        w3,
        fuel,
        "self"@,
    );
    let filled = r->Ok_0.0;
    let ran = run_body(f, filled, funcs, w4, call_frame(f, w).0, fuel);
    assert(ran.flow is Ok);
}

/// `super` stands, in a method, for the class above the one that owns the method.
pub proof fn law_super_is_the_class_above(local: Rows<Val>, owner: Str, funcs: Rows<Fun>)
    requires
        get(local, "__zap_owner_class"@) == Some(Val::Text(owner)),
    ensures
        super_class(local, funcs) == crate::classes::parent(owner, funcs),
{
}

/// A call that ends well has tested its arguments and its result: each argument against the
/// annotation of its parameter, and the result against that of the function.
pub proof fn law_calls_test_arguments_and_results(
    f: Fun,
    args: Seq<ArgM>,
    funcs: Rows<Fun>,
    w: World,
    fuel: nat,
)
    requires
        !f.is_async,
        call_function(f, args, funcs, w, fuel).0 is Ok,
        f.type_params.len() == 0,
    ensures
        f.return_annotation is Some ==> checked(
            "return"@,
            f.return_annotation->0,
            call_function(f, args, funcs, w, fuel).0->Ok_0,
        ) is Ok,
        required(f.params, 0) <= args.len() <= f.params.len(),
        fitting(args, f.params, function_limit(f.params)) is Ok,
{
}

proof fn lemma_arguments_checked(
    params: Seq<ParamM>,
    i: nat,
    given: Rows<Val>,
    local: Rows<Val>,
    bindings: Rows<Str>,
    frame: Option<usize>,
    funcs: Rows<Fun>,
    w: World,
    fuel: nat,
    k: int,
)
    requires
        distinct(params),
        ordered(given),
        bind(params, i, given, local, bindings, Seq::empty(), frame, funcs, w, fuel).0 is Ok,
        i <= k < params.len(),
        get(given, params[k].name) is Some,
        params[k].annotation is Some,
    ensures
        checked(params[k].name, params[k].annotation->0, get(given, params[k].name)->0) is Ok,
    decreases params.len() - i,
{
    let next = lemma_bind_step(
        params,
        i,
        given,
        local,
        bindings,
        Seq::empty(),
        frame,
        funcs,
        w,
        fuel,
    );
    if i < k {
        let param = params[i as int];
        lemma_without_ordered(given, param.name);
        lemma_get_without(given, param.name, params[k].name);
        lemma_arguments_checked(
            params,
            i + 1,
            without(given, param.name),
            put(local, param.name, bound_value(param, given, local, funcs, w, fuel).0),
            next.0,
            frame,
            funcs,
            next.1,
            fuel,
            k,
        );
    }
}

/// An argument that does not have the type of its parameter is not bound: the binding fails.
pub proof fn law_bound_arguments_have_their_types(
    params: Seq<ParamM>,
    given: Rows<Val>,
    local: Rows<Val>,
    frame: Option<usize>,
    funcs: Rows<Fun>,
    w: World,
    fuel: nat,
    k: int,
)
    requires
        distinct(params),
        ordered(given),
        bind(
            params,
            0,
            given,
            local,
            Seq::empty(),
            Seq::empty(),
            frame,
            funcs,
            w,
            fuel,
        ).0 is Ok,
        0 <= k < params.len(),
        get(given, params[k].name) is Some,
        params[k].annotation is Some,
    ensures
        checked(params[k].name, params[k].annotation->0, get(given, params[k].name)->0) is Ok,
{
    lemma_arguments_checked(
        params,
        0,
        given,
        local,
        Seq::empty(),
        frame,
        funcs,
        w,
        fuel,
        k,
    );
}

/// A function made of lines hands what its body leaves in the variables that it closes over back
/// to its closure; a function with a parsed body works on them in place.
pub proof fn law_captured_variables_are_handed_back(f: Fun, keys: Seq<Str>, ran: Ran, name: Str)
    ensures
        f.ast_body is Some ==> synchronized(f, keys, ran) == ran.world,
        f.ast_body is None && keys == seq![name] && get(ran.vars, name) is Some && f.closure
            < ran.world.frames.len() ==> lookup(
            synchronized(f, keys, ran).frames,
            f.closure as int,
            name,
        ) == get(ran.vars, name),
        f.ast_body is None && keys == seq![name] && get(ran.vars, name) is None ==> synchronized(
            f,
            keys,
            ran,
        ) == ran.world,
{
    reveal_with_fuel(assign_keys, 2);
    if f.ast_body is None && get(ran.vars, name) is Some && f.closure < ran.world.frames.len() {
        law_assignments_are_seen(ran.world, f.closure as int, name, get(ran.vars, name)->0);
    }
}

/// A member of a value is taken of the value of its target, with the variables and functions that
/// the expression sees.
pub proof fn law_members_are_taken_of_their_target(
    target: ExprM,
    member: Str,
    vars: Rows<Val>,
    funcs: Rows<Fun>,
    w: World,
    fuel: nat,
)
    ensures
        ({
            let (r, after) = eval(target, vars, funcs, w, fuel);
            let whole = eval_inner(
                ExprM::Member { target: Box::new(target), member },
                vars,
                funcs,
                w,
                fuel,
            );
            &&& r is Err ==> whole.0 == r
            &&& r is Ok && member_of(r->Ok_0, member, vars, funcs, after) is Err ==> whole.0
                == member_of(r->Ok_0, member, vars, funcs, after)
            &&& r is Ok && whole.0 is Ok ==> whole.0 == member_of(
                r->Ok_0,
                member,
                vars,
                funcs,
                after,
            )
        }),
{
}

/// A member of a map is what the map has under its name, and a value without members has none.
pub proof fn law_members_of_maps(
    rows: Rows<Val>,
    member: Str,
    v: Val,
    vars: Rows<Val>,
    funcs: Rows<Fun>,
    w: World,
)
    ensures
        get(rows, member) is Some ==> member_of(Val::Dict(rows), member, vars, funcs, w) == Ok::<
            Val,
            Str,
        >(get(rows, member)->0),
        get(rows, member) is None ==> member_of(Val::Dict(rows), member, vars, funcs, w) is Err,
        !(v is Dict) && !(v is Object) ==> member_of(v, member, vars, funcs, w) is Err,
{
}

/// What a method made of lines hands back to its closure are the captured names but `self`.
pub proof fn law_self_is_not_handed_back(keys: Seq<Str>, n: nat, name: Str)
    requires
        n <= keys.len(),
    ensures
        without_self(keys, n).contains(name) <==> name != "self"@ && keys.take(n as int).contains(
            name,
        ),
    decreases n,
{
    if n == 0 {
        assert(keys.take(0).len() == 0);
    } else {
        let m = (n - 1) as nat;
        law_self_is_not_handed_back(keys, m, name);
        let rest = without_self(keys, m);
        let before = keys.take(m as int);
        let all = keys.take(n as int);
        assert(all =~= before.push(keys[m as int]));
        assert(all.contains(name) <==> before.contains(name) || keys[m as int] == name) by {
            if before.contains(name) {
                let k = choose|k: int| 0 <= k < before.len() && before[k] == name;
                assert(all[k] == name);
            }
            assert(all[m as int] == keys[m as int]);
        }
        let more = rest.push(keys[m as int]);
        assert(more.contains(name) <==> rest.contains(name) || keys[m as int] == name) by {
            if rest.contains(name) {
                let k = choose|k: int| 0 <= k < rest.len() && rest[k] == name;
                assert(more[k] == name);
            }
            assert(more[rest.len() as int] == keys[m as int]);
        }
    }
}

} // verus!
