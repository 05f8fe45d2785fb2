use std::rc::Rc;
use zap_evaluator::evaluator::{
    ast_default_with_context, ast_expression_with_context,
    ast_expression_with_propagation_context, call_function_with_arguments,
    call_function_with_context, call_method_with_arguments, call_method_with_context,
    charge_ast_cloned_value, charge_ast_value, construct_object_with_context,
    construct_object_with_context_inner, evaluate_with_propagation_with_context,
    execute_ast_body_with_frame, execute_ast_program_with_context, execute_ast_program_with_frame,
    execute_lines_with_context, expression_with_context, initialize_object_fields,
    load_module_with_context, sync_vars_from_frame, web_serve_with_context, CallArgument,
    EvalOutcome, Flow,
};
use zap_evaluator::annotations::{
    check_annotation, generic_annotation, infer_runtime_substitution, matches_annotation,
    runtime_annotation, substitute_runtime_annotation,
};
use zap_evaluator::builtins::write_json;
use zap_evaluator::classes::{
    class_parent, constructor_delegates_to_parent, find_field_owner, is_same_or_subclass,
};
use zap_evaluator::layout::{indented, validate_indentation};
use zap_evaluator::program::parse_program;
use zap_evaluator::records::map_value;
use zap_evaluator::syntax::parse_expression;
use zap_evaluator::table::Table;
use zap_evaluator::value::{Function, Functions, ZapValue as Value};
use zap_evaluator::world::ExecutionContext;

fn text(s: &str) -> Value {
    Value::Text(s.to_string())
}

/// A context that has entered its base.
fn entered() -> ExecutionContext {
    let mut context = ExecutionContext::new();
    context.workspace = Some("/here".to_string());
    context
}

/// What a program leaves behind.
fn after(source: &str) -> (Table<Value>, Functions, ExecutionContext) {
    let program = parse_program(source).expect("program should parse");
    let mut vars = Table::new();
    let mut funcs: Functions = Table::new();
    let mut context = entered();
    execute_ast_program_with_context(&program, &mut vars, &mut funcs, &mut context, ".")
        .expect("program should execute");
    (vars, funcs, context)
}

fn function(funcs: &Functions, name: &str) -> Rc<Function> {
    Rc::clone(funcs.find(name).expect("the function is known"))
}

#[test]
fn expressions_are_evaluated_from_source_and_from_trees() {
    let (vars, funcs, mut context) = after("let a = 4\nlet r = ok(a)\nlet e = err(\"no\")\n");
    let tree = parse_expression("a * (a + 1)").expect("expression should parse");
    assert_eq!(
        ast_expression_with_context(&tree, &vars, &funcs, &mut context),
        Ok(Value::Number(20))
    );
    assert_eq!(
        expression_with_context("a % 3", &vars, &funcs, &mut context),
        Ok(Value::Number(1))
    );
    assert_eq!(
        ast_default_with_context("[a, a]", &vars, &funcs, &mut context),
        Ok(Value::List(vec![Value::Number(4), Value::Number(4)]))
    );
    let tree = parse_expression("r?").expect("expression should parse");
    assert!(matches!(
        ast_expression_with_propagation_context(&tree, &vars, &funcs, &mut context),
        Ok(EvalOutcome::Value(Value::Number(4)))
    ));
    assert!(matches!(
        evaluate_with_propagation_with_context(" e? ", &vars, &funcs, &mut context),
        Ok(EvalOutcome::Propagate(Value::ResultErr(_)))
    ));
    assert!(matches!(
        evaluate_with_propagation_with_context("a", &vars, &funcs, &mut context),
        Ok(EvalOutcome::Value(Value::Number(4)))
    ));
}

#[test]
fn values_are_charged() {
    let mut context = entered();
    context.budget.set_limits(60, 1, 1);
    let list = || Value::List(vec![text("hello")]);
    let shallow = {
        charge_ast_value(list(), &mut context).expect("the list itself fits");
        context.budget.usage().0
    };
    assert!(charge_ast_cloned_value(list(), &mut context).is_err());
    assert_eq!(context.budget.usage().0, shallow);
}

#[test]
fn functions_and_methods_are_called() {
    let (vars, funcs, mut context) = after(
        "fn add(a, b = 10):\n    return a + b\nclass Box:\n    let value = 3\n    fn times(self, n):\n        return self.value * n\nlet box = new(\"Box\")\n",
    );
    let add = function(&funcs, "add");
    assert_eq!(
        call_function_with_context(&add, vec![Value::Number(1)], &funcs, &mut context),
        Ok(Value::Number(11))
    );
    let named = vec![
        CallArgument {
            name: Some("b".to_string()),
            value: Value::Number(2),
        },
        CallArgument {
            name: Some("a".to_string()),
            value: Value::Number(5),
        },
    ];
    assert_eq!(
        call_function_with_arguments(&add, named, &funcs, &mut context),
        Ok(Value::Number(7))
    );
    let times = function(&funcs, "Box.times");
    let object = vars.find("box").expect("the object is there");
    assert_eq!(
        call_method_with_context(
            &times,
            vec![Value::Number(4)],
            object.copy(),
            &funcs,
            &mut context
        ),
        Ok(Value::Number(12))
    );
    let named = vec![CallArgument {
        name: Some("n".to_string()),
        value: Value::Number(5),
    }];
    assert_eq!(
        call_method_with_arguments(&times, named, object.copy(), &funcs, &mut context),
        Ok(Value::Number(15))
    );
    assert_eq!(
        call_method_with_context(&times, vec![], object.copy(), &funcs, &mut context),
        Err("method expects 1 to 1 arguments after self, got 0".to_string())
    );
}

#[test]
fn objects_are_constructed_by_class_and_fields() {
    let (vars, funcs, mut context) =
        after("class Base:\n    let a = 1\nclass Thing extends Base:\n    let b = 2\n");
    let fields = map_value(vec![("b".to_string(), Value::Number(7))]);
    let object = construct_object_with_context(
        &vec![text("Thing"), fields],
        &vars,
        &funcs,
        &mut context,
    )
    .expect("the class is known");
    let Value::Object { class_name, id } = &object else {
        panic!("an object is constructed");
    };
    assert_eq!(class_name, "Thing");
    let found = context.fields_of(*id).unwrap();
    assert_eq!(found.find("a"), Some(&Value::Number(1)));
    assert_eq!(found.find("b"), Some(&Value::Number(7)));
    initialize_object_fields("Thing", &object, &vars, &funcs, &mut context)
        .expect("the fields can be set anew");
    assert_eq!(
        context.fields_of(*id).unwrap().find("b"),
        Some(&Value::Number(2))
    );
    assert_eq!(
        construct_object_with_context(&vec![], &vars, &funcs, &mut context),
        Err("new expects a text class name".to_string())
    );
    assert_eq!(
        construct_object_with_context_inner(&vec![text("Nothing")], &vars, &funcs, &mut context),
        Err("unknown class: Nothing".to_string())
    );
}

#[test]
fn classes_know_their_ancestors_and_fields() {
    let (_, funcs, _) = after(
        "class A:\n    let x = 1\n    fn init(self):\n        self.x = 2\nclass B extends A:\n    fn init(self):\n        super.init()\nclass C extends B:\n    let y = 3\n",
    );
    assert!(is_same_or_subclass("C", "A", &funcs));
    assert!(is_same_or_subclass("C", "C", &funcs));
    assert!(!is_same_or_subclass("A", "C", &funcs));
    assert_eq!(class_parent("C", &funcs), Some("B".to_string()));
    assert_eq!(class_parent("A", &funcs), None);
    assert_eq!(find_field_owner("C", "x", &funcs), Some("A".to_string()));
    assert_eq!(find_field_owner("C", "z", &funcs), None);
    assert!(!constructor_delegates_to_parent(&function(&funcs, "A.init")));
    assert!(constructor_delegates_to_parent(&function(&funcs, "B.init")));
}

#[test]
fn bodies_run_in_their_frames() {
    let mut context = entered();
    let mut vars = Table::new();
    let mut funcs: Functions = Table::new();
    let frame = context.new_frame(Table::new(), None, Some("/base".to_string()));
    let program = parse_program("let a = 1\na = a + 1\nreturn a\n").expect("program should parse");
    assert!(matches!(
        execute_ast_program_with_frame(&program, &mut vars, &mut funcs, &mut context, "/base", frame),
        Ok(Flow::Return(Value::Number(2)))
    ));
    sync_vars_from_frame(frame, &mut vars, &context);
    assert_eq!(vars.find("a"), Some(&Value::Number(2)));
    let child = context.child_frame(frame);
    let body = parse_program("a = a * 10\nlet b = a\n").expect("program should parse");
    assert!(matches!(
        execute_ast_body_with_frame(&body, &mut vars, &mut funcs, &mut context, child),
        Ok(Flow::Continue)
    ));
    assert_eq!(context.lookup(frame, "a"), Some(&Value::Number(20)));
    assert_eq!(context.lookup(frame, "b"), None);
    assert_eq!(context.lookup(child, "b"), Some(&Value::Number(20)));
    assert_eq!(context.depth, 0);
}

#[test]
fn modules_are_loaded_by_their_names() {
    let mut context = entered();
    context.replies.push(Ok(text("/lib/m.zp")));
    context
        .replies
        .push(Ok(text("export let x = 1\nlet y = 2\n")));
    context.replies.push(Ok(text("/lib/m.zp")));
    let mut vars = Table::new();
    let mut funcs: Functions = Table::new();
    load_module_with_context("\"m.zp\"", &mut vars, &mut funcs, &mut context, "/lib", true)
        .expect("the module is loaded");
    assert_eq!(vars.find("x"), Some(&Value::Number(1)));
    assert_eq!(vars.find("y"), None);
    load_module_with_context("m.zp", &mut vars, &mut funcs, &mut context, "/lib", false)
        .expect("the module is cached");
    assert_eq!(vars.find("y"), Some(&Value::Number(2)));
    assert_eq!(vars.find("__zap_module"), Some(&text("/lib/m.zp")));
    assert!(context.loading.is_empty());
    assert!(context.pending.is_none());
}

#[test]
fn lines_run_in_a_context() {
    let mut context = entered();
    let mut vars = Table::new();
    let mut funcs: Functions = Table::new();
    let lines = vec!["say 1 + 1".to_string(), "use core".to_string()];
    assert!(matches!(
        execute_lines_with_context(&lines, &mut vars, &mut funcs, &mut context, "."),
        Ok(Flow::Continue)
    ));
    assert_eq!(
        context.output,
        vec![
            "2".to_string(),
            "[Zap native] module declared: core".to_string()
        ]
    );
}

#[test]
fn servers_check_their_arguments_and_stop_at_their_limit() {
    let (vars, funcs, mut context) = after(
        "fn home(request):\n    return {\"status\": 200, \"body\": \"hi\"}\nlet routes = [{\"method\": \"GET\", \"path\": \"/\", \"handler\": home}]\n",
    );
    let routes = vars.find("routes").expect("the routes are there");
    let error = |args: Vec<Value>, context: &mut ExecutionContext| {
        web_serve_with_context(&args, &funcs, context).unwrap_err()
    };
    assert_eq!(
        error(vec![], &mut context),
        "web_serve expects routes, port, and optional max_requests"
    );
    assert_eq!(
        error(vec![Value::List(vec![]), Value::Number(1)], &mut context),
        "web_serve expects between 1 and 1024 routes"
    );
    assert_eq!(
        error(vec![routes.copy(), Value::Number(-1)], &mut context),
        "web_serve expects a numeric port from 0 to 65535"
    );
    assert_eq!(
        error(
            vec![routes.copy(), Value::Number(0), Value::Number(-1)],
            &mut context
        ),
        "web_serve max_requests must be a non-negative number"
    );
    assert!(context.pending.is_none());
    context.replies.push(Ok(text("127.0.0.1:80")));
    context.replies.push(Ok(Value::List(vec![text(
        "R0VUIC8gSFRUUC8xLjENCg0K",
    )])));
    context.replies.push(Ok(Value::Number(5)));
    context.replies.push(Ok(Value::Nil));
    let Ok(Value::Dict(record)) = web_serve_with_context(
        &vec![routes.copy(), Value::Number(0), Value::Number(1)],
        &funcs,
        &mut context,
    ) else {
        panic!("the server should stop at its limit");
    };
    assert_eq!(record.find("served"), Some(&Value::Number(1)));
}

#[test]
fn annotations_are_divided_and_tested() {
    assert_eq!(
        generic_annotation("map<text,list<number>>"),
        Some(("map".to_string(), "text,list<number>".to_string()))
    );
    assert_eq!(generic_annotation("text"), None);
    let value = Value::List(vec![Value::Number(1)]);
    assert_eq!(check_annotation("x", "list<number>", &value), Ok(()));
    assert_eq!(
        check_annotation("x", "list<text>", &value),
        Err("type mismatch for x: expected list<text>, got list".to_string())
    );
}

#[test]
fn values_fit_the_types_that_are_computed_for_them() {
    let mixed = Value::List(vec![Value::Number(1), text("a")]);
    let nested = Value::List(vec![
        Value::OptionSome(Box::new(Value::Number(1))),
        Value::OptionSome(Box::new(Value::Number(2))),
    ]);
    let mut rows: Table<Value> = Table::new();
    rows.insert("k".to_string(), nested.copy());
    let cases = vec![
        (Value::List(vec![]), "list<any>"),
        (mixed, "list<any>"),
        (nested, "list<option<number>>"),
        (Value::Dict(rows), "map<text,list<option<number>>>"),
        (Value::ResultErr(Box::new(text("e"))), "result<text>"),
        (Value::OptionNone, "option<any>"),
        (Value::Nil, "none"),
    ];
    for (value, shown) in cases {
        let annotation = runtime_annotation(&value, 0);
        assert_eq!(annotation, shown);
        assert_eq!(matches_annotation(&annotation, &value), Ok(true));
    }
    let future = Value::Future(Box::new(Value::Nil));
    assert_eq!(matches_annotation(&runtime_annotation(&future, 0), &future), Ok(false));
}

#[test]
fn inferred_bindings_lead_back_to_the_type() {
    let mut rows: Table<Value> = Table::new();
    rows.insert("k".to_string(), Value::List(vec![Value::Number(1)]));
    let actual = runtime_annotation(&Value::Dict(rows), 0);
    let params = vec!["T".to_string()];
    for (expected, bound) in [
        ("map< text , list<T> >", "number"),
        ("map<text,T>", "list<number>"),
        ("T", "map<text,list<number>>"),
    ] {
        let mut bindings: Table<String> = Table::new();
        assert!(infer_runtime_substitution(expected, &actual, &params, &mut bindings, 0));
        assert_eq!(bindings.find("T"), Some(&bound.to_string()));
        assert_eq!(
            substitute_runtime_annotation(expected, &bindings, 0),
            Some("map<text,list<number>>".to_string())
        );
    }
}

#[test]
fn blocks_end_where_the_indentation_ends() {
    let lines: Vec<String> = ["if a:", "    b", "", "# note", "        c", "d"]
        .iter()
        .map(|line| line.to_string())
        .collect();
    let (body, end) = indented(&lines, 1);
    assert_eq!(body, vec!["b", "", "# note", "    c"]);
    assert_eq!(end, 5);
    assert_eq!(
        validate_indentation(&vec!["\t x".to_string()]),
        Err("mixed indentation at line 1: use spaces or tabs, not both".to_string())
    );
    assert_eq!(
        validate_indentation(&vec!["\tx".to_string(), "    y".to_string()]),
        Err("mixed indentation at line 2: file uses both tabs and spaces".to_string())
    );
}

#[test]
fn written_documents_hold_the_variants() {
    let context = entered();
    let value = Value::OptionSome(Box::new(Value::ResultOk(Box::new(Value::Nil))));
    assert_eq!(
        write_json(&value, &context),
        Ok(
            "{\"__zap_variant\":\"some\",\"value\":{\"__zap_variant\":\"ok\",\"value\":null}}"
                .to_string()
        )
    );
}

#[test]
fn durations_of_any_sign_make_up_the_whole() {
    for milliseconds in [0i64, 1, -1, 86_399_999, -90_061_007, i64::MAX, i64::MIN + 1] {
        let Ok(Value::Dict(parts)) =
            zap_evaluator::records::duration_value(milliseconds)
        else {
            panic!("a duration has parts");
        };
        let part = |key: &str| match parts.find(key) {
            Some(Value::Number(n)) => *n,
            _ => panic!("{key} is a number"),
        };
        assert_eq!(
            part("days") * 86_400_000
                + part("hours") * 3_600_000
                + part("minutes") * 60_000
                + part("seconds") * 1_000
                + part("millis"),
            milliseconds
        );
    }
}
