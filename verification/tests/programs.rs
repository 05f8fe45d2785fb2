use zap_evaluator::evaluator::{
    ast_program_compatible, execute_ast_program, execute_ast_program_with_context, execute_lines,
    Flow,
};
use zap_evaluator::liveness::count_live;
use zap_evaluator::program::parse_program;
use zap_evaluator::runtime::{direct_builtin, direct_builtin_with_context};
use zap_evaluator::system::configuration_path;
use zap_evaluator::table::Table;
use zap_evaluator::value::{Functions, ZapValue as Value};
use zap_evaluator::world::{ExecutionContext, HostCall};

fn text(s: &str) -> Value {
    Value::Text(s.to_string())
}

fn names() -> (Table<Value>, Functions) {
    (Table::new(), Table::new())
}

type Reply = Result<Value, String>;

fn copy_replies(replies: &[Reply]) -> Vec<Reply> {
    replies
        .iter()
        .map(|reply| match reply {
            Ok(value) => Ok(value.copy()),
            Err(error) => Err(error.clone()),
        })
        .collect()
}

/// Where the base of a program leads: a directory.
fn directory(path: &str) -> Value {
    Value::List(vec![text(path), Value::Bool(true)])
}

/// The replies of a host on which a program only has to enter its base.
fn here() -> Vec<Reply> {
    vec![Ok(directory("/here"))]
}

/// A context that has entered its base.
fn entered() -> ExecutionContext {
    let mut context = ExecutionContext::new();
    context.workspace = Some("/here".to_string());
    context
}

/// Runs a program and lets `host` answer its calls, one run after the other.
fn run_hosted(
    source: &str,
    base: &str,
    host: &mut dyn FnMut(&HostCall) -> Reply,
) -> (Result<Flow, String>, Table<Value>, Functions) {
    let program = parse_program(source).expect("program should parse");
    let mut replies: Vec<Reply> = Vec::new();
    loop {
        let (mut vars, mut funcs) = names();
        let mut context = ExecutionContext::new();
        context.replies = copy_replies(&replies);
        let result = execute_ast_program_with_context(
            &program,
            &mut vars,
            &mut funcs,
            &mut context,
            base,
        );
        match &context.pending {
            Some(call) if call.operation == "resolve_workspace" => {
                replies.push(Ok(directory(&argument(call, 0))));
            }
            Some(call) => replies.push(host(call)),
            None => return (result, vars, funcs),
        }
    }
}

fn argument(call: &HostCall, i: usize) -> String {
    match &call.arguments[i] {
        Value::Text(s) => s.clone(),
        other => panic!("unexpected argument: {other:?}"),
    }
}

/// A host with module files in memory.
fn module_host(files: Vec<(&'static str, &'static str)>) -> impl FnMut(&HostCall) -> Reply {
    move |call: &HostCall| {
        let find = |path: &str| files.iter().find(|file| file.0 == path);
        match call.operation.as_str() {
            "resolve_module" => {
                let path = format!("{}/{}", argument(call, 0), argument(call, 1));
                Ok(find(&path).map_or(Value::Nil, |_| Value::Text(path)))
            }
            "read_text" => find(&argument(call, 0))
                .map(|file| text(file.1))
                .ok_or_else(|| "module import failed: no such file".to_string()),
            other => panic!("unexpected host call: {other}"),
        }
    }
}

#[test]
fn propagates_uncaught_raise_as_runtime_flow() {
    let program = parse_program("raise \"boom\"\n").expect("valid raise program");
    let (mut vars, mut funcs) = names();
    let result = execute_ast_program(&program, &mut vars, &mut funcs, ".", '/', here());
    assert!(matches!(
        result,
        Ok(Flow::Raise(Value::Text(value))) if value == "boom"
    ));
}

#[test]
fn executes_ast_compatible_statements() {
    let program = parse_program("let total: number = 1\nif total > 0:\n    total = total + 5\n")
        .expect("valid AST program");
    let (mut vars, mut funcs) = names();
    let flow = execute_ast_program(&program, &mut vars, &mut funcs, ".", '/', here())
        .expect("AST execution should succeed");
    assert!(matches!(flow, Flow::Continue));
    assert_eq!(vars.find("total"), Some(&Value::Number(6)));
}

#[test]
fn every_parser_owned_program_is_canonical_ast_compatible() {
    let program = parse_program(
        "module app.core\nexport let answer: number = 41\nexport fn greet(name):\n    return name + \"!\"\ntry:\n    answer = answer + 1\ncatch error:\n    say error\nif answer > 0:\n    while answer > 0:\n        break\nfor item in [1, 2]:\n    say item\n",
    )
    .expect("all current syntax should parse through the AST");
    assert!(ast_program_compatible(&program));
}

#[test]
fn imports_modules_through_the_canonical_ast_executor() {
    let mut host = module_host(vec![(
        "/root/library.zp",
        "export let suffix = \"!\"\nexport fn greet(name):\n    return name + suffix\n",
    )]);
    let (result, vars, funcs) = run_hosted(
        "import \"library.zp\"\nlet result = greet(\"Zap\")\n",
        "/root",
        &mut host,
    );
    result.expect("module import should use the AST executor");
    assert_eq!(vars.find("result"), Some(&text("Zap!")));
    assert!(!vars.holds("__zap_export_var__:suffix"));
    assert!(funcs
        .find("greet")
        .is_some_and(|function| function.ast_body.is_some()));
}

#[test]
fn function_calls_preserve_module_base_for_nested_relative_imports() {
    let mut host = module_host(vec![
        (
            "/root/library.zp",
            "export fn greet(name):\n    import \"nested/helper.zp\"\n    return name + suffix\n",
        ),
        ("/root/nested/helper.zp", "export let suffix = \"!\"\n"),
    ]);
    let (result, vars, _) = run_hosted(
        "import \"library.zp\"\nlet result = greet(\"Zap\")\n",
        "/root",
        &mut host,
    );
    result.expect("nested relative import should use the defining module base");
    assert_eq!(vars.find("result"), Some(&text("Zap!")));
}

#[test]
fn repeated_module_execution_reuses_cache_until_context_reset() {
    let program = parse_program("import \"library.zp\"\nlet result = marker\n")
        .expect("module import program should parse");
    let mut context = entered();
    let (mut vars, mut funcs) = names();
    context.replies.push(Ok(text("/root/library.zp")));
    context.replies.push(Ok(text("export let marker = \"first\"\n")));
    execute_ast_program_with_context(&program, &mut vars, &mut funcs, &mut context, "/root")
        .expect("initial module execution should succeed");
    assert_eq!(vars.find("result"), Some(&text("first")));

    let (mut vars, mut funcs) = names();
    context.replies.push(Ok(text("/root/library.zp")));
    execute_ast_program_with_context(&program, &mut vars, &mut funcs, &mut context, "/root")
        .expect("cached module execution should succeed");
    assert_eq!(vars.find("result"), Some(&text("first")));

    context.reset_for_run();
    let (mut vars, mut funcs) = names();
    context.replies.push(Ok(text("/root/library.zp")));
    context.replies.push(Ok(text("export let marker = \"second\"\n")));
    execute_ast_program_with_context(&program, &mut vars, &mut funcs, &mut context, "/root")
        .expect("reset module execution should succeed");
    assert_eq!(vars.find("result"), Some(&text("second")));
    assert!(context.pending.is_none());
}

#[test]
fn executes_function_and_method_bodies_from_native_ast() {
    let program = parse_program(
        "fn add(a: number, b: number) -> number:\n    return a + b\nfn twice(value: number) -> number:\n    return add(value, value)\nlet result: number = twice(3)\n",
    )
    .expect("valid declaration AST program");
    let (mut vars, mut funcs) = names();
    execute_ast_program(&program, &mut vars, &mut funcs, ".", '/', here())
        .expect("native AST declarations should execute");
    assert!(funcs
        .find("add")
        .is_some_and(|function| function.ast_body.is_some()));
    assert!(funcs
        .find("twice")
        .is_some_and(|function| function.ast_body.is_some()));
    assert_eq!(vars.find("result"), Some(&Value::Number(6)));
}

#[test]
fn callable_values_support_assignment_arguments_returns_and_serialization() {
    let program = parse_program(
        "fn add(a: number, b: number) -> number:\n    return a + b\nfn apply(f: function, value: number) -> number:\n    return f(value, value)\nfn choose() -> function:\n    return add\nlet alias = add\nlet from_alias = alias(2, 3)\nlet from_argument = apply(add, 4)\nlet from_return = choose()(5, 6)\nlet kind = type(add)\nlet rendered = str(add)\nlet encoded = json(add)\n",
    )
    .expect("callable value program should parse");
    let (mut vars, mut funcs) = names();
    execute_ast_program(&program, &mut vars, &mut funcs, ".", '/', here())
        .expect("callable values should execute through the AST");
    assert_eq!(vars.find("from_alias"), Some(&Value::Number(5)));
    assert_eq!(vars.find("from_argument"), Some(&Value::Number(8)));
    assert_eq!(vars.find("from_return"), Some(&Value::Number(11)));
    assert_eq!(vars.find("kind"), Some(&text("function")));
    assert_eq!(vars.find("rendered"), Some(&text("<callable>")));
    assert_eq!(
        vars.find("encoded"),
        Some(&text("{\"__zap_variant\":\"callable\"}"))
    );
}

#[test]
fn parent_linked_closures_preserve_mutation_after_outer_return() {
    let program = parse_program(
        "fn make_counter() -> function:\n    let count = 0\n    fn next() -> number:\n        count = count + 1\n        return count\n    return next\nlet counter = make_counter()\nlet first = counter()\nlet second = counter()\n",
    )
    .expect("closure mutation program should parse");
    let (mut vars, mut funcs) = names();
    execute_ast_program(&program, &mut vars, &mut funcs, ".", '/', here())
        .expect("parent-linked closure should execute");
    assert_eq!(vars.find("first"), Some(&Value::Number(1)));
    assert_eq!(vars.find("second"), Some(&Value::Number(2)));
}

#[test]
fn live_closures_share_reassigned_outer_cells_without_breaking_shadowing_or_recursion() {
    let program = parse_program(
        "fn make_live_reader() -> function:\n    let value = 1\n    fn read() -> number:\n        return value\n    value = 2\n    return read\nfn make_shared_reader() -> function:\n    let value = 0\n    fn increment() -> number:\n        value = value + 1\n        return value\n    fn read() -> number:\n        return value\n    increment()\n    return read\nfn make_shadow_reader() -> function:\n    let value = 4\n    fn read() -> number:\n        let value = 9\n        return value\n    return read\nfn factorial(value: number) -> number:\n    if value <= 1:\n        return 1\n    return value * factorial(value - 1)\nlet live = make_live_reader()\nlet shared = make_shared_reader()\nlet shadow = make_shadow_reader()\nlet reassigned = live()\nlet sibling_value = shared()\nlet shadowed = shadow()\nlet recursive = factorial(5)\n",
    )
    .expect("live closure program should parse");
    let (mut vars, mut funcs) = names();
    execute_ast_program(&program, &mut vars, &mut funcs, ".", '/', here())
        .expect("live closures should execute through the AST");
    assert_eq!(vars.find("reassigned"), Some(&Value::Number(2)));
    assert_eq!(vars.find("sibling_value"), Some(&Value::Number(1)));
    assert_eq!(vars.find("shadowed"), Some(&Value::Number(9)));
    assert_eq!(vars.find("recursive"), Some(&Value::Number(120)));
}

#[test]
fn callable_values_report_deterministic_arity_and_type_errors() {
    let arity_program = parse_program(
        "fn add(a: number, b: number) -> number:\n    return a + b\nlet result = add(1)\n",
    )
    .expect("arity program should parse");
    let (mut vars, mut funcs) = names();
    let arity_error = match execute_ast_program(&arity_program, &mut vars, &mut funcs, ".", '/', here()) {
        Ok(_) => panic!("missing callable arguments must fail"),
        Err(error) => error,
    };
    assert_eq!(arity_error, "function expects 2 to 2 arguments, got 1");

    let type_program =
        parse_program("fn apply(f: function) -> number:\n    return 1\nlet result = apply(1)\n")
            .expect("callable type program should parse");
    let (mut vars, mut funcs) = names();
    let type_error = match execute_ast_program(&type_program, &mut vars, &mut funcs, ".", '/', here()) {
        Ok(_) => panic!("non-callable function arguments must fail"),
        Err(error) => error,
    };
    assert_eq!(
        type_error,
        "type mismatch for f: expected function, got number"
    );
}

#[test]
fn collection_iteration_helpers_are_deterministic() {
    let program = parse_program(
        "let pairs = entries({b: 2, a: 1})\nlet indexed = enumerate([\"é\", \"zap\"])\n",
    )
    .expect("valid collection helper program");
    let (mut vars, mut funcs) = names();
    execute_ast_program(&program, &mut vars, &mut funcs, ".", '/', here())
        .expect("collection helpers should execute");
    let Value::List(pairs) = vars.find("pairs").expect("entries result") else {
        panic!("entries should return a list");
    };
    assert_eq!(pairs.len(), 2);
    assert!(matches!(
        &pairs[0],
        Value::Dict(entry)
            if entry.find("key") == Some(&text("a"))
                && entry.find("value") == Some(&Value::Number(1))
    ));
    let Value::List(indexed) = vars.find("indexed").expect("enumerate result") else {
        panic!("enumerate should return a list");
    };
    assert!(matches!(
        &indexed[1],
        Value::Dict(entry)
            if entry.find("index") == Some(&Value::Number(1))
                && entry.find("value") == Some(&text("zap"))
    ));
}

#[test]
fn executes_async_functions_and_awaits_results() {
    let program = parse_program(
        "async fn load() -> number:\n    return 7\nlet pending = load()\nlet result: number = await pending\n",
    )
    .expect("valid async AST program");
    let (mut vars, mut funcs) = names();
    execute_ast_program(&program, &mut vars, &mut funcs, ".", '/', here())
        .expect("async AST program should execute");
    assert!(matches!(
        vars.find("pending"),
        Some(Value::ScheduledFuture(_))
    ));
    assert_eq!(vars.find("result"), Some(&Value::Number(7)));
    assert!(funcs.find("load").is_some_and(|function| function.is_async));
}

#[test]
fn language_level_task_apis_spawn_join_and_report_readiness() {
    let program = parse_program(
        "async fn load() -> number:\n    return 7\nlet handle = spawn(load())\nlet ready: bool = task_is_ready(handle)\nlet result: number = task_join(handle)\n",
    )
    .expect("valid language-level task program");
    let (mut vars, mut funcs) = names();
    execute_ast_program(&program, &mut vars, &mut funcs, ".", '/', here()).expect("task APIs should execute");
    assert_eq!(vars.find("ready"), Some(&Value::Bool(false)));
    assert_eq!(vars.find("result"), Some(&Value::Number(7)));

    let error = direct_builtin("spawn", &vec![Value::Number(1)], None)
        .expect_err("spawn should reject non-future values");
    assert_eq!(error, "spawn expects a future value");
}

#[test]
fn evaluates_async_capabilities_from_native_ast() {
    let program = parse_program("let boundary = async_capabilities()\n")
        .expect("async_capabilities program should parse");
    let (mut vars, mut funcs) = names();
    execute_ast_program(&program, &mut vars, &mut funcs, ".", '/', here())
        .expect("async_capabilities should execute from Zap source");
    let Value::Dict(boundary) = vars.find("boundary").expect("capability result") else {
        panic!("async_capabilities should return a map");
    };
    assert_eq!(
        boundary.find("process_cancellation"),
        Some(&text("terminate_then_drain"))
    );
}

#[test]
fn ast_new_constructs_objects_without_legacy_reparse() {
    let program =
        parse_program("class Box:\n    let value = 7\n\nlet box = new(\"Box\", {\"value\": 9})\n")
            .expect("class construction program should parse");
    let (mut vars, mut funcs) = names();
    let mut context = entered();
    execute_ast_program_with_context(&program, &mut vars, &mut funcs, &mut context, ".")
        .expect("native AST object construction should execute");
    let Value::Object { class_name, id } = vars.find("box").expect("constructed object") else {
        panic!("new should return an object");
    };
    assert_eq!(class_name, "Box");
    assert_eq!(
        context.fields_of(*id).unwrap().find("value"),
        Some(&Value::Number(9))
    );
}

#[test]
fn native_constructor_charges_default_fields_and_rolls_back_failed_object_admission() {
    let program = parse_program(
        "class Box:\n    public let value = [\"default\"]\n\nlet box = new(\"Box\")\n",
    )
    .expect("default-field constructor program should parse");
    let mut context = entered();
    context.budget.set_limits(220, 1, 100);
    let (mut vars, mut funcs) = names();
    let error = match execute_ast_program_with_context(
        &program,
        &mut vars,
        &mut funcs,
        &mut context,
        ".",
    ) {
        Ok(_) => panic!("object admission should exceed the deterministic byte budget"),
        Err(error) => error,
    };
    assert!(error.contains("memory budget exceeded"));
    assert!(vars.len() == 0);
    assert_eq!(context.budget.usage().0, 134);

    context.reset_for_run();
    let (mut vars, mut funcs) = names();
    context.budget.set_limits(320, 1, 100);
    execute_ast_program_with_context(&program, &mut vars, &mut funcs, &mut context, ".")
        .expect("the finalized object should fit the larger budget");
    assert!(matches!(vars.find("box"), Some(Value::Object { .. })));
    assert!(context.budget.usage().0 >= 305);
}

#[test]
fn ast_new_rejects_named_arguments_deterministically() {
    let program =
        parse_program("class Box:\n    let value = 7\n\nlet box = new(\"Box\", value = 9)\n")
            .expect("named constructor program should parse");
    let (mut vars, mut funcs) = names();
    let error = match execute_ast_program(&program, &mut vars, &mut funcs, ".", '/', here()) {
        Ok(_) => panic!("named constructor arguments must be rejected"),
        Err(error) => error,
    };
    assert_eq!(
        error,
        "named arguments are not supported for built-in function: new"
    );
}

#[test]
fn unknown_ast_calls_fail_without_legacy_reparse() {
    let program = parse_program("let result = missing_function(1)\n")
        .expect("unknown call program should parse");
    let (mut vars, mut funcs) = names();
    let result = execute_ast_program(&program, &mut vars, &mut funcs, ".", '/', here());
    assert!(matches!(
        result,
        Err(error) if error == "undefined function: missing_function"
    ));
}

#[test]
fn ast_object_member_read_propagates_borrow_error_without_panic() {
    let mut context = entered();
    let object = context.new_object("Borrowed");
    let Value::Object { id, .. } = &object else {
        panic!("object constructor must create an object value");
    };
    context.hold_object(*id, true);
    let program =
        parse_program("let result = borrowed.value\n").expect("object-member program should parse");
    let (mut vars, mut funcs) = names();
    vars.insert("borrowed".to_string(), object.copy());
    let error = match execute_ast_program_with_context(
        &program,
        &mut vars,
        &mut funcs,
        &mut context,
        ".",
    ) {
        Err(error) => error,
        Ok(_) => panic!("borrowed object member access must fail"),
    };
    assert_eq!(error, "BorrowError: object fields are already borrowed");
}

#[test]
fn logical_value_admission_covers_ast_collections_and_rolls_back_on_failure() {
    let program =
        parse_program("let values = [\"hello\"]\n").expect("collection charge program should parse");
    let mut context = entered();
    context.budget.set_limits(52, 1, 100);
    let (mut vars, mut funcs) = names();
    let error = match execute_ast_program_with_context(
        &program,
        &mut vars,
        &mut funcs,
        &mut context,
        ".",
    ) {
        Ok(_) => panic!("the collection should exceed the deterministic byte budget"),
        Err(error) => error,
    };
    assert!(error.contains("memory budget exceeded"));
    assert_eq!(context.budget.usage(), (0, 0, 0));
    assert!(vars.len() == 0);

    context.budget.set_limits(10_000, 1, 100);
    execute_ast_program_with_context(&program, &mut vars, &mut funcs, &mut context, ".")
        .expect("the same collection should fit a larger budget");
    assert!(context.budget.usage().0 >= 53);
}

#[test]
fn evaluates_get_defaults_from_native_ast() {
    let program = parse_program(
        "let user = {\"name\": \"Zap\"}\nlet known = get(user, \"name\", \"unknown\")\nlet missing = get(user, \"email\", \"unknown\")\n",
    )
    .expect("get program should parse");
    let (mut vars, mut funcs) = names();
    execute_ast_program(&program, &mut vars, &mut funcs, ".", '/', here())
        .expect("get should execute from native AST");
    assert_eq!(vars.find("known"), Some(&text("Zap")));
    assert_eq!(vars.find("missing"), Some(&text("unknown")));
}

#[test]
fn evaluates_memory_stats_from_native_ast() {
    let program = parse_program("let stats = memory_stats()\n")
        .expect("memory_stats program should parse");
    let (mut vars, mut funcs) = names();
    execute_ast_program(&program, &mut vars, &mut funcs, ".", '/', here())
        .expect("memory_stats should execute from Zap source");
    let Value::Dict(stats) = vars.find("stats").expect("memory_stats result") else {
        panic!("memory_stats should return a map");
    };
    assert!(matches!(stats.find("live_objects"), Some(Value::Number(_))));
    assert_eq!(
        stats.find("cycle_policy"),
        Some(&text("explicit_clear_object_fields"))
    );
}

#[test]
fn evaluates_pure_builtins_from_native_ast() {
    let program = parse_program(
        "let count: number = len(range(0, 3))\nlet total: number = sum(range(1, 4))\nlet joined: text = join(split(\"a,b\", \",\"), \"-\")\nlet present: bool = is_some(some(1))\nlet value: number = unwrap(ok(7))\n",
    )
    .expect("valid built-in AST program");
    let (mut vars, mut funcs) = names();
    execute_ast_program(&program, &mut vars, &mut funcs, ".", '/', here())
        .expect("direct built-in AST calls should execute");
    assert_eq!(vars.find("count"), Some(&Value::Number(3)));
    assert_eq!(vars.find("total"), Some(&Value::Number(6)));
    assert_eq!(vars.find("joined"), Some(&text("a-b")));
    assert_eq!(vars.find("present"), Some(&Value::Bool(true)));
    assert_eq!(vars.find("value"), Some(&Value::Number(7)));
}

#[test]
fn evaluates_legacy_visible_helpers_from_native_ast() {
    let mut host = |call: &HostCall| -> Reply {
        assert_eq!(call.operation, "sqrt");
        let Value::Number(n) = call.arguments[0] else {
            panic!("sqrt takes a number");
        };
        Ok(Value::Number((n as f64).sqrt().round() as i64))
    };
    let (result, vars, _) = run_hosted(
        r#"let numbers = [4, 1, 8, 2]
let sorted = sort(numbers)
let root = sqrt(16)
assert(join(sorted, ",") == "1,2,4,8", "sort failed")
"#,
        ".",
        &mut host,
    );
    result.expect("legacy-visible helpers should execute from native AST");
    assert_eq!(
        vars.find("sorted"),
        Some(&Value::List(vec![
            Value::Number(1),
            Value::Number(2),
            Value::Number(4),
            Value::Number(8),
        ]))
    );
    assert_eq!(vars.find("root"), Some(&Value::Number(4)));
}

#[test]
fn ast_function_defaults_use_native_expression_evaluation() {
    let program = parse_program(
        "fn defaulted(value = unwrap(ok(7))):\n    return value\nlet result = defaulted()\n",
    )
    .expect("function default program should parse");
    let (mut vars, mut funcs) = names();
    execute_ast_program(&program, &mut vars, &mut funcs, ".", '/', here())
        .expect("AST function defaults should execute");
    assert_eq!(vars.find("result"), Some(&Value::Number(7)));
}

#[test]
fn evaluates_configuration_builtins_from_native_ast() {
    let mut host = |call: &HostCall| -> Reply {
        match call.operation.as_str() {
            "platform" => Ok(text("linux")),
            "env" => match argument(call, 0).as_str() {
                "HOME" => Ok(Value::OptionSome(Box::new(text("/home/zap")))),
                _ => Ok(Value::OptionNone),
            },
            other => panic!("unexpected host call: {other}"),
        }
    };
    let (result, vars, _) = run_hosted(
        "let fallback: text = env_get(\"ZAP_TEST_MISSING_ENV\", \"fallback\")\nlet directory: text = config_dir()\nlet file: text = config_path(\"settings.json\")\n",
        ".",
        &mut host,
    );
    result.expect("configuration built-ins should execute");
    assert_eq!(vars.find("fallback"), Some(&text("fallback")));
    let Value::Text(directory) = vars.find("directory").expect("config directory") else {
        panic!("config_dir must return text");
    };
    let Value::Text(file) = vars.find("file").expect("config path") else {
        panic!("config_path must return text");
    };
    assert!(file.starts_with(directory.as_str()));
    assert!(file.ends_with("settings.json"));
    assert_eq!(directory, "/home/zap/.config");

    let mut context = ExecutionContext::new();
    assert!(configuration_path("../escape.json", &mut context).is_err());
    assert!(configuration_path("nested/settings.json", &mut context).is_err());
    assert!(context.pending.is_none());
}

#[test]
fn evaluates_json_builtins_from_native_ast() {
    let program = parse_program(
        "let encoded: text = json(range(1, 3))\nlet decoded = from_json(\"{\\\"name\\\":\\\"Zap\\\",\\\"version\\\":1}\")\nlet name: text = decoded[\"name\"]\n",
    )
    .expect("valid JSON built-in AST program");
    let (mut vars, mut funcs) = names();
    execute_ast_program(&program, &mut vars, &mut funcs, ".", '/', here())
        .expect("direct JSON built-ins should execute");
    assert_eq!(vars.find("encoded"), Some(&text("[1,2]")));
    assert_eq!(vars.find("name"), Some(&text("Zap")));

    let invalid = parse_program("let value = from_json(\"{invalid}\")\n")
        .expect("invalid JSON remains syntactically valid Zap");
    let (mut vars, mut funcs) = names();
    match execute_ast_program(&invalid, &mut vars, &mut funcs, ".", '/', here()) {
        Err(error) => assert!(error.contains("from_json failed:")),
        Ok(_) => panic!("malformed JSON should fail at runtime"),
    }
}

#[test]
fn evaluates_system_builtins_from_native_ast() {
    let mut host = |call: &HostCall| -> Reply {
        match call.operation.as_str() {
            "env" => Ok(Value::OptionSome(Box::new(text("/bin")))),
            "resolve_path" => Ok(text("/workspace")),
            "exists" => Ok(Value::Bool(argument(call, 0) == "/workspace")),
            "clock" => Ok(Value::List(vec![
                Value::Number(1_700_000_000),
                Value::Number(5),
            ])),
            "sleep" => {
                assert_eq!(call.arguments[0], Value::Number(0));
                Ok(Value::Nil)
            }
            other => panic!("unexpected host call: {other}"),
        }
    };
    let (result, vars, _) = run_hosted(
        "let present: bool = has_env(\"PATH\")\nlet joined: text = path_join(\"tmp\", \"zap\", \"main.zp\")\nlet base: text = basename(joined)\nlet parent: text = dirname(joined)\nlet available: bool = exists(\".\")\nlet timestamp: number = now()\nsleep(0)\n",
        "/workspace",
        &mut host,
    );
    result.expect("direct system built-ins should execute");
    assert!(matches!(vars.find("present"), Some(Value::Bool(_))));
    assert_eq!(vars.find("joined"), Some(&text("tmp/zap/main.zp")));
    assert_eq!(vars.find("base"), Some(&text("main.zp")));
    assert!(matches!(vars.find("parent"), Some(Value::Text(_))));
    assert_eq!(vars.find("available"), Some(&Value::Bool(true)));
    assert!(matches!(vars.find("timestamp"), Some(Value::Number(value)) if *value > 0));
}

#[test]
fn evaluates_list_indexing_from_native_ast() {
    let program = parse_program("let selected: number = range(0, 3)[1]\n")
        .expect("valid indexed AST program");
    let (mut vars, mut funcs) = names();
    execute_ast_program(&program, &mut vars, &mut funcs, ".", '/', here())
        .expect("native AST indexing should execute");
    assert_eq!(vars.find("selected"), Some(&Value::Number(1)));
}

#[test]
fn rejects_oversized_source_blocks() {
    let lines = vec![String::new(); 100_001];
    let (mut vars, mut funcs) = names();
    match execute_lines(&lines, &mut vars, &mut funcs, ".", '/', here()) {
        Err(error) => assert!(error.contains("source line limit exceeded")),
        Ok(_) => panic!("source limit should reject oversized input"),
    }
}

#[test]
fn rejects_unbounded_loop_iterations() {
    let lines = vec!["while true:".to_string(), "    continue".to_string()];
    let (mut vars, mut funcs) = names();
    match execute_lines(&lines, &mut vars, &mut funcs, ".", '/', here()) {
        Err(error) => assert!(error.contains("loop limit exceeded")),
        Ok(_) => panic!("loop limit should reject an unbounded loop"),
    }
}

#[test]
fn evaluates_file_builtins_from_native_ast() {
    let mut files: Vec<(String, String)> = Vec::new();
    let mut host = |call: &HostCall| -> Reply {
        match call.operation.as_str() {
            "resolve_path" => Ok(text(&argument(call, 0))),
            "write_text" => {
                let (path, content) = (argument(call, 0), argument(call, 1));
                files.retain(|file| file.0 != path);
                files.push((path, content));
                Ok(Value::Nil)
            }
            "read_text" => files
                .iter()
                .find(|file| file.0 == argument(call, 0))
                .map(|file| text(&file.1))
                .ok_or_else(|| "read_text failed: missing".to_string()),
            other => panic!("unexpected host call: {other}"),
        }
    };
    let path = "/workspace/output.txt";
    let source = format!(
        "write_text(\"{path}\", \"hello\")\nlet content: text = read_text(\"{path}\")\nwrite_lines(\"{path}\", split(\"one,two\", \",\"))\nlet lines = read_lines(\"{path}\")\n",
    );
    let (result, vars, _) = run_hosted(&source, "/workspace", &mut host);
    result.expect("direct file built-ins should execute");
    assert_eq!(vars.find("content"), Some(&text("hello")));
    assert_eq!(
        vars.find("lines"),
        Some(&Value::List(vec![text("one"), text("two")]))
    );
}

#[test]
fn filesystem_builtins_cannot_escape_workspace() {
    let mut host = |call: &HostCall| -> Reply {
        match call.operation.as_str() {
            "resolve_path" => {
                assert_eq!(argument(call, 0), "/tmp/space/../zap-confined-escape.txt");
                Ok(text("/tmp/zap-confined-escape.txt"))
            }
            other => panic!("unexpected host call: {other}"),
        }
    };
    let (result, _, _) = run_hosted(
        "write_text(\"../zap-confined-escape.txt\", \"secret\")\n",
        "/tmp/space",
        &mut host,
    );
    let error = match result {
        Err(error) => error,
        Ok(_) => panic!("workspace traversal must fail"),
    };
    assert!(error.contains("write_text failed: path escapes the workspace"));
}

#[test]
fn filesystem_builtins_reject_symlinks_outside_workspace() {
    let mut host = |call: &HostCall| -> Reply {
        match call.operation.as_str() {
            "resolve_path" => Ok(text("/tmp/zap-symlink-secret.txt")),
            other => panic!("unexpected host call: {other}"),
        }
    };
    let (result, _, _) = run_hosted("read_text(\"link.txt\")\n", "/tmp/space", &mut host);
    let error = match result {
        Err(error) => error,
        Ok(_) => panic!("outside symlink must fail"),
    };
    assert!(error.contains("read_text failed: path escapes the workspace"));
}

// ---------------------------------------------------------------------------
// Live objects
// ---------------------------------------------------------------------------

fn counts(source: &str, names: &[&str]) -> Vec<i64> {
    let class = "class Box:\n    public let other = 0\nfn live():\n    return memory_stats()[\"live_objects\"]\n";
    let (result, vars) = run(&format!("{class}{source}"));
    result.expect("the program should run");
    names
        .iter()
        .map(|name| match vars.find(name) {
            Some(Value::Number(n)) => *n,
            other => panic!("{name} should be a number: {other:?}"),
        })
        .collect()
}

#[test]
fn objects_are_live_while_something_holds_them() {
    assert_eq!(
        counts(
            "let a = new(\"Box\")\nlet b = a\nlet one = live()\na = 0\nlet still = live()\nb = 0\nlet none = live()\nlet made = memory_stats()[\"object_allocations\"]\n",
            &["one", "still", "none", "made"],
        ),
        vec![1, 1, 0, 1]
    );
    assert_eq!(
        counts(
            "fn inside():\n    let local = new(\"Box\")\n    return live()\nlet during = inside()\nlet after = live()\n",
            &["during", "after"],
        ),
        vec![1, 0]
    );
    assert_eq!(
        counts(
            "let items = [new(\"Box\"), live(), new(\"Box\"), live()]\nlet first = items[1]\nlet second = items[3]\nitems = 0\nlet none = live()\n",
            &["first", "second", "none"],
        ),
        vec![1, 2, 0]
    );
    assert_eq!(
        counts(
            "fn spare(x, n = live()):\n    x = 0\n    return n * 10 + live()\nlet got = spare(new(\"Box\"))\n",
            &["got"],
        ),
        vec![10]
    );
    assert_eq!(
        counts(
            "let seen = 0\nfor x in [new(\"Box\"), new(\"Box\")]:\n    seen = seen * 10 + live()\nx = 0\nlet none = live()\n",
            &["seen", "none"],
        ),
        vec![21, 0]
    );
    assert_eq!(
        counts(
            "let a = new(\"Box\")\nlet b = new(\"Box\")\na.other = b\nb = 0\nlet held = live()\na = 0\nlet none = live()\n",
            &["held", "none"],
        ),
        vec![2, 0]
    );
    assert_eq!(
        counts(
            "let a = new(\"Box\")\nlet b = new(\"Box\")\na.other = b\nb.other = a\na = 0\nb = 0\nlet circle = live()\n",
            &["circle"],
        ),
        vec![2]
    );
    assert_eq!(
        counts(
            "async fn later():\n    return new(\"Box\")\nlet task = later()\nlet waiting = live()\ntask_cancel(task)\nlet gone = live()\n",
            &["waiting", "gone"],
        ),
        vec![1, 0]
    );
}

#[test]
fn joined_parts_make_up_the_text() {
    let (result, vars) = run(
        "let a = join(split(\"x,,y,\", \",\"), \",\")\nlet b = join(split(\"xyz\", \"\"), \"\")\nlet c = join(split(\"\", \",\"), \",\")\n",
    );
    result.expect("the program should run");
    assert_eq!(vars.find("a"), Some(&text("x,,y,")));
    assert_eq!(vars.find("b"), Some(&text("xyz")));
    assert_eq!(vars.find("c"), Some(&text("")));
}

#[test]
fn caught_names_are_put_back() {
    let (result, vars) = run(
        "let e = 7\ntry:\n    raise \"boom\"\ncatch e:\n    let seen = e\ntry:\n    raise 1\ncatch fresh:\n    let other = fresh\n",
    );
    result.expect("the program should run");
    assert_eq!(vars.find("seen"), Some(&text("boom")));
    assert_eq!(vars.find("e"), Some(&Value::Number(7)));
    assert_eq!(vars.find("other"), Some(&Value::Number(1)));
    assert_eq!(vars.find("fresh"), None);
}

#[test]
fn asynchronous_calls_run_at_once_and_are_joined_later() {
    let (result, vars) = run(
        "let log = []\nlet count = 0\nasync fn work(n):\n    count = count + 1\n    return n * 2\nlet handle = work(21)\nlet ran = count\nlet value = task_join(handle)\n",
    );
    result.expect("the program should run");
    assert_eq!(vars.find("ran"), Some(&Value::Number(1)));
    assert_eq!(vars.find("value"), Some(&Value::Number(42)));
}

#[test]
fn circles_of_objects_are_broken_by_clearing() {
    let mut context = ExecutionContext::new();
    let a = context.new_object("Box");
    let b = context.new_object("Box");
    context.set_field(0, "other", b).expect("the field is set");
    context.set_field(1, "other", a).expect("the field is set");
    assert_eq!(count_live(&context), 2);
    context.clear_object_fields(0).expect("the fields are cleared");
    assert_eq!(count_live(&context), 0);
}

// ---------------------------------------------------------------------------
// More of the language
// ---------------------------------------------------------------------------

fn run(source: &str) -> (Result<Flow, String>, Table<Value>) {
    let program = parse_program(source).expect("program should parse");
    let (mut vars, mut funcs) = names();
    let result = execute_ast_program(&program, &mut vars, &mut funcs, ".", '/', here());
    (result, vars)
}

fn failure(source: &str) -> String {
    match run(source).0 {
        Err(error) => error,
        Ok(flow) => panic!("unexpected success: {flow:?}"),
    }
}

#[test]
fn classes_inherit_fields_methods_and_constructors() {
    let (result, vars) = run(
        "class Animal:\n    let legs = 4\n    fn init(self, name):\n        self.name = name\n    fn describe(self):\n        return self.name\nclass Dog extends Animal:\n    let sound = \"woof\"\n    fn init(self, name):\n        self.tag = name + \"!\"\n    fn speak(self):\n        return super.describe() + self.tag\nlet dog = new(\"Dog\", \"Rex\")\nlet said = dog.speak()\nlet legs = dog.legs\nlet sound = dog.sound\n",
    );
    result.expect("classes should execute");
    assert_eq!(vars.find("said"), Some(&text("RexRex!")));
    assert_eq!(vars.find("legs"), Some(&Value::Number(4)));
    assert_eq!(vars.find("sound"), Some(&text("woof")));
}

#[test]
fn visibility_is_checked_for_fields_and_methods() {
    assert_eq!(
        failure(
            "class Safe:\n    private let code = 7\n    fn open(self):\n        return self.code\nlet safe = new(\"Safe\")\nlet inside = safe.open()\nlet outside = safe.code\n"
        ),
        "private field is not accessible from this context"
    );
    assert_eq!(
        failure(
            "class Safe:\n    private fn turn(self):\n        return 1\nlet safe = new(\"Safe\")\nsafe.turn()\n"
        ),
        "private method is not accessible from this context"
    );
}

#[test]
fn a_cyclic_class_hierarchy_is_reported() {
    assert_eq!(
        failure("class Loop extends Loop:\n    let value = 1\nlet x = new(\"Loop\")\n"),
        "class hierarchy is cyclic: Loop"
    );
}

#[test]
fn errors_are_caught_and_the_binding_is_restored() {
    let (result, vars) = run(
        "let error = \"before\"\nlet seen = \"\"\ntry:\n    raise \"boom\"\ncatch error:\n    seen = error\n",
    );
    result.expect("the error should be caught");
    assert_eq!(vars.find("seen"), Some(&text("boom")));
    assert_eq!(vars.find("error"), Some(&text("before")));
}

#[test]
fn propagation_leaves_a_function_with_the_error() {
    let (result, vars) = run(
        "fn half(n):\n    if n % 2 == 0:\n        return ok(n / 2)\n    return err(\"odd\")\nfn quarter(n):\n    let once = half(n)?\n    let twice = half(once)?\n    return ok(twice)\nlet good = quarter(8)\nlet bad = quarter(6)\n",
    );
    result.expect("propagation should execute");
    assert_eq!(
        vars.find("good"),
        Some(&Value::ResultOk(Box::new(Value::Number(2))))
    );
    assert_eq!(
        vars.find("bad"),
        Some(&Value::ResultErr(Box::new(text("odd"))))
    );
    assert_eq!(
        failure("fn f():\n    let x = 1?\nf()\n"),
        "? expects a Result or Option value"
    );
}

#[test]
fn loops_break_continue_and_say() {
    let program = parse_program(
        "let total = 0\nfor item in range(0, 10):\n    if item == 3:\n        continue\n    if item == 6:\n        break\n    total = total + item\nsay total\n",
    )
    .expect("loop program should parse");
    let (mut vars, mut funcs) = names();
    let mut context = entered();
    execute_ast_program_with_context(&program, &mut vars, &mut funcs, &mut context, ".")
        .expect("loop program should execute");
    assert_eq!(vars.find("total"), Some(&Value::Number(12)));
    assert_eq!(context.output, vec!["12".to_string()]);
    assert_eq!(context.depth, 0);
}

#[test]
fn loops_are_bounded() {
    assert_eq!(
        failure("while true:\n    continue\n"),
        "loop limit exceeded: maximum is 100000"
    );
    assert_eq!(failure("for x in 5:\n    break\n"), "for expects a list");
}

#[test]
fn recursion_is_bounded_by_the_execution_depth() {
    let mut context = entered();
    context.depth = 255;
    let program = parse_program("if true:\n    say 1\n").expect("program should parse");
    let (mut vars, mut funcs) = names();
    let error = match execute_ast_program_with_context(
        &program,
        &mut vars,
        &mut funcs,
        &mut context,
        ".",
    ) {
        Err(error) => error,
        Ok(_) => panic!("the nested block must exceed the depth"),
    };
    assert_eq!(error, "execution depth limit exceeded: maximum is 256");
    assert_eq!(context.depth, 255);
}

#[test]
fn named_arguments_and_defaults_fill_parameters() {
    let (result, vars) = run(
        "fn area(width, height = 2, scale = width):\n    return width * height * scale\nlet a = area(3)\nlet b = area(3, scale = 1)\nlet c = area(height = 5, width = 1)\n",
    );
    result.expect("calls should execute");
    assert_eq!(vars.find("a"), Some(&Value::Number(18)));
    assert_eq!(vars.find("b"), Some(&Value::Number(6)));
    assert_eq!(vars.find("c"), Some(&Value::Number(5)));
    let define = "fn f(a, b):\n    return a\n";
    assert_eq!(
        failure(&format!("{define}f(a = 1, a = 2)\n")),
        "duplicate named argument: a"
    );
    assert_eq!(
        failure(&format!("{define}f(a = 1, 2)\n")),
        "positional argument cannot follow a named argument"
    );
    assert_eq!(
        failure(&format!("{define}f(1, c = 2)\n")),
        "unknown named argument: c"
    );
    assert_eq!(
        failure("fn f(a, b = 1):\n    return a\nf(b = 1)\n"),
        "missing required argument: a"
    );
}

#[test]
fn generic_functions_bind_their_type_parameters() {
    let (result, vars) = run(
        "fn same<T>(a: T, b: T) -> T:\n    return b\nlet n = same(1, 2)\n",
    );
    result.expect("consistent arguments should pass");
    assert_eq!(vars.find("n"), Some(&Value::Number(2)));
    assert_eq!(
        failure("fn same<T>(a: T, b: T) -> T:\n    return b\nsame(1, \"x\")\n"),
        "generic argument substitution for 'T' is inconsistent"
    );
    assert_eq!(
        failure("fn make<T>(n: number) -> number:\n    return n\nmake(1)\n"),
        "generic argument substitution for 'T' is incomplete"
    );
}

#[test]
fn expressions_follow_precedence_and_short_circuits() {
    let (result, vars) = run(
        "let a = 1 + 2 * 3 - 4 / 2\nlet b = not (1 > 2) and 2 >= 2\nlet c = true or missing\nlet d = \"yes\" if a == 5 else \"no\"\nlet e = -(3 - 5) % 2\nlet f = {name: [1, {x: 2}]}.name[1][\"x\"]\n",
    );
    result.expect("expressions should execute");
    assert_eq!(vars.find("a"), Some(&Value::Number(5)));
    assert_eq!(vars.find("b"), Some(&Value::Bool(true)));
    assert_eq!(vars.find("c"), Some(&Value::Bool(true)));
    assert_eq!(vars.find("d"), Some(&text("yes")));
    assert_eq!(vars.find("e"), Some(&Value::Number(0)));
    assert_eq!(vars.find("f"), Some(&Value::Number(2)));
}

#[test]
fn expression_errors_are_reported() {
    assert_eq!(failure("let a = nothing\n"), "undefined variable: nothing");
    assert_eq!(failure("let a = 1 / 0\n"), "division by zero");
    assert_eq!(failure("let a = -\"x\"\n"), "unary '-' expects a number");
    assert_eq!(
        failure("let a = 9223372036854775807 + 1\n"),
        "integer overflow"
    );
    assert_eq!(failure("let a = [1][1]\n"), "index out of range");
    assert_eq!(failure("let a = {x: 1}[\"y\"]\n"), "key not found");
    assert_eq!(failure("let a = {x: 1}.y\n"), "key not found: y");
    assert_eq!(failure("let a = 1[0]\n"), "invalid index operation");
    assert_eq!(
        failure("let a = 1.x\n"),
        "property access expects an object or map"
    );
    assert_eq!(failure("let a = {1: 2}\n"), "map keys must be text");
    assert_eq!(failure("let a = 5(1)\n"), "value of type number is not callable");
    assert_eq!(failure("let a = await 1\n"), "await expects a future value");
    assert_eq!(
        failure("let a = [ok(1)?]\n"),
        "? propagation must be used as a complete statement expression"
    );
    assert_eq!(
        failure("let a = 5\na.method()\n"),
        "methods can only be called on objects"
    );
    assert_eq!(failure("let a: text = 1\n"), "type mismatch for a: expected text, got number");
}

#[test]
fn source_errors_are_reported() {
    for (source, error) in [
        ("let a\n", "expected = in declaration"),
        ("let 1a = 2\n", "invalid name: 1a"),
        ("if true\n    say 1\n", "expected : at the end of the line"),
        ("try:\n    say 1\n", "try expects a catch block"),
        ("say (1\n", "expected )"),
        ("say \"x\n", "unterminated text literal"),
        ("say 1 2\n", "unexpected token after expression"),
        ("say 99999999999999999999\n", "number literal is out of range"),
        ("say 1 ~ 2\n", "unexpected character: ~"),
        ("    say 1\n", "unexpected indentation"),
        ("fn f(a:\n    return a\n", "invalid function signature"),
        ("export say 1\n", "export expects a declaration or a function"),
        ("for x list:\n    break\n", "for syntax: for item in list:"),
        (
            "if true:\n   say 1\n",
            "invalid indentation at line 2: spaces must be groups of four",
        ),
    ] {
        assert_eq!(parse_program(source).unwrap_err(), error, "{source}");
    }
}

#[test]
fn circular_and_unsafe_imports_are_refused() {
    let mut host = module_host(vec![
        ("/root/a.zp", "import \"b.zp\"\n"),
        ("/root/b.zp", "import \"a.zp\"\n"),
    ]);
    let (result, _, _) = run_hosted("import \"a.zp\"\n", "/root", &mut host);
    assert_eq!(
        result.unwrap_err(),
        "circular import detected: /root/a.zp -> /root/b.zp -> /root/a.zp"
    );
    let (result, _, _) = run_hosted("import \"missing.zp\"\n", "/root", &mut host);
    assert_eq!(result.unwrap_err(), "module not found: missing.zp");
    assert_eq!(
        failure("import \"/etc/passwd\"\n"),
        "absolute module paths are not allowed"
    );
    assert_eq!(
        failure("import \"../other.zp\"\n"),
        "module paths may not traverse parent directories"
    );
    assert_eq!(failure("import \"\"\n"), "import expects a module path");
}

#[test]
fn plain_imports_take_all_names_over() {
    let mut host = module_host(vec![(
        "/root/lib.zp",
        "let hidden = 5\nexport let shown = 6\nfn helper():\n    return hidden\n",
    )]);
    let (result, vars, _) = run_hosted(
        "use \"lib.zp\"\nlet a = hidden\nlet b = shown\nlet c = helper()\n",
        "/root",
        &mut host,
    );
    result.expect("the module should be used");
    assert_eq!(vars.find("a"), Some(&Value::Number(5)));
    assert_eq!(vars.find("b"), Some(&Value::Number(6)));
    assert_eq!(vars.find("c"), Some(&Value::Number(5)));
    assert!(!vars.holds("__zap_module"));
    let (result, _, _) = run_hosted("import \"lib.zp\"\nlet a = hidden\n", "/root", &mut host);
    assert_eq!(result.unwrap_err(), "undefined variable: hidden");
}

fn run_lines(source: &[&str]) -> (Result<Flow, String>, Table<Value>) {
    let lines: Vec<String> = source.iter().map(|line| line.to_string()).collect();
    let (mut vars, mut funcs) = names();
    let result = execute_lines(&lines, &mut vars, &mut funcs, ".", '/', here());
    (result, vars)
}

#[test]
fn line_bodied_records_run_functions_classes_and_loops() {
    let (result, vars) = run_lines(&[
        "let total = 0",
        "def add(a, b = 2):",
        "    return a + b",
        "class Point:",
        "    fn init(self, x):",
        "        self.x = x",
        "    fn double(self):",
        "        return self.x * 2",
        "let p = new(\"Point\", 4)",
        "for i in range(0, 4):",
        "    if i == 2:",
        "        continue",
        "    else:",
        "        total = total + i",
        "while total < 10:",
        "    total = total + 1",
        "let sum = add(total)",
        "let twice = p.double()",
        "p.x = 9",
        "let x: number = p.x",
    ]);
    result.expect("lines should execute");
    assert_eq!(vars.find("total"), Some(&Value::Number(10)));
    assert_eq!(vars.find("sum"), Some(&Value::Number(12)));
    assert_eq!(vars.find("twice"), Some(&Value::Number(8)));
    assert_eq!(vars.find("x"), Some(&Value::Number(9)));
}

#[test]
fn line_bodied_records_report_their_errors() {
    let error = |source: &[&str]| run_lines(source).0.unwrap_err();
    assert_eq!(error(&["let a"]), "line 1: expected =");
    assert_eq!(
        error(&["", "let a: text = 1"]),
        "line 2: type mismatch for a: expected text, got number"
    );
    assert_eq!(error(&["fn broken:"]), "function syntax: fn name(a, b):");
    assert_eq!(error(&["class :"]), "class syntax: class Name:");
    assert_eq!(
        error(&["class A extends B:"]),
        "unknown parent class: B"
    );
    assert_eq!(
        error(&["class A:", "    fn broken:"]),
        "method syntax: fn name(self):"
    );
    assert_eq!(error(&["for x list:"]), "for syntax: for item in list:");
    assert_eq!(error(&["q.x = 1"]), "undefined variable: q");
    assert_eq!(
        error(&["let q = 1", "q.x = 1"]),
        "property assignment expects an object"
    );
    let (result, _) = run_lines(&["return none_of_it", "say 1"]);
    assert_eq!(result.unwrap_err(), "undefined variable: none_of_it");
    let (result, _) = run_lines(&["let x = err(5)?", "say 1"]);
    assert!(matches!(
        result,
        Ok(Flow::Return(Value::ResultErr(value))) if *value == Value::Number(5)
    ));
}

#[test]
fn a_failed_builtin_leaves_the_budget_as_it_was() {
    let mut context = ExecutionContext::new();
    let before = context.budget.usage();
    assert!(
        direct_builtin_with_context("len", &vec![Value::Number(1)], &mut context).is_err()
    );
    assert_eq!(context.budget.usage(), before);
}

#[test]
fn a_host_call_without_a_reply_is_left_pending() {
    let program = parse_program("say 1\nlet t = now()\nsay 2\n").expect("program should parse");
    let (mut vars, mut funcs) = names();
    let mut context = entered();
    let error = execute_ast_program_with_context(
        &program,
        &mut vars,
        &mut funcs,
        &mut context,
        ".",
    )
    .unwrap_err();
    assert_eq!(error, "host call pending");
    assert_eq!(context.pending.as_ref().unwrap().operation, "clock");
    assert_eq!(context.output, vec!["1".to_string()]);
}

#[test]
fn programs_begin_in_their_workspace() {
    let program = parse_program("let a = 1\nsay a\n").expect("program should parse");
    let run_in = |reply: Reply| {
        let (mut vars, mut funcs) = names();
        let mut context = ExecutionContext::on_host('/', vec![reply]);
        let result = execute_ast_program_with_context(
            &program,
            &mut vars,
            &mut funcs,
            &mut context,
            "site",
        );
        (result, vars.len(), context)
    };
    let (result, count, context) = run_in(Ok(directory("/srv/site")));
    assert!(matches!(result, Ok(Flow::Continue)));
    assert_eq!((count, context.output.len()), (1, 1));
    assert_eq!(context.workspace.as_deref(), Some("/srv/site"));

    let (result, count, context) = run_in(Err("missing".to_string()));
    assert_eq!(result.unwrap_err(), "workspace root is not accessible: missing");
    assert_eq!((count, context.output.len()), (0, 0));

    let (result, count, context) = run_in(Ok(Value::List(vec![text("/f"), Value::Bool(false)])));
    assert_eq!(result.unwrap_err(), "workspace root must be a directory");
    assert_eq!((count, context.output.len()), (0, 0));
    assert!(context.workspace.is_none());

    let (mut vars, mut funcs) = names();
    let mut context = ExecutionContext::new();
    assert!(execute_ast_program_with_context(
        &program,
        &mut vars,
        &mut funcs,
        &mut context,
        "site",
    )
    .is_err());
    let call = context.pending.as_ref().expect("the base is asked for");
    assert_eq!(call.operation, "resolve_workspace");
    assert_eq!(call.arguments, vec![text("site")]);
    assert!(context.output.is_empty());
}

#[test]
fn nested_expressions_are_evaluated_to_the_end() {
    let depth = 25;
    let source = format!("let a = {}1{}\n", "(".repeat(depth), " + 1)".repeat(depth));
    let (result, vars) = run(&source);
    result.expect("the program should run");
    assert_eq!(vars.find("a"), Some(&Value::Number(26)));
}

#[test]
fn a_failed_builtin_leaves_the_tasks_as_they_were() {
    let mut context = ExecutionContext::new();
    context.budget.set_limits(10_000, 1, 100);
    let future = Value::Future(Box::new(Value::Number(7)));
    direct_builtin_with_context("spawn", &vec![future.copy()], &mut context)
        .expect("one task may be scheduled");
    assert_eq!(context.budget.usage().1, 1);
    assert!(direct_builtin_with_context("spawn", &vec![future], &mut context).is_err());
    assert!(direct_builtin_with_context("len", &vec![], &mut context).is_err());
    assert_eq!((context.budget.usage().1, context.tasks.len()), (1, 1));
}

#[test]
fn tables_stay_ordered_by_their_names() {
    let (result, vars) = run(
        "let b = 2\nlet a = 1\nfn f(z, y):\n    let x = z\n    return x\nlet c = f(1, 2)\n",
    );
    result.expect("the program should run");
    let found: Vec<&str> = vars.entries.iter().map(|entry| entry.0.as_str()).collect();
    assert_eq!(found, vec!["a", "b", "c"]);
}
