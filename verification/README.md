# zap_evaluator

A verified evaluator for the Zap language: values, expressions, statements, functions, classes,
modules, tasks, builtins and a small web server, with the limits that a run is held to.

## Layout

- `src/` is the library. Every function has a contract over a mathematical model, and Verus proves
  it.
  - `value`, `ast`, `table`, `text`, `world`: the data and its models. `World` is the model of an
    `ExecutionContext`, `Val` that of a `ZapValue`.
  - `lexer`, `syntax`, `program`, `layout`, `lines`: source text.
  - `semantics` says what programs mean; `evaluator` runs them and is proved to do so.
  - `builtins`, `collections`, `numbers`, `records`, `json`, `url`, `paths`, `annotations`,
    `classes`, `registry`, `modules`, `runtime`: what programs use.
  - `host`, `system`, `network`, `assets`, `web`, `webcheck`: what reaches the outside world.
  - `liveness` says which objects are live.
  - `evolution`, `progress`, `tidiness`, `order`, `laws`, `roundtrip`, `shapes`: what holds of every
    run.
  - `outside`: the few functions of other crates that the library calls, with what is believed of
    them.
- `tests/` runs the library.
- `app/` is the host: it performs what a run asks for.

## How a run meets the host

The library does no input or output. A run that needs the host (a file, the clock, a request)
looks for the reply in `ExecutionContext::replies`. Without one it stops and leaves the call in
`pending`; the host performs the call, adds the reply and runs the program again. The replies make
a run a function of its inputs. A run first enters its workspace: it asks where its
base leads, and fails before its first statement where that is no directory. The separator of paths
is the host's, in `ExecutionContext::separator`.
