use std::sync::Arc;

use crush::command::{Command, ExecutionContext, Executor, OutputType, Printer, StageHandle};
use crush::definition::{
    duration_from, first_error, gathered, make_list, materialize, subscript, to_duration, wants_now,
    ArgumentDefinition, CallDefinition, CellDefinition, Closure, Job, JobJoinHandle, ListDefinition,
};
use crush::errors::{error, CrushResult, ErrorKind};
use crush::scope::ScopeGraph;
use crush::stream::streams;
use crush::value::{ColumnType, Duration, Glob, Row, Time, Value, ValueType};

/// Runs every stage to its end when it is started.
struct Inline {
    started: Vec<String>,
    outcomes: Vec<CrushResult<()>>,
}

impl Inline {
    fn new() -> Inline {
        Inline { started: vec![], outcomes: vec![] }
    }

    fn run(&mut self, command: &Command, context: ExecutionContext) -> CrushResult<()> {
        let name = command.path.last().unwrap().clone();
        self.started.push(name.clone());
        match name.as_str() {
            "emit" => {
                let output = context.output.initialize(schema())?;
                output.send(Row::new(vec![Value::Integer(1), Value::Text("a".to_string())]))?;
                output.send(Row::new(vec![Value::Integer(2), Value::Text("b".to_string())]))?;
                Ok(())
            }
            "identity" => match context.input.recv()? {
                Value::TableStream(input) => {
                    let output = context.output.initialize(input.types().clone())?;
                    while let Ok(row) = input.recv() {
                        output.send(row)?;
                    }
                    Ok(())
                }
                _ => error("Expected a stream"),
            },
            "fail" => error("stage failed"),
            _ => error("Unknown command"),
        }
    }
}

impl Executor for Inline {
    fn invoke(&mut self, command: &Command, context: ExecutionContext) -> CrushResult<()> {
        self.run(command, context)
    }

    fn spawn(&mut self, command: &Command, context: ExecutionContext) -> CrushResult<StageHandle> {
        if command.path.last().unwrap() == "unstartable" {
            return error("Cannot start stage");
        }
        let outcome = self.run(command, context);
        self.outcomes.push(outcome);
        Ok(StageHandle { id: (self.outcomes.len() - 1) as u64 })
    }

    fn join(&mut self, handle: StageHandle) -> CrushResult<()> {
        std::mem::replace(&mut self.outcomes[handle.id as usize], Ok(()))
    }
}

fn schema() -> Vec<ColumnType> {
    vec![
        ColumnType { name: "n".to_string(), cell_type: ValueType::Integer },
        ColumnType { name: "s".to_string(), cell_type: ValueType::Text },
    ]
}

fn command(name: &str) -> Arc<Command> {
    Arc::new(Command {
        path: vec!["global".to_string(), name.to_string()],
        can_block: true,
        signature: name.to_string(),
        short_help: String::new(),
        long_help: None,
        output: OutputType::Unknown,
    })
}

fn call(name: &str) -> CallDefinition {
    CallDefinition { command: command(name), arguments: vec![] }
}

fn printer() -> Printer {
    let (sender, _) = crossbeam::channel::unbounded();
    Printer::new(sender)
}

fn compile(def: &CellDefinition) -> CrushResult<Value> {
    let g = ScopeGraph::new();
    compile_in(def, &g, 0)
}

fn compile_in(def: &CellDefinition, g: &ScopeGraph, env: usize) -> CrushResult<Value> {
    let mut deps = vec![];
    let r = def.compile(&mut Inline::new(), &mut deps, g, env, &printer());
    assert!(deps.is_empty());
    r
}

fn integer(i: i128) -> CellDefinition {
    CellDefinition::Integer(i)
}

fn nanos(r: CrushResult<Value>) -> i128 {
    match r {
        Ok(Value::Duration(d)) => d.nanos,
        other => panic!("no duration: {:?}", other),
    }
}

const SECOND: i128 = 1_000_000_000;

#[test]
fn duration_sum() {
    let def = CellDefinition::Duration(vec![
        integer(1),
        CellDefinition::text("minute"),
        integer(30),
        CellDefinition::text("seconds"),
    ]);
    assert_eq!(nanos(compile(&def)), 90 * SECOND);
}

#[test]
fn time_subtraction() {
    let mut g = ScopeGraph::new();
    // 2024-01-01T00:00:05Z and 2024-01-01T00:00:00Z
    let t1 = Time { seconds: 1_704_067_205, nanos: 0, offset: 0 };
    let t2 = Time { seconds: 1_704_067_200, nanos: 0, offset: 0 };
    g.declare(0, "t1", Value::Time(t1)).unwrap();
    g.declare(0, "t2", Value::Time(t2)).unwrap();
    let var = |n: &str| CellDefinition::Variable(vec![n.to_string()]);
    let def = CellDefinition::Duration(vec![var("t1"), CellDefinition::op("-"), var("t2")]);
    assert_eq!(nanos(compile_in(&def, &g, 0)), 5 * SECOND);
    let negative = CellDefinition::Duration(vec![var("t2"), CellDefinition::op("-"), var("t1")]);
    assert_eq!(compile_in(&negative, &g, 0).unwrap_err().message, "Negative duration");
    let plus = CellDefinition::Duration(vec![var("t1"), CellDefinition::op("+"), var("t2")]);
    assert_eq!(compile_in(&plus, &g, 0).unwrap_err().message, "Illegal duration");
}

#[test]
fn signed_duration_since_counts_nanoseconds() {
    let a = Time { seconds: 10, nanos: 500, offset: 3600 };
    let b = Time { seconds: 8, nanos: 700, offset: 0 };
    assert_eq!(a.signed_duration_since(&b), Duration { nanos: 2 * SECOND - 200 });
    assert_eq!(b.signed_duration_since(&a), Duration { nanos: -(2 * SECOND - 200) });
}

#[test]
fn duration_of_one_integer_is_seconds() {
    assert_eq!(nanos(compile(&CellDefinition::Duration(vec![integer(7)]))), 7 * SECOND);
    assert_eq!(nanos(compile(&CellDefinition::Duration(vec![integer(-2)]))), -2 * SECOND);
    assert_eq!(nanos(compile(&CellDefinition::Duration(vec![]))), 0);
    let huge = CellDefinition::Duration(vec![integer(i128::MAX)]);
    assert_eq!(compile(&huge).unwrap_err().message, "Duration out of range");
}

#[test]
fn duration_faults() {
    let odd = CellDefinition::Duration(vec![integer(1), CellDefinition::text("minute"), integer(30)]);
    let e = compile(&odd).unwrap_err();
    assert_eq!((e.kind, e.message.as_str()), (ErrorKind::Generic, "Unknown duration format"));
    let swapped = CellDefinition::Duration(vec![CellDefinition::text("minute"), integer(1)]);
    let e = compile(&swapped).unwrap_err();
    assert_eq!((e.kind, e.message.as_str()), (ErrorKind::Argument, "Unknown duration format"));
    let unit = CellDefinition::Duration(vec![integer(1), CellDefinition::text("fortnight")]);
    assert_eq!(compile(&unit).unwrap_err().message, "Invalid duration");
    let negative = CellDefinition::Duration(vec![integer(-1), CellDefinition::text("second")]);
    assert_eq!(compile(&negative).unwrap_err().kind, ErrorKind::Argument);
    let one_text = CellDefinition::Duration(vec![CellDefinition::text("minute")]);
    assert_eq!(compile(&one_text).unwrap_err().message, "Unknown duration format");
}

#[test]
fn a_chunk_may_count_beyond_64_bits() {
    let big = u64::MAX as i128 + 1;
    let def = CellDefinition::Duration(vec![integer(big), CellDefinition::text("nanoseconds")]);
    assert_eq!(nanos(compile(&def)), big);
    let def = CellDefinition::Duration(vec![integer(big), CellDefinition::text("seconds")]);
    assert_eq!(nanos(compile(&def)), big * SECOND);
    let def = CellDefinition::Duration(vec![integer(i128::MAX / 2), CellDefinition::text("years")]);
    let e = compile(&def).unwrap_err();
    assert_eq!((e.kind, e.message.as_str()), (ErrorKind::Generic, "Duration out of range"));
    let sum = CellDefinition::Duration(vec![
        integer(i128::MAX),
        CellDefinition::text("nanosecond"),
        integer(1),
        CellDefinition::text("nanosecond"),
    ]);
    assert_eq!(compile(&sum).unwrap_err().message, "Duration out of range");
}

#[test]
fn to_duration_knows_every_unit() {
    let units: [(&str, i128); 8] = [
        ("nanosecond", 1),
        ("microsecond", 1_000),
        ("millisecond", 1_000_000),
        ("second", SECOND),
        ("minute", 60 * SECOND),
        ("hour", 3600 * SECOND),
        ("day", 86_400 * SECOND),
        ("year", 365 * 86_400 * SECOND),
    ];
    for (unit, factor) in units {
        assert_eq!(to_duration(3, unit).unwrap().nanos, 3 * factor);
        let plural = format!("{}s", unit);
        assert_eq!(to_duration(3, &plural).unwrap().nanos, 3 * factor);
    }
    assert_eq!(to_duration(u64::MAX, "years").unwrap().nanos, u64::MAX as i128 * 365 * 86_400 * SECOND);
    let e = to_duration(1, "centuries").unwrap_err();
    assert_eq!((e.kind, e.message.as_str()), (ErrorKind::Generic, "Invalid duration"));
}

#[test]
fn duration_from_sums_chunks() {
    let values = vec![
        Value::Integer(2),
        Value::Text("hours".to_string()),
        Value::Integer(1),
        Value::Text("nanosecond".to_string()),
    ];
    assert_eq!(nanos(duration_from(&values)), 7200 * SECOND + 1);
}

#[test]
fn time_now() {
    let def = CellDefinition::Time(vec![CellDefinition::text("now")]);
    match compile(&def) {
        Ok(Value::Time(t)) => assert!(t.seconds > 1_600_000_000),
        other => panic!("no time: {:?}", other),
    }
    let then = CellDefinition::Time(vec![CellDefinition::text("then")]);
    assert_eq!(compile(&then).unwrap_err().message, "Unknown time");
    let two = CellDefinition::Time(vec![CellDefinition::text("now"), CellDefinition::text("now")]);
    assert_eq!(compile(&two).unwrap_err().message, "Unknown duration format");
    assert!(wants_now(&vec![Value::Text("now".to_string())]).is_ok());
    assert!(wants_now(&vec![Value::Integer(1)]).is_err());
}

#[test]
fn literals_compile_to_their_values() {
    assert!(matches!(compile(&CellDefinition::text("hi")), Ok(Value::Text(s)) if s == "hi"));
    assert!(matches!(compile(&integer(-5)), Ok(Value::Integer(-5))));
    assert!(matches!(compile(&CellDefinition::op("-")), Ok(Value::Op(s)) if s == "-"));
    assert!(matches!(compile(&CellDefinition::File("/tmp".to_string())), Ok(Value::File(s)) if s == "/tmp"));
    let field = CellDefinition::Field(vec!["a".to_string(), "b".to_string()]);
    assert!(matches!(compile(&field), Ok(Value::Field(f)) if f == vec!["a".to_string(), "b".to_string()]));
    let glob = CellDefinition::Glob(Glob { pattern: "*.rs".to_string() });
    assert!(matches!(compile(&glob), Ok(Value::Glob(g)) if g.pattern == "*.rs"));
    let re = CellDefinition::regex("a+b", regex::Regex::new("a+b").unwrap());
    match compile(&re) {
        Ok(Value::Regex(source, matcher)) => {
            assert_eq!(source, "a+b");
            assert_eq!(crush::value::pattern_of(&matcher), "a+b");
            assert!(matcher.is_match("xaab"));
            assert!(!matcher.is_match("b"));
        }
        other => panic!("no regex: {:?}", other),
    }
}

#[test]
fn variable_lookup() {
    let mut g = ScopeGraph::new();
    let s = g.create(None, false, false, false);
    g.set_parent(s, Some(0));
    g.declare(0, "x", Value::Integer(3)).unwrap();
    let def = CellDefinition::Variable(vec!["x".to_string()]);
    assert!(matches!(compile_in(&def, &g, s), Ok(Value::Integer(3))));
    let missing = CellDefinition::Variable(vec!["y".to_string()]);
    let e = compile_in(&missing, &g, s).unwrap_err();
    assert_eq!((e.kind, e.message.as_str()), (ErrorKind::Lookup, "Unknown variable"));
}

fn list(cells: Vec<CellDefinition>) -> CellDefinition {
    CellDefinition::List(ListDefinition { cells })
}

#[test]
fn subscript_by_index() {
    let numbers = || list(vec![integer(1), integer(2), integer(3)]);
    let at = |i: i128| CellDefinition::Subscript(Box::new(numbers()), Box::new(integer(i)));
    assert!(matches!(compile(&at(1)), Ok(Value::Integer(2))));
    assert!(matches!(compile(&at(0)), Ok(Value::Integer(1))));
    assert_eq!(compile(&at(9)).unwrap_err().message, "Index out of bounds");
    assert_eq!(compile(&at(-1)).unwrap_err().message, "Index out of bounds");
    let by_text = CellDefinition::Subscript(Box::new(numbers()), Box::new(CellDefinition::text("x")));
    assert_eq!(compile(&by_text).unwrap_err().message, "Expected a list variable");
    let of_text = CellDefinition::Subscript(Box::new(CellDefinition::text("x")), Box::new(integer(0)));
    assert_eq!(compile(&of_text).unwrap_err().message, "Expected a list variable");
}

#[test]
fn list_literals_are_typed() {
    match compile(&list(vec![integer(1), integer(2)])) {
        Ok(Value::List(ValueType::Integer, cells)) => assert_eq!(cells.len(), 2),
        other => panic!("no list: {:?}", other),
    }
    let mixed = list(vec![integer(1), CellDefinition::text("two")]);
    let e = compile(&mixed).unwrap_err();
    assert_eq!((e.kind, e.message.as_str()), (ErrorKind::Type, "All elements in list must be of same type"));
    assert_eq!(compile(&list(vec![])).unwrap_err().message, "Empty list literals not supported");
    assert!(make_list(vec![Value::Bool(true)]).is_ok());
}

#[test]
fn subscript_of_dict_scope_and_row() {
    let g = {
        let mut g = ScopeGraph::new();
        let inner = g.create(None, false, false, false);
        g.declare(inner, "x", Value::Integer(9)).unwrap();
        g.declare(0, "inner", Value::Scope(inner)).unwrap();
        g
    };
    let ok = |v: Value| -> CrushResult<Value> { Ok(v) };
    let dict = || {
        Value::Dict(
            ValueType::Text,
            ValueType::Integer,
            vec![
                (Value::Text("a".to_string()), Value::Integer(1)),
                (Value::Text("b".to_string()), Value::Integer(2)),
            ],
        )
    };
    assert!(matches!(subscript(&g, ok(dict()), ok(Value::Text("b".to_string()))), Ok(Value::Integer(2))));
    let e = subscript(&g, ok(dict()), ok(Value::Text("c".to_string()))).unwrap_err();
    assert_eq!(e.message, "Invalid subscript");
    assert!(matches!(subscript(&g, ok(Value::Scope(1)), ok(Value::Text("x".to_string()))), Ok(Value::Integer(9))));
    assert!(subscript(&g, ok(Value::Scope(1)), ok(Value::Text("y".to_string()))).is_err());
    assert!(subscript(&g, ok(Value::Scope(77)), ok(Value::Text("x".to_string()))).is_err());
    let row = || Value::Row(schema(), Row::new(vec![Value::Integer(5), Value::Text("five".to_string())]));
    assert!(matches!(subscript(&g, ok(row()), ok(Value::Text("s".to_string()))), Ok(Value::Text(t)) if t == "five"));
    assert!(subscript(&g, ok(row()), ok(Value::Text("t".to_string()))).is_err());
    let e = subscript(&g, error("no"), ok(Value::Integer(1))).unwrap_err();
    assert_eq!(e.message, "Expected a list variable");
}

#[test]
fn subscript_of_a_stream_reads_to_the_row() {
    let g = ScopeGraph::new();
    let (output, input) = streams(schema());
    for i in 0..3 {
        output.send(Row::new(vec![Value::Integer(i), Value::Text(format!("r{}", i))])).unwrap();
    }
    drop(output);
    let r = subscript(&g, Ok(Value::TableStream(input.clone())), Ok(Value::Integer(1)));
    match r {
        Ok(Value::Row(types, row)) => {
            assert_eq!(types.len(), 2);
            assert!(matches!(row.cells()[0], Value::Integer(1)));
        }
        other => panic!("no row: {:?}", other),
    }
    // the rows before it are gone, and so is the row itself
    let r = subscript(&g, Ok(Value::TableStream(input.clone())), Ok(Value::Integer(0)));
    assert!(matches!(r, Ok(Value::Row(_, row)) if matches!(row.cells()[0], Value::Integer(2))));
    let r = subscript(&g, Ok(Value::TableStream(input)), Ok(Value::Integer(0)));
    assert_eq!(r.unwrap_err().message, "Index out of bounds");
}

#[test]
fn closure_capture() {
    let mut g = ScopeGraph::new();
    let s = g.create(None, false, false, false);
    g.declare(s, "x", Value::Integer(1)).unwrap();
    let def = CellDefinition::ClosureDefinition(Closure { body: Arc::new(vec![]), env: None });
    let closure = match compile_in(&def, &g, s) {
        Ok(Value::Closure(c)) => c,
        other => panic!("no closure: {:?}", other),
    };
    assert_eq!(closure.env, Some(s));
    // what the closure sees is what its scope binds when it is asked
    g.redeclare(s, "x", Value::Integer(2)).unwrap();
    g.declare(s, "y", Value::Integer(3)).unwrap();
    let env = closure.env.unwrap();
    assert!(matches!(g.get_str(env, "x"), Some(Value::Integer(2))));
    assert!(matches!(g.get_str(env, "y"), Some(Value::Integer(3))));
}

fn job(names: &[&str]) -> Job {
    Job { commands: names.iter().map(|n| call(n)).collect() }
}

#[test]
fn pipeline_materialization() {
    let g = ScopeGraph::new();
    let mut executor = Inline::new();
    let mut deps = vec![];
    let def = CellDefinition::MaterializedJobDefintion(job(&["emit", "identity"]));
    let r = def.compile(&mut executor, &mut deps, &g, 0, &printer());
    match r {
        Ok(Value::Table(types, rows)) => {
            assert_eq!(types.len(), 2);
            assert_eq!(types[0].name, "n");
            assert!(matches!(types[0].cell_type, ValueType::Integer));
            assert_eq!(types[1].name, "s");
            assert!(matches!(types[1].cell_type, ValueType::Text));
            assert_eq!(rows.len(), 2);
            assert!(matches!(rows[0].cells()[0], Value::Integer(1)));
            assert!(matches!(&rows[0].cells()[1], Value::Text(t) if t == "a"));
            assert!(matches!(rows[1].cells()[0], Value::Integer(2)));
            assert!(matches!(&rows[1].cells()[1], Value::Text(t) if t == "b"));
        }
        other => panic!("no table: {:?}", other),
    }
    assert_eq!(executor.started, vec!["emit".to_string(), "identity".to_string()]);
    assert_eq!(deps.len(), 1);
    assert_eq!(deps[0].handles.len(), 2);
    for handle in deps {
        assert!(handle.join(&mut executor).is_ok());
    }
}

#[test]
fn a_job_gives_the_stream_of_its_last_stage() {
    let g = ScopeGraph::new();
    let mut executor = Inline::new();
    let mut deps = vec![];
    let def = CellDefinition::JobDefintion(job(&["emit"]));
    match def.compile(&mut executor, &mut deps, &g, 0, &printer()) {
        Ok(Value::TableStream(stream)) => {
            assert_eq!(stream.types().len(), 2);
            assert!(stream.recv().is_ok());
            assert!(stream.recv().is_ok());
            assert_eq!(stream.recv().unwrap_err().kind, ErrorKind::Recv);
        }
        other => panic!("no stream: {:?}", other),
    }
    assert_eq!(deps.len(), 1);
}

#[test]
fn dependencies_are_only_added() {
    let g = ScopeGraph::new();
    let mut executor = Inline::new();
    let mut deps = vec![JobJoinHandle { handles: vec![StageHandle { id: 99 }] }];
    // the second stage cannot be started: the first is kept to be waited for
    let def = CellDefinition::JobDefintion(job(&["emit", "unstartable"]));
    let r = def.compile(&mut executor, &mut deps, &g, 0, &printer());
    assert_eq!(r.unwrap_err().message, "Cannot start stage");
    assert_eq!(deps.len(), 2);
    assert_eq!(deps[0].handles, vec![StageHandle { id: 99 }]);
    assert_eq!(deps[1].handles.len(), 1);
}

#[test]
fn a_failing_stage_is_reported_by_the_join() {
    let g = ScopeGraph::new();
    let mut executor = Inline::new();
    let mut deps = vec![];
    let def = CellDefinition::JobDefintion(job(&["fail", "fail"]));
    let r = def.compile(&mut executor, &mut deps, &g, 0, &printer());
    assert!(r.is_err());
    assert_eq!(deps.len(), 1);
    let handle = deps.pop().unwrap();
    assert_eq!(handle.join(&mut executor).unwrap_err().message, "stage failed");
    // every stage was waited for
    assert!(executor.outcomes.iter().all(|o| o.is_ok()));
}

#[test]
fn arguments_are_compiled_for_each_stage() {
    let g = ScopeGraph::new();
    let mut executor = Inline::new();
    let mut deps = vec![];
    let with_bad_argument = Job {
        commands: vec![CallDefinition {
            command: command("emit"),
            arguments: vec![ArgumentDefinition {
                name: Some("x".to_string()),
                value: CellDefinition::Variable(vec!["missing".to_string()]),
            }],
        }],
    };
    let (_, input) = crush::stream::channels();
    let (output, _) = crush::stream::channels();
    let r = with_bad_argument.spawn_and_execute(&mut executor, &mut deps, &g, 0, &printer(), input, output);
    assert_eq!(r.unwrap_err().message, "Unknown variable");
    assert!(executor.started.is_empty());
    // the stage was not started: what is left to wait for names no stage
    assert_eq!(deps.len(), 1);
    assert!(deps[0].handles.is_empty());
    assert!(deps.pop().unwrap().join(&mut executor).is_ok());
    let empty = Job { commands: vec![] };
    let (_, input) = crush::stream::channels();
    let (output, _) = crush::stream::channels();
    let r = empty.spawn_and_execute(&mut executor, &mut deps, &g, 0, &printer(), input, output);
    assert!(r.unwrap().handles.is_empty());
    assert!(deps.is_empty());
}

#[test]
fn arguments_keep_their_names() {
    struct Keeper {
        seen: Vec<(Option<String>, i128)>,
    }
    impl Executor for Keeper {
        fn invoke(&mut self, _command: &Command, _context: ExecutionContext) -> CrushResult<()> {
            Ok(())
        }

        fn spawn(&mut self, _command: &Command, context: ExecutionContext) -> CrushResult<StageHandle> {
            for a in context.arguments {
                match a.value {
                    Value::Integer(i) => self.seen.push((a.name, i)),
                    other => panic!("no integer: {:?}", other),
                }
            }
            assert!(context.this.is_none());
            assert_eq!(context.env, 0);
            Ok(StageHandle { id: 7 })
        }

        fn join(&mut self, _handle: StageHandle) -> CrushResult<()> {
            Ok(())
        }
    }
    let g = ScopeGraph::new();
    let mut keeper = Keeper { seen: vec![] };
    let mut deps = vec![];
    let job = Job {
        commands: vec![CallDefinition {
            command: command("emit"),
            arguments: vec![
                ArgumentDefinition { name: Some("n".to_string()), value: integer(3) },
                ArgumentDefinition { name: None, value: integer(4) },
            ],
        }],
    };
    let (_, input) = crush::stream::channels();
    let (output, _) = crush::stream::channels();
    let handle = job.spawn_and_execute(&mut keeper, &mut deps, &g, 0, &printer(), input, output).unwrap();
    assert_eq!(handle.handles, vec![StageHandle { id: 7 }]);
    assert!(deps.is_empty());
    assert_eq!(keeper.seen, vec![(Some("n".to_string()), 3), (None, 4)]);
}

#[test]
fn first_error_is_the_first_in_stage_order() {
    assert!(first_error(vec![]).is_ok());
    assert!(first_error(vec![Ok(()), Ok(())]).is_ok());
    let r = first_error(vec![Ok(()), error("one"), error("two")]);
    assert_eq!(r.unwrap_err().message, "one");
}

#[test]
fn materialize_stops_at_the_first_bad_row() {
    let (output, input) = streams(schema());
    output.send(Row::new(vec![Value::Integer(1), Value::Text("a".to_string())])).unwrap();
    output.send(Row::new(vec![Value::Text("bad".to_string()), Value::Text("b".to_string())])).unwrap();
    output.send(Row::new(vec![Value::Integer(3), Value::Text("c".to_string())])).unwrap();
    drop(output);
    match materialize(input) {
        Value::Table(_, rows) => assert_eq!(rows.len(), 1),
        other => panic!("no table: {:?}", other),
    }
}

#[test]
fn a_copy_of_a_definition_compiles_to_the_same() {
    let form = CellDefinition::Subscript(
        Box::new(list(vec![integer(10), integer(20)])),
        Box::new(integer(1)),
    );
    let copy = form.clone();
    assert!(matches!(compile(&form), Ok(Value::Integer(20))));
    assert!(matches!(compile(&copy), Ok(Value::Integer(20))));
    let duration = CellDefinition::Duration(vec![integer(2), CellDefinition::text("hours")]);
    assert_eq!(nanos(compile(&duration.clone())), 7200 * SECOND);
    let pipeline = job(&["emit", "identity"]).clone();
    assert_eq!(pipeline.commands.len(), 2);
    assert_eq!(pipeline.commands[1].command.path[1], "identity");
    let with_argument = Job {
        commands: vec![CallDefinition {
            command: command("emit"),
            arguments: vec![ArgumentDefinition { name: Some("n".to_string()), value: integer(3) }],
        }],
    };
    let copy = CellDefinition::JobDefintion(with_argument).clone();
    match copy {
        CellDefinition::JobDefintion(j) => {
            assert_eq!(j.commands[0].arguments[0].name, Some("n".to_string()));
            assert!(matches!(j.commands[0].arguments[0].value, CellDefinition::Integer(3)));
        }
        other => panic!("no job: {:?}", other),
    }
    let closure = Closure { body: Arc::new(vec![job(&["emit"])]), env: Some(4) };
    let bound = closure.with_env(7);
    assert_eq!(bound.env, Some(7));
    assert!(Arc::ptr_eq(&bound.body, &closure.body));
    assert_eq!(closure.clone().env, Some(4));
}

#[test]
fn gathered_keeps_rows_in_order() {
    let one = || Row::new(vec![Value::Integer(1)]);
    let (rows, more) = gathered(vec![], Ok(one()));
    assert!(more);
    let (rows, more) = gathered(rows, Ok(Row::new(vec![Value::Integer(2)])));
    assert!(more);
    assert!(matches!(rows[0].cells()[0], Value::Integer(1)));
    assert!(matches!(rows[1].cells()[0], Value::Integer(2)));
    let (rows, more) = gathered(rows, error("closed"));
    assert!(!more);
    assert_eq!(rows.len(), 2);
}

#[test]
fn started_keeps_handles_or_hands_them_on() {
    let mut deps = vec![];
    let handles = Job::started(vec![StageHandle { id: 1 }], Ok(StageHandle { id: 2 }), &mut deps).unwrap();
    assert_eq!(handles, vec![StageHandle { id: 1 }, StageHandle { id: 2 }]);
    assert!(deps.is_empty());
    let e = Job::started(handles, error("no thread"), &mut deps).unwrap_err();
    assert_eq!(e.message, "no thread");
    assert_eq!(deps.len(), 1);
    assert_eq!(deps[0].handles, vec![StageHandle { id: 1 }, StageHandle { id: 2 }]);
}

#[test]
fn stage_context_holds_what_it_is_given() {
    let (sender, receiver) = crossbeam::channel::unbounded();
    let printer = Printer::new(sender);
    let (output, out_end) = crush::stream::channels();
    let (in_end, input) = crush::stream::channels();
    let arguments = vec![crush::command::Argument { name: Some("n".to_string()), value: Value::Integer(3) }];
    let context = Job::stage_context(arguments, input, output, 4, &printer);
    assert_eq!(context.env, 4);
    assert!(context.this.is_none());
    assert_eq!(context.arguments.len(), 1);
    assert_eq!(context.arguments[0].name, Some("n".to_string()));
    context.output.send(Value::Integer(7)).unwrap();
    assert!(matches!(out_end.recv(), Ok(Value::Integer(7))));
    in_end.send(Value::Integer(8)).unwrap();
    assert!(matches!(context.input.recv(), Ok(Value::Integer(8))));
    context.printer.line("hello");
    assert!(matches!(receiver.recv(), Ok(crush::command::PrinterMessage::Line(l)) if l == "hello"));
}

#[test]
fn the_matcher_of_a_regex_keeps_its_pattern() {
    // the source that is kept for display need not be the pattern of the matcher
    let re = CellDefinition::regex("shown", regex::Regex::new("x[0-9]+").unwrap());
    match compile(&re.clone()) {
        Ok(Value::Regex(source, matcher)) => {
            assert_eq!(source, "shown");
            assert_eq!(crush::value::pattern_of(&matcher), "x[0-9]+");
            assert!(matcher.is_match("x42"));
            match Value::Regex(source, matcher).clone() {
                Value::Regex(_, copy) => assert_eq!(crush::value::pattern_of(&copy), "x[0-9]+"),
                other => panic!("no regex: {:?}", other),
            }
        }
        other => panic!("no regex: {:?}", other),
    }
}

#[test]
fn one_pipeline_is_added_for_each_pipeline_in_the_form() {
    let g = ScopeGraph::new();
    let mut executor = Inline::new();
    let mut deps = vec![];
    let inner = CellDefinition::JobDefintion(job(&["emit", "identity"]));
    let outer = Job {
        commands: vec![CallDefinition {
            command: command("emit"),
            arguments: vec![ArgumentDefinition { name: None, value: inner }],
        }],
    };
    let form = list(vec![CellDefinition::MaterializedJobDefintion(outer), CellDefinition::MaterializedJobDefintion(job(&["emit"]))]);
    let r = form.compile(&mut executor, &mut deps, &g, 0, &printer());
    assert!(matches!(r, Ok(Value::List(_, tables)) if tables.len() == 2));
    // the pipeline in the argument, the pipeline it is an argument of, and the second element
    assert_eq!(deps.len(), 3);
    assert_eq!(deps[0].handles.len(), 2);
    assert_eq!(deps[1].handles.len(), 1);
    assert_eq!(deps[2].handles.len(), 1);
}
