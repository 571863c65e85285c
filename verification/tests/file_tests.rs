use std::sync::Arc;

use crush::command::{
    check_len, file_of, string, Argument, Command, ExecutionContext, Executor, OutputType, Printer, PrinterMessage,
    StageHandle,
};
use crush::control::{if_command, If};
use crush::errors::{error, CrushResult, ErrorKind};
use crush::file::{
    file_exists, full, getitem, getitem_value, join_path, methods, stat, stat_value, FileMetadata,
};
use crush::stream::{black_hole, channels, ValueReceiver};
use crush::value::{Value, ValueType};

fn context(this: Option<Value>, arguments: Vec<Argument>) -> (ExecutionContext, ValueReceiver) {
    let (output, receiver) = channels();
    let (_, input) = channels();
    let (sender, _) = crossbeam::channel::unbounded();
    let context =
        ExecutionContext { input, output, arguments, env: 0, this, printer: Printer::new(sender) };
    (context, receiver)
}

fn unnamed(value: Value) -> Argument {
    Argument { name: None, value }
}

fn named(name: &str, value: Value) -> Argument {
    Argument { name: Some(name.to_string()), value }
}

fn a_file(path: &str) -> Option<Value> {
    Some(Value::File(path.to_string()))
}

const METADATA: FileMetadata = FileMetadata {
    is_directory: false,
    is_file: true,
    is_symlink: false,
    inode: 11,
    nlink: 2,
    mode: 0o644,
    len: 4096,
};

#[test]
fn stat_sends_a_struct_of_seven_fields() {
    let (context, receiver) = context(a_file("/etc/passwd"), vec![]);
    stat(context, METADATA).unwrap();
    match receiver.recv().unwrap() {
        Value::Struct(s) => {
            let names: Vec<&str> = s.fields.iter().map(|(n, _)| n.as_str()).collect();
            assert_eq!(names, vec!["is_directory", "is_file", "is_symlink", "inode", "nlink", "mode", "len"]);
            assert!(matches!(s.fields[0].1, Value::Bool(false)));
            assert!(matches!(s.fields[1].1, Value::Bool(true)));
            assert!(matches!(s.fields[2].1, Value::Bool(false)));
            assert!(matches!(s.fields[3].1, Value::Integer(11)));
            assert!(matches!(s.fields[4].1, Value::Integer(2)));
            assert!(matches!(s.fields[5].1, Value::Integer(0o644)));
            assert!(matches!(s.fields[6].1, Value::Integer(4096)));
            assert!(s.parent.is_none());
        }
        other => panic!("no struct: {:?}", other),
    }
}

#[test]
fn file_methods_need_a_file() {
    let (c, _r) = context(None, vec![]);
    let e = stat(c, METADATA).unwrap_err();
    assert_eq!((e.kind, e.message.as_str()), (ErrorKind::Argument, "Expected a file"));
    let (c, _r) = context(Some(Value::Integer(1)), vec![]);
    assert!(file_exists(c, true).is_err());
    let (c, _r) = context(Some(Value::Text("x".to_string())), vec![unnamed(Value::Text("y".to_string()))]);
    assert_eq!(getitem(c).unwrap_err().message, "Expected a file");
    assert!(stat_value(&None, METADATA).is_err());
    assert_eq!(file_of(&a_file("/x")).unwrap(), "/x");
}

#[test]
fn exists_sends_what_was_found() {
    let (c, receiver) = context(a_file("/nowhere"), vec![]);
    file_exists(c, false).unwrap();
    assert!(matches!(receiver.recv(), Ok(Value::Bool(false))));
    let (c, receiver) = context(a_file("/"), vec![]);
    file_exists(c, true).unwrap();
    assert!(matches!(receiver.recv(), Ok(Value::Bool(true))));
}

#[test]
fn getitem_joins_the_paths() {
    let (c, receiver) = context(a_file("/usr"), vec![unnamed(Value::Text("lib".to_string()))]);
    getitem(c).unwrap();
    let expected = std::path::Path::new("/usr").join("lib");
    assert!(matches!(receiver.recv(), Ok(Value::File(p)) if std::path::Path::new(&p) == expected));
    // an absolute path replaces the directory
    let v = getitem_value(&a_file("/usr"), &vec![unnamed(Value::Text("/etc".to_string()))]).unwrap();
    assert!(matches!(v, Value::File(p) if p == "/etc"));
}

#[test]
fn join_path_is_what_the_platform_joins() {
    let cases = [
        ("/usr", "lib"),
        ("/usr/", "lib"),
        ("/usr", "/etc"),
        ("", "lib"),
        ("", ""),
        ("/usr", ""),
        ("/", "x"),
        ("a/b", "c/d"),
        ("a", "../b"),
        ("/usr", "./lib"),
    ];
    for (base, sub) in cases {
        let expected = std::path::Path::new(base).join(sub);
        assert_eq!(join_path(base, sub), expected.to_str().unwrap(), "{:?} {:?}", base, sub);
    }
    assert_eq!(join_path("/usr", "lib"), "/usr/lib");
    assert_eq!(join_path("/usr/", "lib"), "/usr/lib");
    assert_eq!(join_path("/usr", ""), "/usr/");
}

#[test]
fn getitem_checks_its_arguments() {
    let e = getitem_value(&a_file("/usr"), &vec![]).unwrap_err();
    assert_eq!((e.kind, e.message.as_str()), (ErrorKind::Argument, "Wrong number of arguments"));
    let two = vec![unnamed(Value::Text("a".to_string())), unnamed(Value::Text("b".to_string()))];
    assert!(getitem_value(&a_file("/usr"), &two).is_err());
    let e = getitem_value(&a_file("/usr"), &vec![unnamed(Value::Integer(1))]).unwrap_err();
    assert_eq!(e.message, "Expected a string");
    assert!(check_len(&two, 2).is_ok());
    assert_eq!(string(&two, 1).unwrap(), "b");
    assert!(string(&two, 2).is_err());
}

#[test]
fn a_send_to_nobody_fails() {
    let (c, receiver) = context(a_file("/"), vec![]);
    drop(receiver);
    assert_eq!(file_exists(c, true).unwrap_err().kind, ErrorKind::Send);
    let (mut c, _receiver) = context(a_file("/"), vec![]);
    c.output = black_hole();
    assert!(file_exists(c, true).is_ok());
}

#[test]
fn the_methods_of_a_file() {
    assert_eq!(full("stat"), vec!["global", "types", "file", "stat"]);
    let m = methods();
    let names: Vec<&str> = m.iter().map(|c| c.path[3].as_str()).collect();
    assert_eq!(names, vec!["stat", "exists", "__getitem__"]);
    assert_eq!(m[0].signature, "file:stat");
    assert!(m[0].long_help.as_ref().unwrap().contains("* inode:integer the inode number of the file"));
    assert!(matches!(m[0].output, OutputType::Unknown));
    assert!(matches!(m[1].output, OutputType::Known(ValueType::Bool)));
    assert_eq!(m[2].short_help, "Return a file or subdirectory in the specified base directory");
    assert!(matches!(m[2].output, OutputType::Known(ValueType::File)));
    assert!(m.iter().all(|c| c.can_block && c.path[..3] == full("x")[..3]));
}

/// Notes which commands were invoked.
struct Recorder {
    invoked: Vec<String>,
    arguments: Vec<usize>,
}

impl Executor for Recorder {
    fn invoke(&mut self, command: &Command, context: ExecutionContext) -> CrushResult<()> {
        self.invoked.push(command.path[0].clone());
        self.arguments.push(context.arguments.len());
        if command.path[0] == "broken" {
            return error("clause failed");
        }
        Ok(())
    }

    fn spawn(&mut self, _command: &Command, _context: ExecutionContext) -> CrushResult<StageHandle> {
        error("not here")
    }

    fn join(&mut self, _handle: StageHandle) -> CrushResult<()> {
        Ok(())
    }
}

fn echo(what: &str) -> Value {
    Value::Command(Arc::new(Command {
        path: vec![what.to_string()],
        can_block: false,
        signature: "echo".to_string(),
        short_help: String::new(),
        long_help: None,
        output: OutputType::Unknown,
    }))
}

fn run_if(arguments: Vec<Argument>) -> (CrushResult<()>, Vec<String>) {
    let (c, _r) = context(Some(Value::Integer(1)), arguments);
    let mut recorder = Recorder { invoked: vec![], arguments: vec![] };
    let r = if_command(&mut recorder, c);
    assert!(recorder.arguments.iter().all(|n| *n == 0));
    (r, recorder.invoked)
}

#[test]
fn if_true() {
    let (r, invoked) = run_if(vec![
        named("condition", Value::Bool(true)),
        named("true_clause", echo("big")),
        named("false_clause", echo("small")),
    ]);
    assert!(r.is_ok());
    assert_eq!(invoked, vec!["big".to_string()]);
}

#[test]
fn if_false() {
    let (r, invoked) = run_if(vec![unnamed(Value::Bool(false)), unnamed(echo("big")), unnamed(echo("small"))]);
    assert!(r.is_ok());
    assert_eq!(invoked, vec!["small".to_string()]);
    let (r, invoked) = run_if(vec![unnamed(Value::Bool(false)), unnamed(echo("big"))]);
    assert!(r.is_ok());
    assert!(invoked.is_empty());
}

#[test]
fn if_gives_what_the_clause_gives() {
    let (r, invoked) = run_if(vec![unnamed(Value::Bool(true)), unnamed(echo("broken"))]);
    assert_eq!(r.unwrap_err().message, "clause failed");
    assert_eq!(invoked, vec!["broken".to_string()]);
}

#[test]
fn if_arguments_by_name_and_by_position() {
    let cfg = If::parse(&vec![
        named("false_clause", echo("small")),
        unnamed(Value::Bool(true)),
        unnamed(echo("big")),
    ])
    .unwrap();
    assert!(cfg.condition);
    assert_eq!(cfg.true_clause.path[0], "big");
    assert_eq!(cfg.false_clause.as_ref().unwrap().path[0], "small");
    assert_eq!(cfg.clause().unwrap().path[0], "big");
    let fault = |arguments: Vec<Argument>| -> String {
        match If::parse(&arguments) {
            Err(e) => {
                assert_eq!(e.kind, ErrorKind::Argument);
                e.message
            }
            Ok(_) => panic!("parsed"),
        }
    };
    assert_eq!(fault(vec![]), "Missing argument");
    assert_eq!(fault(vec![unnamed(Value::Bool(true))]), "Missing argument");
    assert_eq!(fault(vec![unnamed(Value::Integer(1))]), "Expected a boolean");
    assert_eq!(fault(vec![unnamed(Value::Bool(true)), unnamed(Value::Bool(true))]), "Expected a command");
    assert_eq!(fault(vec![named("unless", Value::Bool(true))]), "Unknown argument");
    assert_eq!(
        fault(vec![named("condition", Value::Bool(true)), named("condition", Value::Bool(true))]),
        "Duplicate argument"
    );
    assert_eq!(
        fault(vec![unnamed(Value::Bool(true)), unnamed(echo("a")), unnamed(echo("b")), unnamed(echo("c"))]),
        "Too many arguments"
    );
}

#[test]
fn the_printer_sends_lines_and_errors() {
    let (sender, receiver) = crossbeam::channel::unbounded();
    let printer = Printer::new(sender);
    printer.line("hello");
    printer.error("oops");
    printer.handle_error(error::<()>("bad"));
    printer.handle_error(Ok(1));
    printer.duplicate().line("again");
    drop(printer);
    let got: Vec<PrinterMessage> = receiver.iter().collect();
    assert_eq!(got.len(), 4);
    assert!(matches!(&got[0], PrinterMessage::Line(s) if s == "hello"));
    assert!(matches!(&got[1], PrinterMessage::Error(s) if s == "oops"));
    assert!(matches!(&got[2], PrinterMessage::Error(s) if s == "bad"));
    assert!(matches!(&got[3], PrinterMessage::Line(s) if s == "again"));
}

#[test]
fn with_args_keeps_the_rest_of_the_context() {
    let (c, receiver) = context(a_file("/"), vec![unnamed(Value::Integer(1))]);
    let c = c.with_args(vec![], None);
    assert!(c.arguments.is_empty());
    assert!(c.this.is_none());
    assert_eq!(c.env, 0);
    c.output.send(Value::Integer(5)).unwrap();
    assert!(matches!(receiver.recv(), Ok(Value::Integer(5))));
}
