//! Commands as first-class values, and the context in which one runs.

use vstd::prelude::*;
use crossbeam::channel::Sender;
use crate::errors::{CrushResult, ErrorKind, argument_error, fails_with};
use crate::stream::{ValueReceiver, ValueSender, send, clone_sender};
use crate::value::{Value, ValueType, ValueView};

verus! {

/// What a command says of the type of its output.
#[derive(Debug)]
pub enum OutputType {
    Unknown,
    Known(ValueType),
}

/// A first-class callable, named by its full path. The body that runs when
/// it is invoked belongs to whoever runs commands.
#[derive(Debug)]
pub struct Command {
    pub path: Vec<String>,
    pub can_block: bool,
    pub signature: String,
    pub short_help: String,
    pub long_help: Option<String>,
    pub output: OutputType,
}

/// One argument of an invocation: a value, with a name where it was given
/// by name.
#[derive(Debug)]
pub struct Argument {
    pub name: Option<String>,
    pub value: Value,
}

/// What is sent to the printer.
#[derive(Debug)]
pub enum PrinterMessage {
    Line(String),
    Error(String),
}

/// The sink for what a command has to tell the user.
pub struct Printer {
    sender: Sender<PrinterMessage>,
}

impl Printer {
    /// The channel that the printer sends what it is told to.
    pub closed spec fn channel(&self) -> Sender<PrinterMessage> {
        self.sender
    }

    /// A printer that sends what it is told to `sender`.
    pub fn new(sender: Sender<PrinterMessage>) -> (r: Printer)
        ensures
            r.channel() == sender,
    {
        Printer { sender }
    }

    /// Prints a line. A line that nobody is left to print is dropped.
    pub fn line(&self, text: &str) {
        let _ = send(&self.sender, PrinterMessage::Line(text.to_string()));
    }

    /// Prints an error message.
    pub fn error(&self, text: &str) {
        let _ = send(&self.sender, PrinterMessage::Error(text.to_string()));
    }

    /// Prints the error of a result that is one, and nothing for a success.
    pub fn handle_error<T>(&self, result: CrushResult<T>) {
        match result {
            Err(e) => self.error(e.message.as_str()),
            Ok(_) => {},
        }
    }

    /// Another handle on the same printer: it sends to the same channel.
    pub fn duplicate(&self) -> (r: Printer)
        ensures
            r.channel() == self.channel(),
    {
        Printer { sender: clone_sender(&self.sender) }
    }
}

/// All that a command has at hand while it runs.
pub struct ExecutionContext {
    pub input: ValueReceiver,
    pub output: ValueSender,
    pub arguments: Vec<Argument>,
    pub env: usize,
    pub this: Option<Value>,
    pub printer: Printer,
}

impl ExecutionContext {
    /// The same context with other arguments and another receiver.
    pub fn with_args(self, arguments: Vec<Argument>, this: Option<Value>) -> (r: ExecutionContext)
        ensures
            r.arguments == arguments,
            r.this == this,
            r.env == self.env,
            r.input == self.input,
            r.output == self.output,
            r.printer == self.printer,
    {
        ExecutionContext {
            input: self.input,
            output: self.output,
            arguments,
            env: self.env,
            this,
            printer: self.printer,
        }
    }
}

/// Whoever runs commands: the bodies of the commands are attached here.
pub trait Executor {
    /// Runs `command` in `context` and waits for it to finish.
    fn invoke(&mut self, command: &Command, context: ExecutionContext) -> CrushResult<()>;

    /// Starts `command` in `context` as a stage of a pipeline, and gives a
    /// handle to wait for it with.
    fn spawn(&mut self, command: &Command, context: ExecutionContext) -> CrushResult<StageHandle>;

    /// Waits for a stage to finish and gives what it came to.
    fn join(&mut self, handle: StageHandle) -> CrushResult<()>;
}

/// A started stage of a pipeline, as the executor names it.
#[derive(Debug, Clone, Copy, PartialEq, Eq, Structural)]
pub struct StageHandle {
    pub id: u64,
}

pub open spec fn wrong_argument_count() -> Seq<char> {
    "Wrong number of arguments"@
}

/// Fails unless there are exactly `len` arguments.
pub fn check_len(arguments: &Vec<Argument>, len: usize) -> (r: CrushResult<()>)
    ensures
        arguments.len() == len ==> r is Ok,
        arguments.len() != len ==> fails_with(r, ErrorKind::Argument, wrong_argument_count()),
{
    if arguments.len() == len {
        Ok(())
    } else {
        argument_error("Wrong number of arguments")
    }
}

/// The text of argument `idx`. Fails where there is no such argument and
/// where it is no text.
pub fn string(arguments: &Vec<Argument>, idx: usize) -> (r: CrushResult<String>)
    ensures
        match r {
            Ok(s) => idx < arguments.len() && arguments[idx as int].value@ == ValueView::Text(s@),
            Err(_) => !(idx < arguments.len() && arguments[idx as int].value@ is Text) && fails_with(
                r,
                ErrorKind::Argument,
                "Expected a string"@,
            ),
        },
{
    if idx < arguments.len() {
        match &arguments[idx].value {
            Value::Text(s) => Ok(s.clone()),
            _ => argument_error("Expected a string"),
        }
    } else {
        argument_error("Expected a string")
    }
}

/// The path of the file that a method was called on. Fails where it was
/// called on nothing or on something else.
pub fn file_of(this: &Option<Value>) -> (r: CrushResult<String>)
    ensures
        match r {
            Ok(p) => *this matches Some(v) && v@ == ValueView::File(p@),
            Err(_) => !(*this matches Some(v) && v@ is File) && fails_with(
                r,
                ErrorKind::Argument,
                "Expected a file"@,
            ),
        },
{
    match this {
        Some(Value::File(p)) => Ok(p.clone()),
        _ => argument_error("Expected a file"),
    }
}

} // verus!
