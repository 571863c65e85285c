//! Conditional execution of a command.

use vstd::prelude::*;
use std::sync::Arc;
use crate::command::{Argument, Command, ExecutionContext, Executor};
use crate::errors::{CrushResult, ErrorKind, argument_error, fails_with};
use crate::text::str_eq;
use crate::value::{Value, share};

verus! {

/// The arguments of `if`: the condition, the command to invoke where it
/// holds, and the command, if any, to invoke where it does not.
pub struct If {
    pub condition: bool,
    pub true_clause: Arc<Command>,
    pub false_clause: Option<Arc<Command>>,
}

/// The arguments of `if` as far as they have been given.
pub struct IfFields {
    pub condition: Option<bool>,
    pub true_clause: Option<Arc<Command>>,
    pub false_clause: Option<Arc<Command>>,
}

/// The field that an argument is for: the one it names, or the first that
/// has not been given where it names none. The fields are numbered in the
/// order of their declaration.
pub open spec fn slot(fields: IfFields, name: Option<String>) -> Option<int> {
    match name {
        Some(n) => if n@ == "condition"@ {
            Some(0)
        } else if n@ == "true_clause"@ {
            Some(1)
        } else if n@ == "false_clause"@ {
            Some(2)
        } else {
            None
        },
        None => if fields.condition is None {
            Some(0)
        } else if fields.true_clause is None {
            Some(1)
        } else if fields.false_clause is None {
            Some(2)
        } else {
            None
        },
    }
}

/// The fields after one more argument, or the fault of the argument.
pub open spec fn assign(fields: IfFields, arg: Argument) -> Result<IfFields, Seq<char>> {
    match slot(fields, arg.name) {
        None => if arg.name is Some {
            Err("Unknown argument"@)
        } else {
            Err("Too many arguments"@)
        },
        Some(i) => if i == 0 {
            if fields.condition is Some {
                Err("Duplicate argument"@)
            } else {
                match arg.value {
                    Value::Bool(b) => Ok(IfFields { condition: Some(b), ..fields }),
                    _ => Err("Expected a boolean"@),
                }
            }
        } else if i == 1 {
            if fields.true_clause is Some {
                Err("Duplicate argument"@)
            } else {
                match arg.value {
                    Value::Command(c) => Ok(IfFields { true_clause: Some(c), ..fields }),
                    _ => Err("Expected a command"@),
                }
            }
        } else {
            if fields.false_clause is Some {
                Err("Duplicate argument"@)
            } else {
                match arg.value {
                    Value::Command(c) => Ok(IfFields { false_clause: Some(c), ..fields }),
                    _ => Err("Expected a command"@),
                }
            }
        },
    }
}

/// The fields after the first `k` arguments, or the fault of the first
/// faulty one among them.
pub open spec fn assign_all(arguments: Seq<Argument>, k: nat) -> Result<IfFields, Seq<char>>
    decreases k,
{
    if k == 0 {
        Ok(IfFields { condition: None, true_clause: None, false_clause: None })
    } else {
        match assign_all(arguments, (k - 1) as nat) {
            Err(m) => Err(m),
            Ok(fields) => assign(fields, arguments[k - 1]),
        }
    }
}

/// The arguments of `if` that the given arguments come to: the condition and
/// the first clause must have been given.
pub open spec fn parsed(arguments: Seq<Argument>) -> Result<If, Seq<char>> {
    match assign_all(arguments, arguments.len()) {
        Err(m) => Err(m),
        Ok(fields) => if fields.condition is Some && fields.true_clause is Some {
            Ok(If { condition: fields.condition->0, true_clause: fields.true_clause->0, false_clause: fields.false_clause })
        } else {
            Err("Missing argument"@)
        },
    }
}

fn assign_one(fields: IfFields, arg: &Argument) -> (r: CrushResult<IfFields>)
    ensures
        match assign(fields, *arg) {
            Ok(f) => r == Ok::<IfFields, crate::errors::CrushError>(f),
            Err(m) => fails_with(r, ErrorKind::Argument, m),
        },
{
    let target: Option<u8> = match &arg.name {
        Some(n) => if str_eq(n.as_str(), "condition") {
            Some(0u8)
        } else if str_eq(n.as_str(), "true_clause") {
            Some(1u8)
        } else if str_eq(n.as_str(), "false_clause") {
            Some(2u8)
        } else {
            None
        },
        None => if fields.condition.is_none() {
            Some(0u8)
        } else if fields.true_clause.is_none() {
            Some(1u8)
        } else if fields.false_clause.is_none() {
            Some(2u8)
        } else {
            None
        },
    };
    match target {
        None => if arg.name.is_some() {
            argument_error("Unknown argument")
        } else {
            argument_error("Too many arguments")
        },
        Some(i) => if i == 0 {
            if fields.condition.is_some() {
                argument_error("Duplicate argument")
            } else {
                match &arg.value {
                    Value::Bool(b) => Ok(
                        IfFields { condition: Some(*b), true_clause: fields.true_clause, false_clause: fields.false_clause },
                    ),
                    _ => argument_error("Expected a boolean"),
                }
            }
        } else if i == 1 {
            if fields.true_clause.is_some() {
                argument_error("Duplicate argument")
            } else {
                match &arg.value {
                    Value::Command(c) => Ok(
                        IfFields { condition: fields.condition, true_clause: Some(share(c)), false_clause: fields.false_clause },
                    ),
                    _ => argument_error("Expected a command"),
                }
            }
        } else {
            if fields.false_clause.is_some() {
                argument_error("Duplicate argument")
            } else {
                match &arg.value {
                    Value::Command(c) => Ok(
                        IfFields { condition: fields.condition, true_clause: fields.true_clause, false_clause: Some(share(c)) },
                    ),
                    _ => argument_error("Expected a command"),
                }
            }
        },
    }
}

impl If {
    /// Reads the arguments of `if`. An argument that is given by name goes
    /// to the field of that name; one that is not goes to the first field
    /// that has not been given. The condition is a boolean and the clauses
    /// are commands; the last clause may be left out.
    pub fn parse(arguments: &Vec<Argument>) -> (r: CrushResult<If>)
        ensures
            match parsed(arguments@) {
                Ok(cfg) => r == Ok::<If, crate::errors::CrushError>(cfg),
                Err(m) => fails_with(r, ErrorKind::Argument, m),
            },
    {
        let mut fields = IfFields { condition: None, true_clause: None, false_clause: None };
        let mut k: usize = 0;
        while k < arguments.len()
            invariant
                k <= arguments.len(),
                assign_all(arguments@, k as nat) == Ok::<IfFields, Seq<char>>(fields),
            decreases arguments.len() - k,
        {
            match assign_one(fields, &arguments[k]) {
                Ok(f) => {
                    fields = f;
                },
                Err(e) => {
                    proof {
                        lemma_fault_stays(arguments@, (k + 1) as nat, arguments@.len());
                    }
                    return Err(e);
                },
            }
            k += 1;
        }
        match (fields.condition, fields.true_clause) {
            (Some(condition), Some(true_clause)) => Ok(If { condition, true_clause, false_clause: fields.false_clause }),
            _ => argument_error("Missing argument"),
        }
    }

    /// The command to invoke: the first clause where the condition holds,
    /// the last, if there is one, where it does not.
    pub fn clause(&self) -> (r: Option<&Arc<Command>>)
        ensures
            self.condition ==> r == Some(&self.true_clause),
            !self.condition ==> match self.false_clause {
                Some(c) => r == Some(&c),
                None => r is None,
            },
    {
        if self.condition {
            Some(&self.true_clause)
        } else {
            match &self.false_clause {
                Some(c) => Some(c),
                None => None,
            }
        }
    }
}

/// The fault of the first faulty argument is the fault of all of them.
proof fn lemma_fault_stays(arguments: Seq<Argument>, k: nat, n: nat)
    requires
        k <= n,
        assign_all(arguments, k) is Err,
    ensures
        assign_all(arguments, n) == assign_all(arguments, k),
    decreases n - k,
{
    if k < n {
        lemma_fault_stays(arguments, k, (n - 1) as nat);
    }
}

/// Conditionally executes a command once: the first clause where the
/// condition holds, the last where it does not; without a last clause
/// nothing is done. The clause is invoked without arguments, in the context
/// of the call. Fails where the arguments are at fault, and where the
/// clause fails.
pub fn if_command<E: Executor>(executor: &mut E, context: ExecutionContext) -> (r: CrushResult<()>)
    ensures
        match parsed(context.arguments@) {
            Err(m) => fails_with(r, ErrorKind::Argument, m),
            Ok(cfg) => !cfg.condition && cfg.false_clause is None ==> r is Ok,
        },
{
    let cfg = match If::parse(&context.arguments) {
        Ok(c) => c,
        Err(e) => {
            return Err(e);
        },
    };
    match cfg.clause() {
        Some(command) => executor.invoke(command, context.with_args(Vec::new(), None)),
        None => Ok(()),
    }
}

} // verus!
